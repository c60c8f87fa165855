use vstd::prelude::*;

use crate::text::{ascii_lower_char, ascii_lowercase, str_eq, to_ascii_lowercase};

verus! {

broadcast use vstd::string::group_string_axioms;

/// One game as the HLTB search API returns it.
#[derive(Debug)]
pub struct RawEntry {
    pub game_image: String,
    pub game_name: String,
    /// Main + Extra, in seconds
    pub comp_plus: i32,
    /// Main Story, in seconds
    pub comp_main: i32,
    /// Completionist, in seconds
    pub comp_100: i32,
    pub game_id: i64,
    pub profile_steam: i64,
}

/// One game as the bot shows it.
#[derive(Debug)]
pub struct Entry {
    pub name: String,
    pub link: String,
    pub img: String,
    pub descr: String,
    /// The game's id on HLTB, by which its Steam link is looked up later.
    pub hltb_id: i64,
}

impl Entry {
    pub fn new(name: String, link: String, img: String, descr: String, hltb_id: i64) -> (e: Entry)
        ensures
            e.name == name,
            e.link == link,
            e.img == img,
            e.descr == descr,
            e.hltb_id == hltb_id,
    {
        Entry { name, img, link, descr, hltb_id }
    }
}

/// A duration split into whole hours and whether the remainder exceeds half
/// an hour.
#[derive(Debug, Clone, Copy, PartialEq, Eq, Structural)]
pub struct HoursSplit {
    pub whole: i64,
    pub over_half: bool,
}

/// The three durations of an entry, split into hours.
#[derive(Debug, Clone, Copy, PartialEq, Eq, Structural)]
pub struct EntryHours {
    pub main: HoursSplit,
    pub plus: HoursSplit,
    pub comp: HoursSplit,
}

/// How the program receives its requests.
#[derive(Debug, Clone, Copy, PartialEq, Eq, Structural)]
pub enum RunMode {
    Polling,
    WebHook,
    Cli,
}

/// The error of parsing an unknown run mode; it holds the message.
#[derive(Debug)]
pub struct EnumParseError(String);

impl EnumParseError {
    pub closed spec fn spec_message(&self) -> Seq<char> {
        self.0@
    }

    /// The message of the error.
    pub fn message(&self) -> (m: &str)
        ensures
            m@ == self.spec_message(),
    {
        self.0.as_str()
    }
}

/// The run mode that a name denotes, ignoring ASCII case.
pub open spec fn run_mode_of(s: Seq<char>) -> Option<RunMode> {
    let l = ascii_lowercase(s);
    if l == "polling"@ {
        Some(RunMode::Polling)
    } else if l == "webhook"@ {
        Some(RunMode::WebHook)
    } else if l == "cli"@ {
        Some(RunMode::Cli)
    } else {
        None
    }
}

/// Run modes are named without regard to ASCII case.
pub proof fn law_run_mode_ignores_case(s: Seq<char>)
    ensures
        run_mode_of(s) == run_mode_of(ascii_lowercase(s)),
{
    let l = ascii_lowercase(s);
    assert forall|i: int| 0 <= i < l.len() implies #[trigger] ascii_lower_char(l[i]) == l[i] by {
        let c = s[i];
        if 'A' <= c && c <= 'Z' {
            assert(((c as u32) + 32) as char as u32 == (c as u32) + 32);
        }
    }
    assert(ascii_lowercase(l) =~= l);
}

impl RunMode {
    /// Parses a run mode; the name is matched without regard to ASCII case.
    pub fn parse(s: &str) -> (r: Result<RunMode, EnumParseError>)
        ensures
            r matches Ok(m) ==> run_mode_of(s@) == Some(m),
            r matches Err(e) ==> run_mode_of(s@) is None && e.spec_message() == "Unknown RunMode "@
                + s@,
            r is Ok <==> run_mode_of(s@) is Some,
    {
        let l = to_ascii_lowercase(s);
        if str_eq(l.as_str(), "polling") {
            Ok(RunMode::Polling)
        } else if str_eq(l.as_str(), "webhook") {
            Ok(RunMode::WebHook)
        } else if str_eq(l.as_str(), "cli") {
            Ok(RunMode::Cli)
        } else {
            let mut msg = String::from_str("Unknown RunMode ");
            msg.append(s);
            Err(EnumParseError(msg))
        }
    }
}

impl std::str::FromStr for RunMode {
    type Err = EnumParseError;

    fn from_str(s: &str) -> (r: Result<Self, Self::Err>)
        ensures
            r matches Ok(m) ==> run_mode_of(s@) == Some(m),
            r matches Err(e) ==> run_mode_of(s@) is None && e.spec_message() == "Unknown RunMode "@
                + s@,
            r is Ok <==> run_mode_of(s@) is Some,
    {
        RunMode::parse(s)
    }
}

} // verus!
