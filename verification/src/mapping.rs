use vstd::prelude::*;

use crate::model::{Entry, EntryHours, HoursSplit, RawEntry};
use crate::text::{decimal_int, push_decimal_i64};

verus! {

broadcast use vstd::string::group_string_axioms;

/// How a duration is shown: `--` below one hour, otherwise the whole hours,
/// with `½` when more than half of the next hour has passed.
pub open spec fn hours_text(h: HoursSplit) -> Seq<char> {
    if h.whole < 1 {
        "--"@
    } else if h.over_half {
        decimal_int(h.whole as int) + "½ Hours"@
    } else {
        decimal_int(h.whole as int) + " Hours"@
    }
}

/// The three lines that describe the durations of a game.
pub open spec fn descr_text(hours: EntryHours) -> Seq<char> {
    "Main Story: "@ + hours_text(hours.main) + "\nMain + Extra: "@ + hours_text(hours.plus)
        + "\nCompletionist: "@ + hours_text(hours.comp) + "\n"@
}

/// The link to a game's page on the HLTB site at `domain`.
pub open spec fn game_link(domain: Seq<char>, game_id: i64) -> Seq<char> {
    domain + "/game/"@ + decimal_int(game_id as int)
}

/// The link to a game's image on the HLTB site at `domain`.
pub open spec fn game_img(domain: Seq<char>, game_image: Seq<char>) -> Seq<char> {
    domain + "/games/"@ + game_image
}

/// `e` is the entry that `raw` (with its durations split into `hours`) maps to.
pub open spec fn maps_to(raw: RawEntry, hours: EntryHours, domain: Seq<char>, e: Entry) -> bool {
    &&& e.name@ == raw.game_name@
    &&& e.link@ == game_link(domain, raw.game_id)
    &&& e.img@ == game_img(domain, raw.game_image@)
    &&& e.descr@ == descr_text(hours)
    &&& e.hltb_id == raw.game_id
}

/// Formats one duration.
pub fn map_hours(h: HoursSplit) -> (s: String)
    ensures
        s@ == hours_text(h),
{
    if h.whole < 1 {
        String::from_str("--")
    } else {
        let mut s = String::new();
        push_decimal_i64(&mut s, h.whole);
        if h.over_half {
            s.append("½ Hours");
        } else {
            s.append(" Hours");
        }
        s
    }
}

/// Formats the three durations of a game.
pub fn map_descr(hours: &EntryHours) -> (s: String)
    ensures
        s@ == descr_text(*hours),
{
    let main = map_hours(hours.main);
    let plus = map_hours(hours.plus);
    let comp = map_hours(hours.comp);
    let mut s = String::from_str("Main Story: ");
    s.append(main.as_str());
    s.append("\nMain + Extra: ");
    s.append(plus.as_str());
    s.append("\nCompletionist: ");
    s.append(comp.as_str());
    s.append("\n");
    s
}

/// Maps a game of the search response to the entry that the bot shows.
pub fn map_entry(raw: &RawEntry, hours: &EntryHours, domain: &str) -> (e: Entry)
    ensures
        maps_to(*raw, *hours, domain@, e),
{
    let name = raw.game_name.clone();
    let mut link = String::from_str(domain);
    link.append("/game/");
    push_decimal_i64(&mut link, raw.game_id);
    let mut img = String::from_str(domain);
    img.append("/games/");
    img.append(raw.game_image.as_str());
    let descr = map_descr(hours);
    Entry::new(name, link, img, descr, raw.game_id)
}

/// Maps the first `limit` games of a search response (all of them when there
/// are fewer), keeping their order.
pub fn map_entries(raws: &Vec<RawEntry>, hours: &Vec<EntryHours>, limit: usize, domain: &str) -> (entries:
    Vec<Entry>)
    requires
        raws.len() == hours.len(),
    ensures
        entries.len() == if limit < raws.len() {
            limit as int
        } else {
            raws.len() as int
        },
        forall|i: int|
            0 <= i < entries.len() ==> maps_to(raws@[i], hours@[i], domain@, #[trigger] entries@[i]),
{
    let n = if limit < raws.len() {
        limit
    } else {
        raws.len()
    };
    let mut entries: Vec<Entry> = Vec::new();
    let mut i: usize = 0;
    while i < n
        invariant
            n <= raws.len() == hours.len(),
            i <= n,
            entries.len() == i,
            forall|j: int|
                0 <= j < i ==> maps_to(raws@[j], hours@[j], domain@, #[trigger] entries@[j]),
        decreases n - i,
    {
        let e = map_entry(&raws[i], &hours[i], domain);
        entries.push(e);
        i = i + 1;
    }
    entries
}

} // verus!
