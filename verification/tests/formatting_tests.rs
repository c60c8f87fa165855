use hltb_bot::formatting::{clean_md, escape_url, format_msg, get_placeholder};
use hltb_bot::mapping::{map_descr, map_entries, map_entry, map_hours};
use hltb_bot::model::{Entry, EntryHours, HoursSplit, RawEntry, RunMode};
use std::str::FromStr;

fn entry(name: &str, img: &str, descr: &str, id: i64) -> Entry {
    Entry::new(
        name.to_string(),
        format!("https://howlongtobeat.com/game/{}", id),
        img.to_string(),
        descr.to_string(),
        id,
    )
}

#[test]
fn format_msg_of_no_entries_is_not_found() {
    assert_eq!(format_msg(&vec![]), "not found");
}

#[test]
fn format_msg_of_one_entry() {
    let e = entry("Skyrim", "https://howlongtobeat.com/games/skyrim.jpg", "Main Story: 34 Hours\n", 10);
    let msg = format_msg(&vec![e]);
    assert_eq!(
        msg,
        "[ ](https://howlongtobeat.com/games/skyrim.jpg)*Skyrim* [🗗](https://howlongtobeat.com/game/10){steam:10}\nMain Story: 34 Hours\n\n"
    );
}

#[test]
fn format_msg_previews_first_entry_with_image() {
    let a = entry("A_b", "", "d1", 1);
    let b = entry("C*d", "http://img/(x).png", "d2", -2);
    let msg = format_msg(&vec![a, b]);
    assert_eq!(
        msg,
        "[ ](http://img/%28x%29.png)*A\\_b* [🗗](https://howlongtobeat.com/game/1){steam:1}\nd1\n*C\\*d* [🗗](https://howlongtobeat.com/game/-2){steam:-2}\nd2\n"
    );
}

#[test]
fn format_msg_without_any_image_has_no_preview() {
    let a = entry("X", "", "y", 7);
    assert_eq!(format_msg(&vec![a]), "*X* [🗗](https://howlongtobeat.com/game/7){steam:7}\ny\n");
}

#[test]
fn clean_md_escapes_markers() {
    assert_eq!(clean_md("a_b*c__d"), "a\\_b\\*c\\_\\_d");
    assert_eq!(clean_md("plain"), "plain");
    assert_eq!(clean_md(""), "");
}

#[test]
fn escape_url_encodes_brackets() {
    assert_eq!(escape_url("a(b)c)"), "a%28b%29c%29");
    assert_eq!(escape_url("no brackets"), "no brackets");
}

#[test]
fn placeholder_has_the_id() {
    assert_eq!(get_placeholder(14996), "{steam:14996}");
    assert_eq!(get_placeholder(0), "{steam:0}");
    assert_eq!(get_placeholder(i64::MIN), "{steam:-9223372036854775808}");
    assert_eq!(get_placeholder(i64::MAX), "{steam:9223372036854775807}");
}

#[test]
fn map_hours_formats() {
    assert_eq!(map_hours(HoursSplit { whole: 0, over_half: true }), "--");
    assert_eq!(map_hours(HoursSplit { whole: -3, over_half: false }), "--");
    assert_eq!(map_hours(HoursSplit { whole: 1, over_half: false }), "1 Hours");
    assert_eq!(map_hours(HoursSplit { whole: 12, over_half: true }), "12½ Hours");
}

fn hours(m: i64, p: i64, c: i64) -> EntryHours {
    EntryHours {
        main: HoursSplit { whole: m, over_half: false },
        plus: HoursSplit { whole: p, over_half: true },
        comp: HoursSplit { whole: c, over_half: false },
    }
}

#[test]
fn map_descr_has_three_lines() {
    assert_eq!(
        map_descr(&hours(34, 0, 230)),
        "Main Story: 34 Hours\nMain + Extra: --\nCompletionist: 230 Hours\n"
    );
}

fn raw(name: &str, id: i64) -> RawEntry {
    RawEntry {
        game_image: format!("{}.jpg", name),
        game_name: name.to_string(),
        comp_plus: 0,
        comp_main: 0,
        comp_100: 0,
        game_id: id,
        profile_steam: 0,
    }
}

#[test]
fn map_entry_builds_links() {
    let e = map_entry(&raw("Skyrim", 10), &hours(34, 2, 230), "https://howlongtobeat.com");
    assert_eq!(e.name, "Skyrim");
    assert_eq!(e.link, "https://howlongtobeat.com/game/10");
    assert_eq!(e.img, "https://howlongtobeat.com/games/Skyrim.jpg");
    assert_eq!(e.descr, "Main Story: 34 Hours\nMain + Extra: 2½ Hours\nCompletionist: 230 Hours\n");
    assert_eq!(e.hltb_id, 10);
}

#[test]
fn map_entries_takes_the_limit() {
    let raws = vec![raw("a", 1), raw("b", 2), raw("c", 3)];
    let hs = vec![hours(1, 1, 1), hours(2, 2, 2), hours(3, 3, 3)];
    let es = map_entries(&raws, &hs, 2, "https://example.com");
    assert_eq!(es.len(), 2);
    assert_eq!(es[0].name, "a");
    assert_eq!(es[1].link, "https://example.com/game/2");
    assert_eq!(map_entries(&raws, &hs, 5, "d").len(), 3);
    assert_eq!(map_entries(&raws, &hs, 0, "d").len(), 0);
}

#[test]
fn run_mode_parses_ignoring_case() {
    assert_eq!(RunMode::parse("polling").unwrap(), RunMode::Polling);
    assert_eq!(RunMode::parse("WebHook").unwrap(), RunMode::WebHook);
    assert_eq!(RunMode::parse("CLI").unwrap(), RunMode::Cli);
    assert_eq!(RunMode::from_str("POLLING").unwrap(), RunMode::Polling);
}

#[test]
fn run_mode_rejects_unknown() {
    let err = RunMode::parse("lambda").unwrap_err();
    assert_eq!(err.message(), "Unknown RunMode lambda");
    assert!(RunMode::parse("").is_err());
}
