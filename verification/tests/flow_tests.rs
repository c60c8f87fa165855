use hltb_bot::auth::{map_auth_key, AuthError, AuthHeaders};
use hltb_bot::hltb::{
    collect_steam_urls, extract_steam_url, game_page_url, is_stale_auth_error, referer_url,
    search_terms, steam_link_closed,
};
use hltb_bot::cli::cli_query;
use hltb_bot::hltb::{search_step, SearchStep};
use hltb_bot::lambda::{should_use_aws_runtime, extract_query, query_result_page, route_request, LambdaAction, LambdaRequest};
use hltb_bot::model::Entry;
use hltb_bot::request::search_body;
use hltb_bot::retrieval::RetrievalFlow;
use std::collections::HashMap;

fn rq(t: Option<&str>, url: Option<&str>, query: Option<&str>, q: Option<&str>) -> LambdaRequest {
    LambdaRequest {
        rq_type: t.map(|s| s.to_string()),
        url: url.map(|s| s.to_string()),
        query: query.map(|s| s.to_string()),
        query_string_q: q.map(|s| s.to_string()),
    }
}

#[test]
fn extracts_query_from_api_gateway_querystring_parameters() {
    let value = rq(Some("query"), None, None, Some("skyrim"));
    assert_eq!(extract_query(&value), Some("skyrim"));
}

#[test]
fn extract_query_prefers_query_field() {
    let value = rq(Some("query"), None, Some("zelda"), Some("skyrim"));
    assert_eq!(extract_query(&value), Some("zelda"));
    assert_eq!(extract_query(&rq(None, None, None, None)), None);
}

#[test]
fn route_request_each_kind() {
    match route_request(&rq(Some("register_webhook"), Some("https://x"), None, None)) {
        LambdaAction::RegisterWebhook(u) => assert_eq!(u, "https://x"),
        other => panic!("{:?}", other),
    }
    match route_request(&rq(Some("register_webhook"), None, None, None)) {
        LambdaAction::Reply(m) => assert_eq!(m, "'url' property is missing"),
        other => panic!("{:?}", other),
    }
    assert!(matches!(route_request(&rq(Some("remove_webhook"), None, None, None)), LambdaAction::RemoveWebhook));
    match route_request(&rq(Some("query"), None, None, Some("skyrim"))) {
        LambdaAction::Query(q) => assert_eq!(q, "skyrim"),
        other => panic!("{:?}", other),
    }
    match route_request(&rq(Some("query"), None, None, None)) {
        LambdaAction::Reply(m) => assert_eq!(m, "'query' property is missing"),
        other => panic!("{:?}", other),
    }
    match route_request(&rq(Some("ping"), None, None, None)) {
        LambdaAction::Reply(m) => assert_eq!(m, "Unknown message type: ping"),
        other => panic!("{:?}", other),
    }
    assert!(matches!(route_request(&rq(None, None, None, None)), LambdaAction::TelegramUpdate));
}

#[test]
fn query_result_page_exact() {
    let page = query_result_page("a", "b", 12, 345);
    assert_eq!(
        page,
        "\n<html>\n<head>\n<title>HLTB Query Result</title>\n</head>\n<body>\n<h1>Initial Message</h1>\n<pre>a</pre>\n<br/>\n<h1>Final Message</h1>\n<pre>b</pre>\n\n<hr>\n<p><small>initial: 12ms; total: 345ms</small></p>\n</html>\n"
    );
    assert!(query_result_page("", "", 0, u128::MAX).contains("total: 340282366920938463463374607431768211455ms"));
}

#[test]
fn extract_steam_url_from_page() {
    let page = r#"<a href="https://store.steampowered.com/app/489830/" target="_blank">Steam</a> "https://store.steampowered.com/app/1/""#;
    assert!(steam_link_closed(page));
    assert_eq!(
        extract_steam_url(page),
        Some("https://store.steampowered.com/app/489830/".to_string())
    );
    assert_eq!(extract_steam_url("<html>no link</html>"), None);
    assert!(steam_link_closed("<html>no link</html>"));
}

#[test]
fn unclosed_steam_link_is_detected() {
    assert!(!steam_link_closed("x https://store.steampowered.com/app/12 end"));
}

#[test]
fn stale_auth_error_detection() {
    assert!(is_stale_auth_error("HTTP status 404 Not Found"));
    assert!(!is_stale_auth_error("HTTP status 500"));
    assert!(!is_stale_auth_error(""));
}

#[test]
fn urls_and_terms() {
    assert_eq!(game_page_url("https://howlongtobeat.com", 14996), "https://howlongtobeat.com/game/14996");
    assert_eq!(referer_url("https://howlongtobeat.com", "elden ring"), "https://howlongtobeat.com/?q=elden ring");
    assert_eq!(search_terms("  elden\tring \u{3000}shadow "), vec!["elden", "ring", "shadow"]);
    assert_eq!(search_terms(""), Vec::<String>::new());
    assert_eq!(search_terms("one"), vec!["one"]);
}

#[test]
fn collect_steam_urls_keeps_by_id_and_stops_at_first_error() {
    let ok: Vec<(i64, Result<Option<String>, String>)> =
        vec![(1, Ok(Some("u1".to_string()))), (2, Ok(None)), (1, Ok(Some("u3".to_string())))];
    let m = collect_steam_urls(ok).unwrap();
    assert_eq!(m.len(), 2);
    assert_eq!(m.get(&1), Some(&Some("u3".to_string())));
    assert_eq!(m.get(&2), Some(&None));
    let bad: Vec<(i64, Result<Option<String>, String>)> =
        vec![(1, Ok(None)), (2, Err("first".to_string())), (3, Err("second".to_string()))];
    assert_eq!(collect_steam_urls(bad).unwrap_err(), "first");
}

fn entry(name: &str, id: i64) -> Entry {
    Entry::new(name.to_string(), format!("https://h/game/{}", id), String::new(), "d".to_string(), id)
}

#[test]
fn retrieval_flow_fills_in_steam_links() {
    let mut client = 0u8;
    let mut flow = RetrievalFlow::new(&mut client, "skyrim");
    assert_eq!(flow.query, "skyrim");
    let initial = flow.set_entries(vec![entry("A", 1), entry("B", 12)]);
    assert_eq!(initial, "*A* [🗗](https://h/game/1){steam:1}\nd\n*B* [🗗](https://h/game/12){steam:12}\nd\n");
    assert_eq!(flow.initial_msg, initial);
    let mut urls = HashMap::new();
    urls.insert(12, Some("https://store.steampowered.com/app/9/".to_string()));
    urls.insert(1, None);
    assert_eq!(
        flow.final_msg(&urls),
        "*A* [🗗](https://h/game/1)\nd\n*B* [🗗](https://h/game/12) [🔗Steam](https://store.steampowered.com/app/9/)\nd\n"
    );
    assert_eq!(
        flow.final_msg(&HashMap::new()),
        "*A* [🗗](https://h/game/1)\nd\n*B* [🗗](https://h/game/12)\nd\n"
    );
}

#[test]
fn final_message_with_braces_in_texts() {
    let mut flow = RetrievalFlow::new((), "q");
    flow.set_entries(vec![entry("{steam:", 1), entry("{x} {steam:12", 12)]);
    let mut urls = HashMap::new();
    urls.insert(1, Some("u{1}".to_string()));
    urls.insert(12, Some("v".to_string()));
    assert_eq!(
        flow.final_msg(&urls),
        "*{steam:* [🗗](https://h/game/1) [🔗Steam](u{1})\nd\n*{x} {steam:12* [🗗](https://h/game/12) [🔗Steam](v)\nd\n"
    );
}

#[test]
fn retrieval_flow_without_entries() {
    let mut flow = RetrievalFlow::new((), "nothing");
    assert_eq!(flow.set_entries(vec![]), "not found");
    assert_eq!(flow.final_msg(&HashMap::new()), "not found");
}

#[test]
fn auth_key_mapping() {
    assert_eq!(map_auth_key("token"), "x-auth-token");
    assert_eq!(map_auth_key("hpKey"), "x-hp-key");
    assert_eq!(map_auth_key("hpVal"), "x-hp-val");
    assert_eq!(map_auth_key("Other"), "x-Other");
}

fn fields(v: &[(&str, Option<&str>)]) -> Vec<(String, Option<String>)> {
    v.iter().map(|(k, x)| (k.to_string(), x.map(|s| s.to_string()))).collect()
}

#[test]
fn auth_headers_apply_init_response() {
    let mut h = AuthHeaders::new();
    assert!(!h.has_required_auth_headers());
    assert_eq!(h.hp_payload_field(), None);
    let r = h.apply_init_response(&fields(&[
        ("hpKey", Some("key1")),
        ("hpVal", Some("val1")),
        ("number", None),
        ("token", Some("tok")),
    ]));
    assert_eq!(r, Ok(()));
    assert!(h.has_required_auth_headers());
    assert_eq!(h.hp_payload_field(), Some(("key1".to_string(), "val1".to_string())));
    assert_eq!(h.header_map().get("x-auth-token").unwrap(), "tok");
}

#[test]
fn auth_headers_missing_required() {
    let mut h = AuthHeaders::new();
    let r = h.apply_init_response(&fields(&[("token", Some("tok"))]));
    assert_eq!(r, Err(AuthError::MissingAuthHeaders));
    assert!(h.header_map().contains_key("x-auth-token"));
}

#[test]
fn auth_headers_upsert_normalises_and_validates() {
    let mut h = AuthHeaders::new();
    assert_eq!(h.upsert_auth_header("X-HP-Key", "abc"), Ok(()));
    assert_eq!(h.header_map().get("x-hp-key").unwrap(), "abc");
    assert_eq!(h.upsert_auth_header("bad name", "abc"), Err(AuthError::InvalidHeaderName));
    assert_eq!(h.upsert_auth_header("", "abc"), Err(AuthError::InvalidHeaderName));
    // an invalid value removes the header before failing
    assert_eq!(h.upsert_auth_header("x-hp-key", "a\u{1}b"), Err(AuthError::InvalidHeaderValue));
    assert!(!h.header_map().contains_key("x-hp-key"));
}

#[test]
fn hp_payload_needs_visible_ascii() {
    let mut h = AuthHeaders::new();
    assert_eq!(h.upsert_auth_header("x-hp-key", "k"), Ok(()));
    assert_eq!(h.upsert_auth_header("x-hp-val", "wert\u{e9}"), Ok(()));
    assert_eq!(h.hp_payload_field(), None);
    assert_eq!(h.upsert_auth_header("x-hp-val", "v\tw"), Ok(()));
    assert_eq!(h.hp_payload_field(), Some(("k".to_string(), "v\tw".to_string())));
}

#[test]
fn invalid_init_field_stops_application() {
    let mut h = AuthHeaders::new();
    let r = h.apply_init_response(&fields(&[("hpKey", Some("k")), ("a b", Some("x")), ("token", Some("t"))]));
    assert_eq!(r, Err(AuthError::InvalidHeaderName));
    assert!(h.header_map().contains_key("x-hp-key"));
    assert!(!h.header_map().contains_key("x-auth-token"));
}

#[test]
fn search_body_is_the_search_request() {
    let terms = vec!["elden".to_string(), "ring \"x\"\n".to_string()];
    let body = search_body(&terms, &None);
    let v: serde_json::Value = serde_json::from_str(&body).unwrap();
    assert_eq!(v["searchType"], "games");
    assert_eq!(v["searchTerms"][0], "elden");
    assert_eq!(v["searchTerms"][1], "ring \"x\"\n");
    assert_eq!(v["searchPage"], 1);
    assert_eq!(v["size"], 20);
    assert_eq!(v["searchOptions"]["games"]["sortCategory"], "popular");
    assert!(v["searchOptions"]["games"]["rangeTime"]["min"].is_null());
    assert_eq!(v["searchOptions"]["lists"]["sortCategory"], "follows");
    assert_eq!(v["useCache"], true);
    assert_eq!(v.as_object().unwrap().len(), 6);
    assert!(body.starts_with("{\"searchOptions\":{\"filter\":\"\",\"games\":{\"gameplay\":"));
    assert!(body.ends_with(",\"searchPage\":1,\"searchTerms\":[\"elden\",\"ring \\\"x\\\"\\n\"],\"searchType\":\"games\",\"size\":20,\"useCache\":true}"));
    assert_eq!(body, serde_json::to_string(&v).unwrap());
}

fn reference_body(terms: &[&str]) -> serde_json::Value {
    let text = "{\"searchType\":\"games\",\"searchTerms\":[],\"searchPage\":1,\"size\":20,\"searchOptions\":{\"games\":{\"userId\":0,\"platform\":\"\",\"sortCategory\":\"popular\",\"rangeCategory\":\"main\",\"rangeTime\":{\"min\":null,\"max\":null},\"gameplay\":{\"perspective\":\"\",\"flow\":\"\",\"genre\":\"\",\"difficulty\":\"\"},\"rangeYear\":{\"min\":\"\",\"max\":\"\"},\"modifier\":\"\"},\"users\":{\"sortCategory\":\"postcount\"},\"lists\":{\"sortCategory\":\"follows\"},\"filter\":\"\",\"sort\":0,\"randomizer\":0},\"useCache\":true}";
    let mut v: serde_json::Value = serde_json::from_str(text).unwrap();
    let list = terms.iter().map(|t| serde_json::Value::String(t.to_string())).collect();
    v.as_object_mut().unwrap().insert("searchTerms".to_string(), serde_json::Value::Array(list));
    v
}

#[test]
fn search_body_matches_serde_json_bytes() {
    let terms = vec!["elden".to_string(), "ring".to_string()];
    let expected = serde_json::to_string(&reference_body(&["elden", "ring"])).unwrap();
    assert_eq!(search_body(&terms, &None), expected);
    for (k, val) in [("hpk", "v\u{1}"), ("aaa", "x"), ("searchPz", "y"), ("zz", "z"), ("size", "big")] {
        let mut v = reference_body(&["elden", "ring"]);
        v.as_object_mut().unwrap().insert(k.to_string(), serde_json::Value::String(val.to_string()));
        let hp = Some((k.to_string(), val.to_string()));
        assert_eq!(search_body(&terms, &hp), serde_json::to_string(&v).unwrap());
    }
}

#[test]
fn search_body_carries_honeypot() {
    let body = search_body(&vec![], &Some(("hpk".to_string(), "v\u{1}".to_string())));
    assert!(body.starts_with("{\"hpk\":\"v\\u0001\",\"searchOptions\":"));
    let v: serde_json::Value = serde_json::from_str(&body).unwrap();
    assert_eq!(v["hpk"], "v\u{1}");
    assert_eq!(v["searchTerms"].as_array().unwrap().len(), 0);
    let body = search_body(&vec![], &Some(("size".to_string(), "big".to_string())));
    let v: serde_json::Value = serde_json::from_str(&body).unwrap();
    assert_eq!(v["size"], "big");
    assert_eq!(v.as_object().unwrap().len(), 6);
    assert!(body.ends_with(",\"searchType\":\"games\",\"size\":\"big\",\"useCache\":true}"));
}

#[test]
fn upsert_replaces_every_value() {
    let mut h = AuthHeaders::new();
    assert_eq!(h.upsert_auth_header("x-a", "1"), Ok(()));
    assert_eq!(h.upsert_auth_header("x-b", "9"), Ok(()));
    assert_eq!(h.upsert_auth_header("X-A", "2"), Ok(()));
    let values: Vec<_> = h.header_map().get_all("x-a").iter().collect();
    assert_eq!(values, vec!["2"]);
    assert_eq!(h.header_map().get("x-b").unwrap(), "9");
    assert_eq!(h.upsert_auth_header("bad name", "3"), Err(AuthError::InvalidHeaderName));
    assert_eq!(h.names_len(), 2);
}

#[test]
fn init_response_leaves_one_value_per_header() {
    let mut h = AuthHeaders::new();
    assert_eq!(h.upsert_auth_header("x-auth-token", "old"), Ok(()));
    assert_eq!(h.upsert_auth_header("x-other", "kept"), Ok(()));
    let r = h.apply_init_response(&fields(&[
        ("auth-token", Some("first")),
        ("hpKey", Some("k")),
        ("hpVal", Some("v")),
        ("n", None),
        ("token", Some("last")),
    ]));
    assert_eq!(r, Ok(()));
    let token: Vec<_> = h.header_map().get_all("x-auth-token").iter().collect();
    assert_eq!(token, vec!["last"]);
    let key: Vec<_> = h.header_map().get_all("x-hp-key").iter().collect();
    assert_eq!(key, vec!["k"]);
    assert_eq!(h.header_map().get("x-other").unwrap(), "kept");
    assert!(!h.header_map().contains_key("x-n"));
    assert_eq!(h.names_len(), 4);
}

#[test]
fn auth_headers_count_names() {
    let mut h = AuthHeaders::new();
    assert_eq!(h.names_len(), 0);
    assert_eq!(h.upsert_auth_header("x-a", "1"), Ok(()));
    assert_eq!(h.upsert_auth_header("X-A", "2"), Ok(()));
    assert_eq!(h.upsert_auth_header("x-b", "3"), Ok(()));
    assert_eq!(h.names_len(), 2);
    assert_eq!(h.header_map().get("x-a").unwrap(), "2");
}

#[test]
fn json_strings_escape_control_characters() {
    let mut out = String::new();
    hltb_bot::request::push_json_string(&mut out, "a\"b\\c\u{8}\u{c}\n\r\t\u{1f}é/");
    assert_eq!(out, "\"a\\\"b\\\\c\\b\\f\\n\\r\\t\\u001fé/\"");
    let back: String = serde_json::from_str(&out).unwrap();
    assert_eq!(back, "a\"b\\c\u{8}\u{c}\n\r\t\u{1f}é/");
}

#[test]
fn polling_offset_moves_past_last_update() {
    assert_eq!(hltb_bot::telegram::next_update_offset(7, &vec![]), 7);
    assert_eq!(hltb_bot::telegram::next_update_offset(0, &vec![3, 9]), 10);
}

#[test]
fn local_runtime_detection_uses_direct_invocation_without_aws_runtime() {
    assert!(!should_use_aws_runtime(&None, &None));
    assert!(should_use_aws_runtime(&Some("127.0.0.1:9001".to_string()), &None));
    assert!(should_use_aws_runtime(&None, &Some("AWS_Lambda_provided.al2".to_string())));
}

#[test]
fn cli_query_trims_and_stops_on_blank_lines() {
    assert_eq!(cli_query("  elden ring \n"), Some("elden ring".to_string()));
    assert_eq!(cli_query("skyrim"), Some("skyrim".to_string()));
    assert_eq!(cli_query("\u{3000}x\u{a0}"), Some("x".to_string()));
    assert_eq!(cli_query("\n"), None);
    assert_eq!(cli_query(""), None);
    assert_eq!(cli_query(" \t\r\n"), None);
}

#[test]
fn search_step_retries_stale_token_once() {
    let stale = Some("HTTP status 404 Not Found".to_string());
    let other = Some("HTTP status 500".to_string());
    assert_eq!(search_step(true, &None), SearchStep::ParseResponse);
    assert_eq!(search_step(false, &None), SearchStep::ParseResponse);
    assert_eq!(search_step(true, &stale), SearchStep::ReauthenticateAndRetry);
    assert_eq!(search_step(false, &stale), SearchStep::Fail);
    assert_eq!(search_step(true, &other), SearchStep::Fail);
}

#[test]
fn polling_offsets_follow_last_received_update() {
    let answers: Vec<Option<Vec<u32>>> = vec![None, Some(vec![]), Some(vec![3, 9]), None, Some(vec![11]), Some(vec![])];
    let mut offset: u32 = 0;
    let mut expected = vec![0u32];
    let mut offsets = vec![offset];
    for answer in &answers {
        if let Some(ids) = answer {
            offset = hltb_bot::telegram::next_update_offset(offset, ids);
        }
        offsets.push(offset);
    }
    expected.extend([0, 0, 10, 10, 12, 12]);
    assert_eq!(offsets, expected);
}

#[test]
fn ensuring_auth_again_changes_nothing() {
    let mut h = AuthHeaders::new();
    let r = h.apply_init_response(&fields(&[("hpKey", Some("k")), ("hpVal", Some("v")), ("token", Some("t"))]));
    assert_eq!(r, Ok(()));
    assert!(h.has_required_auth_headers());
    let before = h.header_map().clone();
    assert!(h.has_required_auth_headers());
    assert_eq!(h.header_map(), &before);
}
