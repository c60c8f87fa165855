use vstd::prelude::*;

use std::collections::HashMap;

use crate::mapping::game_link;
use crate::text::{
    chars_of, contains_seq, contains_str, decimal_int, find_from, first_occurrence_from, occurs_at,
    push_char, push_chars, push_decimal_i64,
};

verus! {

broadcast use {vstd::string::group_string_axioms, vstd::std_specs::hash::group_hash_axioms};

/// Where the link to a game's Steam page starts on its HLTB page.
pub open spec fn steam_prefix() -> Seq<char> {
    "https://store.steampowered.com/app"@
}

/// The Steam link on a game's HLTB page: from the first occurrence of the
/// Steam store prefix up to the next double quote.
pub open spec fn steam_url_at(page: Seq<char>, start: int, end: int) -> bool {
    &&& first_occurrence_from(page, steam_prefix(), 0, start)
    &&& start <= end < page.len()
    &&& page[end] == '"'
    &&& forall|j: int| start <= j < end ==> page[j] != '"'
}

/// The page has no Steam link, or its first one is closed by a double quote.
pub open spec fn steam_link_is_closed(page: Seq<char>) -> bool {
    forall|start: int|
        #![trigger first_occurrence_from(page, steam_prefix(), 0, start)]
        first_occurrence_from(page, steam_prefix(), 0, start) ==> exists|end: int|
            start <= end < page.len() && page[end] == '"'
}

/// Finds the first double quote at or after `from`.
fn find_quote(v: &Vec<char>, from: usize) -> (r: Option<usize>)
    requires
        from <= v.len(),
    ensures
        r matches Some(k) ==> from <= k < v.len() && v@[k as int] == '"' && forall|j: int|
            from <= j < k ==> v@[j] != '"',
        r is None ==> forall|j: int| from <= j < v.len() ==> v@[j] != '"',
{
    let mut i = from;
    while i < v.len()
        invariant
            from <= i <= v.len(),
            forall|j: int| from <= j < i ==> v@[j] != '"',
        decreases v.len() - i,
    {
        if v[i] == '"' {
            return Some(i);
        }
        i = i + 1;
    }
    None
}

/// Whether a game page can be searched for its Steam link: the link must be
/// closed by a double quote. The bot gives up (panics) on a page where it is
/// not, so this is tested before `extract_steam_url` is called.
pub fn steam_link_closed(page: &str) -> (b: bool)
    ensures
        b == steam_link_is_closed(page@),
{
    let v = chars_of(page);
    let prefix = chars_of("https://store.steampowered.com/app");
    match find_from(&v, &prefix, 0) {
        None => {
            assert forall|start: int|
                #![trigger first_occurrence_from(page@, steam_prefix(), 0, start)]
                first_occurrence_from(page@, steam_prefix(), 0, start) implies exists|end: int|
                start <= end < page@.len() && page@[end] == '"' by {
                assert(occurs_at(v@, prefix@, start));
            }
            true
        },
        Some(start) => {
            match find_quote(&v, start) {
                Some(end) => {
                    assert forall|s2: int|
                        #![trigger first_occurrence_from(page@, steam_prefix(), 0, s2)]
                        first_occurrence_from(page@, steam_prefix(), 0, s2) implies exists|
                        e2: int,
                    | s2 <= e2 < page@.len() && page@[e2] == '"' by {
                        assert(s2 == start);
                        assert(page@[end as int] == '"');
                    }
                    true
                },
                None => {
                    assert(first_occurrence_from(page@, steam_prefix(), 0, start as int));
                    false
                },
            }
        },
    }
}

/// The Steam link on a game's HLTB page, if there is one.
pub fn extract_steam_url(page: &str) -> (r: Option<String>)
    requires
        steam_link_is_closed(page@),
    ensures
        r is None <==> !contains_seq(page@, steam_prefix()),
        r matches Some(u) ==> exists|start: int, end: int|
            steam_url_at(page@, start, end) && u@ == page@.subrange(start, end),
{
    let v = chars_of(page);
    let prefix = chars_of("https://store.steampowered.com/app");
    match find_from(&v, &prefix, 0) {
        None => {
            assert(!contains_seq(page@, steam_prefix())) by {
                if contains_seq(page@, steam_prefix()) {
                    let j = choose|j: int| occurs_at(page@, steam_prefix(), j);
                    assert(j >= 0);
                }
            }
            None
        },
        Some(start) => {
            assert(first_occurrence_from(page@, steam_prefix(), 0, start as int));
            match find_quote(&v, start) {
                Some(end) => {
                    let mut u = String::new();
                    push_chars(&mut u, &v, start, end);
                    assert(steam_url_at(page@, start as int, end as int));
                    Some(u)
                },
                None => {
                    assert(false);
                    None
                },
            }
        },
    }
}

/// The error text by which HLTB rejects a stale or invalid auth token.
pub open spec fn is_stale_auth_error_spec(message: Seq<char>) -> bool {
    contains_seq(message, "status 404"@)
}

/// Whether a failed search should be retried after a fresh authentication:
/// HLTB answers a stale token with a 404 page.
pub fn is_stale_auth_error(message: &str) -> (b: bool)
    ensures
        b == is_stale_auth_error_spec(message@),
{
    contains_str(message, "status 404")
}

/// What a search does after one attempt of its query.
#[derive(Debug, Clone, Copy, PartialEq, Eq, Structural)]
pub enum SearchStep {
    /// The query was answered: its response is parsed into entries.
    ParseResponse,
    /// The token was stale: authenticate afresh and query once more.
    ReauthenticateAndRetry,
    /// The search fails with the error of this attempt.
    Fail,
}

/// The step after an attempt of a search's query; `error` is the text of its
/// error, `None` when it was answered. Only the first attempt is retried, and
/// only when HLTB rejected a stale token.
pub fn search_step(first_attempt: bool, error: &Option<String>) -> (step: SearchStep)
    ensures
        error is None ==> step == SearchStep::ParseResponse,
        error matches Some(m) ==> step == (if first_attempt && is_stale_auth_error_spec(m@) {
            SearchStep::ReauthenticateAndRetry
        } else {
            SearchStep::Fail
        }),
{
    match error {
        None => SearchStep::ParseResponse,
        Some(m) => if first_attempt && is_stale_auth_error(m.as_str()) {
            SearchStep::ReauthenticateAndRetry
        } else {
            SearchStep::Fail
        },
    }
}

/// The URL of a game's page on the HLTB site at `domain`.
pub fn game_page_url(domain: &str, hltb_id: i64) -> (u: String)
    ensures
        u@ == game_link(domain@, hltb_id),
{
    let mut u = String::from_str(domain);
    u.append("/game/");
    push_decimal_i64(&mut u, hltb_id);
    u
}

/// The referer that a search for `query` is sent with.
pub fn referer_url(domain: &str, query: &str) -> (u: String)
    ensures
        u@ == domain@ + "/?q="@ + query@,
{
    let mut u = String::from_str(domain);
    u.append("/?q=");
    u.append(query);
    u
}

/// Unicode white space, as `char::is_whitespace` decides it.
pub open spec fn is_whitespace(c: char) -> bool {
    ||| '\u{9}' <= c <= '\u{d}'
    ||| c == ' '
    ||| c == '\u{85}'
    ||| c == '\u{a0}'
    ||| c == '\u{1680}'
    ||| '\u{2000}' <= c <= '\u{200a}'
    ||| c == '\u{2028}'
    ||| c == '\u{2029}'
    ||| c == '\u{202f}'
    ||| c == '\u{205f}'
    ||| c == '\u{3000}'
}

/// The words of `s`: its maximal runs of characters that are not white
/// space, in order (`str::split_whitespace`).
pub open spec fn words(s: Seq<char>) -> Seq<Seq<char>>
    decreases s.len(),
{
    if s.len() == 0 {
        Seq::empty()
    } else if is_whitespace(s.last()) {
        words(s.drop_last())
    } else if s.len() == 1 || is_whitespace(s[s.len() - 2]) {
        words(s.drop_last()).push(seq![s.last()])
    } else {
        let w = words(s.drop_last());
        w.update(w.len() - 1, w.last().push(s.last()))
    }
}

proof fn lemma_words_nonempty_when_word_ends(s: Seq<char>)
    requires
        s.len() > 0,
        !is_whitespace(s.last()),
    ensures
        words(s).len() > 0,
    decreases s.len(),
{
    if s.len() > 1 && !is_whitespace(s[s.len() - 2]) {
        assert(s.drop_last().last() == s[s.len() - 2]);
        lemma_words_nonempty_when_word_ends(s.drop_last());
    }
}

/// A run of characters without white space is one word: itself.
pub proof fn law_words_of_a_word(s: Seq<char>)
    requires
        s.len() > 0,
        forall|i: int| 0 <= i < s.len() ==> !is_whitespace(#[trigger] s[i]),
    ensures
        words(s) == seq![s],
    decreases s.len(),
{
    assert(!is_whitespace(s[s.len() - 1]));
    if s.len() == 1 {
        assert(words(s.drop_last()) =~= Seq::<Seq<char>>::empty());
        assert(seq![s.last()] =~= s);
        assert(Seq::<Seq<char>>::empty().push(seq![s.last()]) =~= seq![s]);
    } else {
        let d = s.drop_last();
        assert forall|i: int| 0 <= i < d.len() implies !is_whitespace(#[trigger] d[i]) by {
            assert(d[i] == s[i]);
        }
        law_words_of_a_word(d);
        assert(!is_whitespace(s[s.len() - 2]));
        assert(d.push(s.last()) =~= s);
        let w = seq![d];
        assert(w.update(0, w.last().push(s.last())) =~= seq![s]);
    }
}

/// Text made only of white space has no words.
pub proof fn law_words_of_blank(s: Seq<char>)
    requires
        forall|i: int| 0 <= i < s.len() ==> is_whitespace(#[trigger] s[i]),
    ensures
        words(s).len() == 0,
    decreases s.len(),
{
    if s.len() > 0 {
        let d = s.drop_last();
        assert forall|i: int| 0 <= i < d.len() implies is_whitespace(#[trigger] d[i]) by {
            assert(d[i] == s[i]);
        }
        assert(is_whitespace(s[s.len() - 1]));
        law_words_of_blank(d);
    }
}

/// White space separates words: the words of two texts joined by a white
/// space character are the words of the first followed by those of the
/// second; nothing is lost, merged or dropped at the join.
pub proof fn law_words_split_at_space(s: Seq<char>, c: char, t: Seq<char>)
    requires
        is_whitespace(c),
    ensures
        words(s + seq![c] + t) == words(s) + words(t),
    decreases t.len(),
{
    let x = s + seq![c] + t;
    if t.len() == 0 {
        assert(x.drop_last() =~= s);
        assert(words(t) =~= Seq::<Seq<char>>::empty());
        assert(words(s) + words(t) =~= words(s));
    } else {
        let td = t.drop_last();
        law_words_split_at_space(s, c, td);
        assert(x.drop_last() =~= s + seq![c] + td);
        assert(x.last() == t.last());
        let ws = words(s);
        let wt = words(td);
        if is_whitespace(t.last()) {
        } else if t.len() == 1 || is_whitespace(t[t.len() - 2]) {
            assert(x[x.len() - 2] == if t.len() == 1 {
                c
            } else {
                t[t.len() - 2]
            });
            assert((ws + wt).push(seq![t.last()]) =~= ws + wt.push(seq![t.last()]));
        } else {
            assert(x[x.len() - 2] == t[t.len() - 2]);
            assert(td.last() == t[t.len() - 2]);
            lemma_words_nonempty_when_word_ends(td);
            let w = ws + wt;
            assert(w.update(w.len() - 1, w.last().push(t.last())) =~= ws + wt.update(
                wt.len() - 1,
                wt.last().push(t.last()),
            ));
        }
    }
}

/// The search terms of a query are non-empty and hold no white space.
pub proof fn law_words_are_nonblank(s: Seq<char>)
    ensures
        forall|i: int| 0 <= i < words(s).len() ==> (#[trigger] words(s)[i]).len() > 0,
        forall|i: int, k: int|
            0 <= i < words(s).len() && 0 <= k < words(s)[i].len() ==> !is_whitespace(
                #[trigger] words(s)[i][k],
            ),
    decreases s.len(),
{
    if s.len() > 0 {
        law_words_are_nonblank(s.drop_last());
        let w = words(s.drop_last());
        if !is_whitespace(s.last()) && !(s.len() == 1 || is_whitespace(s[s.len() - 2])) {
            assert(s.drop_last().last() == s[s.len() - 2]);
            lemma_words_nonempty_when_word_ends(s.drop_last());
            let nw = w.update(w.len() - 1, w.last().push(s.last()));
            assert(words(s) == nw);
            assert forall|i: int, k: int|
                0 <= i < nw.len() && 0 <= k < nw[i].len() implies !is_whitespace(#[trigger] nw[i][k]) by {
                if i == w.len() - 1 {
                    if k < w.last().len() {
                        assert(nw[i][k] == w[i][k]);
                    }
                } else {
                    assert(nw[i] == w[i]);
                }
            }
        }
    }
}

pub(crate) fn is_whitespace_exec(c: char) -> (b: bool)
    ensures
        b == is_whitespace(c),
{
    ('\u{9}' <= c && c <= '\u{d}') || c == ' ' || c == '\u{85}' || c == '\u{a0}' || c == '\u{1680}'
        || ('\u{2000}' <= c && c <= '\u{200a}') || c == '\u{2028}' || c == '\u{2029}' || c
        == '\u{202f}' || c == '\u{205f}' || c == '\u{3000}'
}

/// The search terms of a query: its words.
pub fn search_terms(query: &str) -> (terms: Vec<String>)
    ensures
        terms.len() == words(query@).len(),
        forall|i: int| 0 <= i < terms.len() ==> #[trigger] terms@[i]@ == words(query@)[i],
{
    let v = chars_of(query);
    let mut terms: Vec<String> = Vec::new();
    let mut cur = String::new();
    let mut in_word = false;
    let mut i: usize = 0;
    while i < v.len()
        invariant
            v@ == query@,
            i <= v.len(),
            in_word <==> (i > 0 && !is_whitespace(v@[i - 1])),
            !in_word ==> cur@.len() == 0,
            ({
                let w = words(v@.take(i as int));
                if in_word {
                    &&& w.len() == terms.len() + 1
                    &&& w.last() == cur@
                    &&& forall|k: int| 0 <= k < terms.len() ==> #[trigger] terms@[k]@ == w[k]
                } else {
                    &&& w.len() == terms.len()
                    &&& forall|k: int| 0 <= k < terms.len() ==> #[trigger] terms@[k]@ == w[k]
                }
            }),
        decreases v.len() - i,
    {
        let c = v[i];
        let ghost prev = v@.take(i as int);
        proof {
            assert(v@.take(i + 1).drop_last() =~= prev);
            assert(v@.take(i + 1).last() == c);
            if i > 0 {
                assert(v@.take(i + 1)[i - 1] == v@[i - 1]);
            }
        }
        if is_whitespace_exec(c) {
            if in_word {
                let mut done = String::new();
                std::mem::swap(&mut done, &mut cur);
                terms.push(done);
                in_word = false;
            }
        } else {
            push_char(&mut cur, c);
            if !in_word {
                proof {
                    assert(cur@ =~= seq![c]);
                }
            }
            in_word = true;
        }
        i = i + 1;
    }
    if in_word {
        terms.push(cur);
    }
    assert(v@.take(i as int) =~= query@);
    terms
}

/// The Steam links by HLTB id, as the lookups for the entries returned
/// them, in order: a later lookup of the same id wins.
pub open spec fn url_map(results: Seq<(i64, Option<String>)>) -> Map<i64, Option<String>>
    decreases results.len(),
{
    if results.len() == 0 {
        Map::empty()
    } else {
        url_map(results.drop_last()).insert(results.last().0, results.last().1)
    }
}

/// Collects the outcomes of the Steam lookups: the first failed lookup, in
/// order, fails the whole; otherwise the links are kept by HLTB id.
pub fn collect_steam_urls<E>(results: Vec<(i64, Result<Option<String>, E>)>) -> (r: Result<
    HashMap<i64, Option<String>>,
    E,
>)
    ensures
        r matches Ok(m) ==> (forall|i: int|
            0 <= i < results.len() ==> #[trigger] results@[i].1 is Ok) && m@ == url_map(
            Seq::new(results@.len(), |i: int| (results@[i].0, results@[i].1->Ok_0)),
        ),
        r matches Err(e) ==> exists|k: int|
            0 <= k < results.len() && results@[k].1 == Err::<Option<String>, E>(e) && forall|i: int|
                0 <= i < k ==> #[trigger] results@[i].1 is Ok,
        r is Ok <==> forall|i: int| 0 <= i < results.len() ==> #[trigger] results@[i].1 is Ok,
{
    let ghost orig = results@;
    let ghost pairs = Seq::new(orig.len(), |i: int| (orig[i].0, orig[i].1->Ok_0));
    let mut urls: HashMap<i64, Option<String>> = HashMap::new();
    let mut i: usize = 0;
    let n = results.len();
    for item in it: results
        invariant
            n == orig.len(),
            it.seq() == orig,
            pairs == Seq::new(orig.len(), |j: int| (orig[j].0, orig[j].1->Ok_0)),
            i == it.index(),
            forall|j: int| 0 <= j < i ==> #[trigger] orig[j].1 is Ok,
            urls@ == url_map(pairs.take(i as int)),
    {
        proof {
            assert(it.index() < orig.len());
            assert(item == orig[i as int]);
        }
        let (id, res) = item;
        match res {
            Ok(url) => {
                proof {
                    assert(pairs.take(i + 1).drop_last() =~= pairs.take(i as int));
                    assert(pairs.take(i + 1).last() == (id, url));
                }
                urls.insert(id, url);
                i = i + 1;
            },
            Err(e) => {
                return Err(e);
            },
        }
    }
    assert(pairs.take(i as int) =~= pairs);
    Ok(urls)
}

} // verus!
