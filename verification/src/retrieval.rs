use vstd::prelude::*;

use std::collections::HashMap;

use crate::formatting::{
    block_head, block_tail, block_with, blocks_with, clean_md_spec, escape_url_spec, first_img,
    format_msg, format_msg_spec, get_placeholder, placeholder_spec, preview_img,
};
use crate::model::Entry;
use crate::text::{
    contains_seq, decimal_int, is_decimal_char, lacks_char, lemma_absent_concat_end,
    lemma_absent_concat_start, lemma_absent_lacking_first, lemma_decimal_int_chars,
    lemma_decimal_int_injective, lemma_replace_char_keeps_absent, lemma_replace_peel,
    lemma_replace_peel_clear, lemma_replace_step_char, lemma_replace_step_match, occurs_at,
    replace_all, replace_str,
};

verus! {

broadcast use {vstd::string::group_string_axioms, vstd::std_specs::hash::group_hash_axioms};

/// What replaces the placeholder of the entry with this HLTB id: a link to its
/// Steam page when one was found, else nothing.
pub open spec fn steam_replacement(urls: Map<i64, Option<String>>, hltb_id: i64) -> Seq<char> {
    if urls.contains_key(hltb_id) && urls[hltb_id] is Some {
        " [🔗Steam]("@ + urls[hltb_id]->0@ + ")"@
    } else {
        Seq::empty()
    }
}

/// The message with the placeholder of each entry replaced, entry by entry.
pub open spec fn fill_steam_links(
    msg: Seq<char>,
    entries: Seq<Entry>,
    urls: Map<i64, Option<String>>,
) -> Seq<char>
    decreases entries.len(),
{
    if entries.len() == 0 {
        msg
    } else {
        let id = entries.last().hltb_id;
        replace_all(
            fill_steam_links(msg, entries.drop_last(), urls),
            placeholder_spec(id),
            steam_replacement(urls, id),
        )
    }
}

/// Placeholders are never empty.
pub proof fn lemma_placeholder_nonempty(id: i64)
    ensures
        placeholder_spec(id).len() > 0,
{
    reveal_strlit("{steam:");
}

// ---------------------------------------------------------------------------
// The final message is the first one with the Steam links filled in
// ---------------------------------------------------------------------------

/// No `{` in the text.
pub open spec fn brace_free(s: Seq<char>) -> bool {
    lacks_char(s, '{')
}

/// The text holds no placeholder of the id.
pub open spec fn free_of_placeholder(s: Seq<char>, id: i64) -> bool {
    !contains_seq(s, placeholder_spec(id))
}

/// No text of the entry holds the placeholder of the id.
pub open spec fn entry_free_of(e: Entry, id: i64) -> bool {
    &&& free_of_placeholder(e.name@, id)
    &&& free_of_placeholder(e.link@, id)
    &&& free_of_placeholder(e.img@, id)
    &&& free_of_placeholder(e.descr@, id)
}

/// No text of an entry and no Steam link holds the placeholder of an entry.
pub open spec fn placeholder_free(entries: Seq<Entry>, urls: Map<i64, Option<String>>) -> bool {
    &&& forall|t: int, u: int|
        0 <= t < entries.len() && 0 <= u < entries.len() ==> entry_free_of(
            #[trigger] entries[t],
            #[trigger] entries[u].hltb_id,
        )
    &&& forall|k: i64, u: int|
        urls.contains_key(k) && (#[trigger] urls[k]) is Some && 0 <= u < entries.len()
            ==> free_of_placeholder(urls[k]->0@, #[trigger] entries[u].hltb_id)
}

/// The message with each entry's Steam link, or nothing, where its
/// placeholder stood.
pub open spec fn filled_msg_spec(entries: Seq<Entry>, urls: Map<i64, Option<String>>) -> Seq<char> {
    if entries.len() == 0 {
        "not found"@
    } else {
        preview_img(entries) + blocks_with(entries, |id: i64| steam_replacement(urls, id))
    }
}

/// The placeholder of `j` neither occurs in the text nor runs on past its end.
#[verifier::opaque]
spec fn clear_of(s: Seq<char>, j: i64) -> bool {
    &&& !contains_seq(s, placeholder_spec(j))
    &&& s.len() > 0 ==> lacks_char(placeholder_spec(j), s.last())
}

/// Replacing the placeholder of `j` passes over a text clear of it.
proof fn lemma_peel_clear_of(x: Seq<char>, y: Seq<char>, j: i64, r: Seq<char>)
    requires
        clear_of(x, j),
    ensures
        replace_all(x + y, placeholder_spec(j), r) == x + replace_all(y, placeholder_spec(j), r),
{
    reveal(clear_of);
    lemma_placeholder_shape(j);
    lemma_replace_peel_clear(x, y, placeholder_spec(j), r);
}

/// Characters that no placeholder holds.
proof fn lemma_placeholder_lacks(k: i64, c: char)
    requires
        c == ')' || c == '(' || c == '\n' || c == '*' || c == '\\' || c == '%' || c == ' ',
    ensures
        lacks_char(placeholder_spec(k), c),
{
    reveal_strlit("{steam:");
    reveal_strlit("}");
    lemma_decimal_int_chars(k as int);
    let p = placeholder_spec(k);
    let d = decimal_int(k as int);
    assert forall|i: int| 0 <= i < p.len() implies p[i] != c by {
        if i < 7 {
        } else if i < 7 + d.len() {
            assert(p[i] == d[i - 7]);
            assert(is_decimal_char(d[i - 7]));
        } else {
            assert(p[i] == '}');
        }
    }
}

/// A text without `{` holds no placeholder.
proof fn lemma_brace_free_clear_of(s: Seq<char>, j: i64)
    requires
        brace_free(s),
    ensures
        !contains_seq(s, placeholder_spec(j)),
{
    lemma_placeholder_shape(j);
    lemma_absent_lacking_first(s, placeholder_spec(j));
}

/// Escaping a character by a text that starts with `c0` and holds no `{`
/// brings in no placeholder.
proof fn lemma_replace_char_keeps_free(s: Seq<char>, c: char, r: Seq<char>, j: i64)
    requires
        r.len() > 0,
        r[0] == '\\' || r[0] == '%',
        brace_free(r),
        free_of_placeholder(s, j),
    ensures
        free_of_placeholder(replace_all(s, seq![c], r), j),
{
    lemma_placeholder_shape(j);
    lemma_placeholder_lacks(j, r[0]);
    lemma_replace_char_keeps_absent(s, c, r, placeholder_spec(j));
}

proof fn lemma_clean_md_free(s: Seq<char>, j: i64)
    requires
        free_of_placeholder(s, j),
    ensures
        free_of_placeholder(clean_md_spec(s), j),
{
    reveal_strlit("_");
    reveal_strlit("*");
    reveal_strlit("\\_");
    reveal_strlit("\\*");
    assert("_"@ =~= seq!['_']);
    assert("*"@ =~= seq!['*']);
    lemma_replace_char_keeps_free(s, '_', "\\_"@, j);
    lemma_replace_char_keeps_free(replace_all(s, "_"@, "\\_"@), '*', "\\*"@, j);
}

proof fn lemma_escape_url_free(s: Seq<char>, j: i64)
    requires
        free_of_placeholder(s, j),
    ensures
        free_of_placeholder(escape_url_spec(s), j),
{
    reveal_strlit("(");
    reveal_strlit(")");
    reveal_strlit("%28");
    reveal_strlit("%29");
    assert("("@ =~= seq!['(']);
    assert(")"@ =~= seq![')']);
    lemma_replace_char_keeps_free(s, '(', "%28"@, j);
    lemma_replace_char_keeps_free(replace_all(s, "("@, "%28"@), ')', "%29"@, j);
}

/// `left + mid + right` keeps clear of the placeholder of `j` when none of
/// the three holds it and `left` ends, and `right` starts and ends, with
/// characters that no placeholder holds.
proof fn lemma_wrapped_clear(left: Seq<char>, mid: Seq<char>, right: Seq<char>, j: i64)
    requires
        left.len() > 0,
        right.len() > 0,
        brace_free(left) || !contains_seq(left, placeholder_spec(j)),
        brace_free(right),
        lacks_char(placeholder_spec(j), left.last()),
        lacks_char(placeholder_spec(j), right[0]),
        lacks_char(placeholder_spec(j), right.last()),
        free_of_placeholder(mid, j),
    ensures
        clear_of(left + mid + right, j),
{
    let p = placeholder_spec(j);
    if brace_free(left) {
        lemma_brace_free_clear_of(left, j);
    }
    lemma_brace_free_clear_of(right, j);
    lemma_absent_concat_end(left, mid, p);
    lemma_absent_concat_start(left + mid, right, p);
    assert((left + mid + right).last() == right.last());
    reveal(clear_of);
}

proof fn lemma_head_clear(e: Entry, j: i64)
    requires
        entry_free_of(e, j),
    ensures
        clear_of(block_head(e), j),
{
    reveal_strlit("*");
    reveal_strlit("* [🗗](");
    reveal_strlit(")");
    let p = placeholder_spec(j);
    let a = "*"@ + clean_md_spec(e.name@) + "* [🗗]("@;
    lemma_clean_md_free(e.name@, j);
    lemma_placeholder_lacks(j, '*');
    lemma_placeholder_lacks(j, '(');
    lemma_placeholder_lacks(j, ')');
    lemma_wrapped_clear("*"@, clean_md_spec(e.name@), "* [🗗]("@, j);
    reveal(clear_of);
    lemma_wrapped_clear(a, e.link@, ")"@, j);
    assert(block_head(e) == a + e.link@ + ")"@);
}

proof fn lemma_tail_clear(e: Entry, j: i64)
    requires
        entry_free_of(e, j),
    ensures
        clear_of(block_tail(e), j),
{
    reveal_strlit("\n");
    lemma_clean_md_free(e.descr@, j);
    lemma_placeholder_lacks(j, '\n');
    lemma_wrapped_clear("\n"@, clean_md_spec(e.descr@), "\n"@, j);
}

proof fn lemma_first_img_of_entry(entries: Seq<Entry>)
    ensures
        first_img(entries) matches Some(img) ==> exists|t: int|
            0 <= t < entries.len() && img == (#[trigger] entries[t]).img@,
    decreases entries.len(),
{
    if entries.len() > 0 && entries[0].img@.len() == 0 {
        lemma_first_img_of_entry(entries.skip(1));
        if let Some(img) = first_img(entries) {
            let t = choose|t: int| 0 <= t < entries.skip(1).len() && img == (#[trigger] entries.skip(1)[t]).img@;
            assert(entries.skip(1)[t] == entries[t + 1]);
        }
    }
}

proof fn lemma_preview_clear(entries: Seq<Entry>, j: i64)
    requires
        forall|t: int| 0 <= t < entries.len() ==> entry_free_of(#[trigger] entries[t], j),
    ensures
        clear_of(preview_img(entries), j),
{
    lemma_first_img_of_entry(entries);
    if let Some(img) = first_img(entries) {
        reveal_strlit("[ ](");
        reveal_strlit(")");
        let t = choose|t: int| 0 <= t < entries.len() && img == (#[trigger] entries[t]).img@;
        assert(entry_free_of(entries[t], j));
        lemma_escape_url_free(img, j);
        lemma_placeholder_lacks(j, '(');
        lemma_placeholder_lacks(j, ')');
        lemma_wrapped_clear("[ ]("@, escape_url_spec(img), ")"@, j);
    } else {
        reveal(clear_of);
        lemma_placeholder_shape(j);
        assert(!contains_seq(Seq::<char>::empty(), placeholder_spec(j)));
    }
}

proof fn lemma_replacement_clear(urls: Map<i64, Option<String>>, id: i64, j: i64)
    requires
        urls.contains_key(id) && urls[id] is Some ==> free_of_placeholder(urls[id]->0@, j),
    ensures
        clear_of(steam_replacement(urls, id), j),
{
    if urls.contains_key(id) && urls[id] is Some {
        reveal_strlit(" [🔗Steam](");
        reveal_strlit(")");
        lemma_placeholder_lacks(j, '(');
        lemma_placeholder_lacks(j, ')');
        lemma_wrapped_clear(" [🔗Steam]("@, urls[id]->0@, ")"@, j);
    } else {
        reveal(clear_of);
        assert(!contains_seq(Seq::<char>::empty(), placeholder_spec(j)));
    }
}

/// A text that holds no placeholder of `k` is not that placeholder.
proof fn lemma_clear_not_placeholder(s: Seq<char>, k: i64)
    requires
        !contains_seq(s, placeholder_spec(k)),
    ensures
        s != placeholder_spec(k),
{
    let p = placeholder_spec(k);
    assert(p.subrange(0, p.len() as int) =~= p);
    assert(occurs_at(p, p, 0));
}

/// A placeholder starts with `{` and holds no other.
proof fn lemma_placeholder_shape(k: i64)
    ensures
        placeholder_spec(k).len() > 0,
        placeholder_spec(k)[0] == '{',
        brace_free(placeholder_spec(k).skip(1)),
        !brace_free(placeholder_spec(k)),
{
    reveal_strlit("{steam:");
    reveal_strlit("}");
    lemma_decimal_int_chars(k as int);
    let p = placeholder_spec(k);
    let d = decimal_int(k as int);
    assert forall|i: int| 0 <= i < p.skip(1).len() implies p.skip(1)[i] != '{' by {
        let m = i + 1;
        if m < 7 {
        } else if m < 7 + d.len() {
            assert(p[m] == d[m - 7]);
            assert(is_decimal_char(d[m - 7]));
        } else {
            assert(p[m] == '}');
        }
    }
}

/// The placeholder of one id does not start the placeholder of another.
proof fn lemma_placeholder_mismatch(k: i64, j: i64, y: Seq<char>)
    requires
        k != j,
    ensures
        !occurs_at(placeholder_spec(k) + y, placeholder_spec(j), 0),
{
    reveal_strlit("{steam:");
    reveal_strlit("}");
    let a = decimal_int(j as int);
    let b = decimal_int(k as int);
    lemma_decimal_int_chars(j as int);
    lemma_decimal_int_chars(k as int);
    let s = placeholder_spec(k) + y;
    let p = placeholder_spec(j);
    if occurs_at(s, p, 0) {
        assert forall|i: int| 0 <= i < p.len() implies s[i] == p[i] by {
            assert(s.subrange(0, p.len() as int)[i] == s[i]);
        }
        if a.len() < b.len() {
            assert(p[7 + a.len() as int] == '}');
            assert(s[7 + a.len() as int] == b[a.len() as int]);
            assert(is_decimal_char(b[a.len() as int]));
        } else if a.len() > b.len() {
            assert(s[7 + b.len() as int] == '}');
            assert(p[7 + b.len() as int] == a[b.len() as int]);
            assert(is_decimal_char(a[b.len() as int]));
        } else {
            assert forall|i: int| 0 <= i < a.len() implies a[i] == b[i] by {
                assert(p[7 + i] == a[i]);
                assert(s[7 + i] == b[i]);
            }
            assert(a =~= b);
            lemma_decimal_int_injective(j as int, k as int);
        }
    }
}

/// Replacing the placeholder of `j` in a text that starts with the
/// placeholder of `k`.
proof fn lemma_replace_placeholder(k: i64, j: i64, y: Seq<char>, r: Seq<char>)
    ensures
        replace_all(placeholder_spec(k) + y, placeholder_spec(j), r) == (if k == j {
            r
        } else {
            placeholder_spec(k)
        }) + replace_all(y, placeholder_spec(j), r),
{
    lemma_placeholder_shape(k);
    lemma_placeholder_shape(j);
    let pk = placeholder_spec(k);
    let pj = placeholder_spec(j);
    let s = pk + y;
    if k == j {
        assert(s.subrange(0, pj.len() as int) =~= pj);
        lemma_replace_step_match(s, pj, r);
        assert(s.skip(pj.len() as int) =~= y);
    } else {
        lemma_placeholder_mismatch(k, j, y);
        lemma_replace_step_char(s, pj, r);
        assert(s.skip(1) =~= pk.skip(1) + y);
        lemma_replace_peel(pk.skip(1), y, pj, r);
        assert(pk =~= seq![pk[0]] + pk.skip(1));
        assert(s[0] == pk[0]);
    }
}

/// The blocks, taken from the front.
proof fn lemma_blocks_front(es: Seq<Entry>, f: spec_fn(i64) -> Seq<char>)
    requires
        es.len() > 0,
    ensures
        blocks_with(es, f) == block_with(es[0], f) + blocks_with(es.skip(1), f),
    decreases es.len(),
{
    if es.len() == 1 {
        assert(es.drop_last().len() == 0);
        assert(es.skip(1).len() == 0);
        assert(blocks_with(es.skip(1), f) == Seq::<char>::empty());
        assert(blocks_with(es.drop_last(), f) == Seq::<char>::empty());
        assert(blocks_with(es, f) =~= block_with(es[0], f) + blocks_with(es.skip(1), f));
    } else {
        let d = es.drop_last();
        lemma_blocks_front(d, f);
        assert(d.skip(1) =~= es.skip(1).drop_last());
        assert(es.skip(1).last() == es.last());
        assert(d[0] == es[0]);
        assert(blocks_with(es, f) =~= block_with(es[0], f) + blocks_with(es.skip(1), f));
    }
}

/// The blocks depend only on the links of the entries' ids.
proof fn lemma_blocks_congruent(es: Seq<Entry>, f: spec_fn(i64) -> Seq<char>, g: spec_fn(i64) -> Seq<char>)
    requires
        forall|t: int| 0 <= t < es.len() ==> f(#[trigger] es[t].hltb_id) == g(es[t].hltb_id),
    ensures
        blocks_with(es, f) == blocks_with(es, g),
    decreases es.len(),
{
    if es.len() > 0 {
        assert(es.last() == es[es.len() - 1]);
        assert(f(es.last().hltb_id) == g(es.last().hltb_id));
        assert forall|t: int| 0 <= t < es.drop_last().len() implies f(
            #[trigger] es.drop_last()[t].hltb_id,
        ) == g(es.drop_last()[t].hltb_id) by {
            assert(es.drop_last()[t] == es[t]);
        }
        lemma_blocks_congruent(es.drop_last(), f, g);
    }
}

/// The link after replacing the placeholder of `j` by `r`.
pub open spec fn after_replacing(f: spec_fn(i64) -> Seq<char>, j: i64, r: Seq<char>) -> spec_fn(
    i64,
) -> Seq<char> {
    |k: i64|
        if k == j && f(k) == placeholder_spec(k) {
            r
        } else {
            f(k)
        }
}

/// Replacing the placeholder of `j` in a text that starts with the link of
/// the id `k`, which is either its placeholder or clear of that of `j`.
proof fn lemma_replace_link(link: Seq<char>, k: i64, j: i64, rest: Seq<char>, r: Seq<char>)
    requires
        link == placeholder_spec(k) || clear_of(link, j),
    ensures
        replace_all(link + rest, placeholder_spec(j), r) == (if k == j && link == placeholder_spec(
            k,
        ) {
            r
        } else {
            link
        }) + replace_all(rest, placeholder_spec(j), r),
{
    lemma_placeholder_shape(k);
    lemma_placeholder_shape(j);
    if link == placeholder_spec(k) {
        lemma_replace_placeholder(k, j, rest, r);
    } else {
        lemma_peel_clear_of(link, rest, j, r);
    }
}

/// Replacing a placeholder in the blocks replaces it where it still stands.
#[verifier::spinoff_prover]
#[verifier::rlimit(40)]
proof fn lemma_replace_blocks(es: Seq<Entry>, f: spec_fn(i64) -> Seq<char>, j: i64, r: Seq<char>)
    requires
        forall|t: int| 0 <= t < es.len() ==> entry_free_of(#[trigger] es[t], j),
        forall|t: int|
            0 <= t < es.len() ==> f(#[trigger] es[t].hltb_id) == placeholder_spec(es[t].hltb_id)
                || clear_of(f(es[t].hltb_id), j),
    ensures
        replace_all(blocks_with(es, f), placeholder_spec(j), r) == blocks_with(
            es,
            after_replacing(f, j, r),
        ),
    decreases es.len(),
{
    let g = after_replacing(f, j, r);
    let pj = placeholder_spec(j);
    lemma_placeholder_shape(j);
    if es.len() == 0 {
        assert(blocks_with(es, f) == Seq::<char>::empty());
        assert(blocks_with(es, g) == Seq::<char>::empty());
    } else {
        let e = es[0];
        let rest = es.skip(1);
        let head = block_head(e);
        let tail = block_tail(e);
        let link = f(e.hltb_id);
        let rb = blocks_with(rest, f);
        assert(entry_free_of(es[0], j));
        assert(f(es[0].hltb_id) == placeholder_spec(es[0].hltb_id) || clear_of(f(es[0].hltb_id), j));
        lemma_head_clear(e, j);
        lemma_tail_clear(e, j);
        assert(replace_all(rb, pj, r) == blocks_with(rest, g)) by {
            assert forall|t: int| 0 <= t < rest.len() implies entry_free_of(#[trigger] rest[t], j) by {
                assert(rest[t] == es[t + 1]);
            }
            assert forall|t: int| 0 <= t < rest.len() implies f(#[trigger] rest[t].hltb_id)
                == placeholder_spec(rest[t].hltb_id) || clear_of(f(rest[t].hltb_id), j) by {
                assert(rest[t] == es[t + 1]);
            }
            lemma_replace_blocks(rest, f, j, r);
        }
        assert(blocks_with(es, f) == head + (link + (tail + rb))) by {
            lemma_blocks_front(es, f);
            assert(blocks_with(es, f) =~= head + (link + (tail + rb)));
        }
        lemma_peel_clear_of(head, link + (tail + rb), j, r);
        lemma_replace_link(link, e.hltb_id, j, tail + rb, r);
        lemma_peel_clear_of(tail, rb, j, r);
        assert(g(e.hltb_id) == (if e.hltb_id == j && link == placeholder_spec(e.hltb_id) {
            r
        } else {
            link
        }));
        assert(blocks_with(es, g) == head + g(e.hltb_id) + tail + blocks_with(rest, g)) by {
            lemma_blocks_front(es, g);
        }
        assert(replace_all(blocks_with(es, f), pj, r) =~= head + g(e.hltb_id) + tail + blocks_with(
            rest,
            g,
        ));
    }
}

/// The link of each id once the first `i` entries have had their
/// placeholders replaced.
pub open spec fn links_after(es: Seq<Entry>, urls: Map<i64, Option<String>>, i: int) -> spec_fn(
    i64,
) -> Seq<char> {
    |k: i64|
        if exists|t: int| 0 <= t < i && es[t].hltb_id == k {
            steam_replacement(urls, k)
        } else {
            placeholder_spec(k)
        }
}

/// A Steam link of the map holds no placeholder of the entry at `u`.
proof fn lemma_link_clear(es: Seq<Entry>, urls: Map<i64, Option<String>>, k: i64, u: int)
    requires
        placeholder_free(es, urls),
        0 <= u < es.len(),
    ensures
        clear_of(steam_replacement(urls, k), es[u].hltb_id),
{
    if urls.contains_key(k) && urls[k] is Some {
        assert(free_of_placeholder(urls[k]->0@, es[u].hltb_id));
    }
    lemma_replacement_clear(urls, k, es[u].hltb_id);
}

/// After the placeholders of the first `i` entries have been replaced, the
/// message holds the links of their ids and the placeholders of the others.
proof fn lemma_fill_prefix(es: Seq<Entry>, urls: Map<i64, Option<String>>, i: int)
    requires
        es.len() > 0,
        0 <= i <= es.len(),
        placeholder_free(es, urls),
    ensures
        fill_steam_links(format_msg_spec(es), es.take(i), urls) == preview_img(es) + blocks_with(
            es,
            links_after(es, urls, i),
        ),
    decreases i,
{
    let pre = preview_img(es);
    if i == 0 {
        assert(es.take(0).len() == 0);
        let p0 = |id: i64| placeholder_spec(id);
        lemma_blocks_congruent(es, p0, links_after(es, urls, 0));
    } else {
        let i0 = i - 1;
        lemma_fill_prefix(es, urls, i0);
        let j = es[i0].hltb_id;
        let r = steam_replacement(urls, j);
        let f = links_after(es, urls, i0);
        assert forall|t: int| 0 <= t < es.len() implies entry_free_of(#[trigger] es[t], j) by {
            assert(entry_free_of(es[t], es[i0].hltb_id));
        }
        lemma_preview_clear(es, j);
        assert forall|t: int| 0 <= t < es.len() implies f(#[trigger] es[t].hltb_id)
            == placeholder_spec(es[t].hltb_id) || clear_of(f(es[t].hltb_id), j) by {
            lemma_link_clear(es, urls, es[t].hltb_id, i0);
        }
        lemma_placeholder_shape(j);
        assert(es.take(i).drop_last() =~= es.take(i0));
        assert(es.take(i).last() == es[i0]);
        lemma_peel_clear_of(pre, blocks_with(es, f), j, r);
        lemma_replace_blocks(es, f, j, r);
        let g = after_replacing(f, j, r);
        let h = links_after(es, urls, i);
        assert forall|t: int| 0 <= t < es.len() implies g(#[trigger] es[t].hltb_id) == h(
            es[t].hltb_id,
        ) by {
            let k = es[t].hltb_id;
            lemma_link_clear(es, urls, k, t);
            reveal(clear_of);
            lemma_clear_not_placeholder(steam_replacement(urls, k), k);
            if k == j {
                assert(0 <= i0 < i && es[i0].hltb_id == k);
            } else {
                if exists|u: int| 0 <= u < i && es[u].hltb_id == k {
                    let u = choose|u: int| 0 <= u < i && es[u].hltb_id == k;
                    assert(u != i0);
                    assert(0 <= u < i0 && es[u].hltb_id == k);
                }
            }
        }
        lemma_blocks_congruent(es, g, h);
    }
}

/// The final message is the first message with every entry's Steam link, or
/// nothing when none was found, where its placeholder stood, whenever no
/// text of an entry and no Steam link holds the placeholder of an entry.
pub proof fn law_final_message_fills_steam_links(entries: Seq<Entry>, urls: Map<i64, Option<String>>)
    requires
        placeholder_free(entries, urls),
    ensures
        fill_steam_links(format_msg_spec(entries), entries, urls) == filled_msg_spec(entries, urls),
{
    let es = entries;
    let n = es.len();
    if n == 0 {
        assert(fill_steam_links(format_msg_spec(es), es, urls) == format_msg_spec(es));
    } else {
        lemma_fill_prefix(es, urls, n as int);
        assert(es.take(n as int) =~= es);
        let fin = |id: i64| steam_replacement(urls, id);
        assert forall|t: int| 0 <= t < es.len() implies links_after(es, urls, n as int)(
            #[trigger] es[t].hltb_id,
        ) == fin(es[t].hltb_id) by {
            assert(0 <= t < n && es[t].hltb_id == es[t].hltb_id);
        }
        lemma_blocks_congruent(es, links_after(es, urls, n as int), fin);
    }
}

/// The state of answering one query: the entries found and the first message
/// sent for them, which is later completed with the Steam links. `C` is the
/// client by which the answer is fetched.
pub struct RetrievalFlow<C> {
    pub hltb_api: C,
    pub entries: Vec<Entry>,
    pub query: String,
    pub initial_msg: String,
}

impl<C> RetrievalFlow<C> {
    /// A flow for `query` with nothing found yet.
    pub fn new(hltb_api: C, query: &str) -> (f: Self)
        ensures
            f.hltb_api == hltb_api,
            f.entries@.len() == 0,
            f.query@ == query@,
            f.initial_msg@.len() == 0,
    {
        RetrievalFlow {
            hltb_api,
            entries: Vec::new(),
            query: String::from_str(query),
            initial_msg: String::new(),
        }
    }

    /// Records the entries found and returns the first message, which shows
    /// them with placeholders for their Steam links.
    pub fn set_entries(&mut self, entries: Vec<Entry>) -> (msg: String)
        ensures
            final(self).hltb_api == old(self).hltb_api,
            final(self).query == old(self).query,
            final(self).entries@ == entries@,
            final(self).initial_msg@ == format_msg_spec(entries@),
            msg@ == format_msg_spec(entries@),
    {
        self.initial_msg = format_msg(&entries);
        self.entries = entries;
        self.initial_msg.clone()
    }

    /// The final message: the first one with each entry's placeholder replaced
    /// by its Steam link, or removed when it has none.
    pub fn final_msg(&self, urls_by_hltb_id: &HashMap<i64, Option<String>>) -> (msg: String)
        ensures
            msg@ == fill_steam_links(self.initial_msg@, self.entries@, urls_by_hltb_id@),
    {
        let mut updated_msg_text = self.initial_msg.clone();
        let mut i: usize = 0;
        while i < self.entries.len()
            invariant
                i <= self.entries.len(),
                updated_msg_text@ == fill_steam_links(
                    self.initial_msg@,
                    self.entries@.take(i as int),
                    urls_by_hltb_id@,
                ),
            decreases self.entries.len() - i,
        {
            let id = self.entries[i].hltb_id;
            let placeholder = get_placeholder(id);
            proof {
                lemma_placeholder_nonempty(id);
                assert(self.entries@.take(i + 1).drop_last() =~= self.entries@.take(i as int));
                assert(self.entries@.take(i + 1).last() == self.entries@[i as int]);
            }
            let replacement = match urls_by_hltb_id.get(&id) {
                Some(Some(url)) => {
                    let mut r = String::from_str(" [🔗Steam](");
                    r.append(url.as_str());
                    r.append(")");
                    r
                },
                _ => String::new(),
            };
            assert(replacement@ == steam_replacement(urls_by_hltb_id@, id));
            updated_msg_text = replace_str(updated_msg_text.as_str(), placeholder.as_str(), replacement.as_str());
            i = i + 1;
        }
        assert(self.entries@.take(i as int) =~= self.entries@);
        updated_msg_text
    }
}

} // verus!
