use vstd::prelude::*;

use crate::model::Entry;
use crate::text::{
    contains_seq, decimal_int, lacks_char, lemma_replace_absent, lemma_replace_char_removes,
    lemma_replace_keeps_lacking, occurs_at, push_decimal_i64, replace_all, replace_str,
};

verus! {

broadcast use vstd::string::group_string_axioms;

/// `clean_md` as a function on characters: `_` and `*` are escaped with a
/// backslash so that Telegram's Markdown shows them literally.
pub open spec fn clean_md_spec(s: Seq<char>) -> Seq<char> {
    replace_all(replace_all(s, "_"@, "\\_"@), "*"@, "\\*"@)
}

/// `escape_url` as a function on characters: round brackets are
/// percent-encoded so that they do not end a Markdown link.
pub open spec fn escape_url_spec(s: Seq<char>) -> Seq<char> {
    replace_all(replace_all(s, "("@, "%28"@), ")"@, "%29"@)
}

/// The text that stands for an entry's Steam link until the link is known.
pub open spec fn placeholder_spec(hltb_id: i64) -> Seq<char> {
    "{steam:"@ + decimal_int(hltb_id as int) + "}"@
}

/// The title line of an entry up to where its Steam link goes.
pub open spec fn block_head(e: Entry) -> Seq<char> {
    "*"@ + clean_md_spec(e.name@) + "* [🗗]("@ + e.link@ + ")"@
}

/// The end of an entry's title line and its description.
pub open spec fn block_tail(e: Entry) -> Seq<char> {
    "\n"@ + clean_md_spec(e.descr@) + "\n"@
}

/// The lines that describe one entry, with `link(id)` where its Steam link goes.
pub open spec fn block_with(e: Entry, link: spec_fn(i64) -> Seq<char>) -> Seq<char> {
    block_head(e) + link(e.hltb_id) + block_tail(e)
}

/// The blocks of all entries, in order.
pub open spec fn blocks_with(entries: Seq<Entry>, link: spec_fn(i64) -> Seq<char>) -> Seq<char>
    decreases entries.len(),
{
    if entries.len() == 0 {
        Seq::empty()
    } else {
        blocks_with(entries.drop_last(), link) + block_with(entries.last(), link)
    }
}

/// The lines of the first message that describe one entry: its Steam link is
/// still a placeholder.
pub open spec fn entry_block(e: Entry) -> Seq<char> {
    block_with(e, |id: i64| placeholder_spec(id))
}

/// The blocks of all entries in the first message.
pub open spec fn entry_blocks(entries: Seq<Entry>) -> Seq<char> {
    blocks_with(entries, |id: i64| placeholder_spec(id))
}

/// The image of the first entry that has one.
pub open spec fn first_img(entries: Seq<Entry>) -> Option<Seq<char>>
    decreases entries.len(),
{
    if entries.len() == 0 {
        None
    } else if entries[0].img@.len() > 0 {
        Some(entries[0].img@)
    } else {
        first_img(entries.skip(1))
    }
}

/// The invisible link that makes Telegram show a preview of the first image.
pub open spec fn preview_img(entries: Seq<Entry>) -> Seq<char> {
    match first_img(entries) {
        None => Seq::empty(),
        Some(img) => "[ ]("@ + escape_url_spec(img) + ")"@,
    }
}

/// The preview shows the image of the first entry that has one: when entry
/// `k` has an image and no entry before it has, the preview is that image,
/// escaped, in an invisible link.
pub proof fn law_preview_is_first_image(entries: Seq<Entry>, k: int)
    requires
        0 <= k < entries.len(),
        entries[k].img@.len() > 0,
        forall|j: int| 0 <= j < k ==> (#[trigger] entries[j]).img@.len() == 0,
    ensures
        first_img(entries) == Some(entries[k].img@),
        preview_img(entries) == "[ ]("@ + escape_url_spec(entries[k].img@) + ")"@,
    decreases k,
{
    if k > 0 {
        let rest = entries.skip(1);
        assert(entries[0].img@.len() == 0);
        assert forall|j: int| 0 <= j < k - 1 implies (#[trigger] rest[j]).img@.len() == 0 by {
            assert(rest[j] == entries[j + 1]);
        }
        assert(rest[k - 1] == entries[k]);
        law_preview_is_first_image(rest, k - 1);
    }
}

/// Without any image there is no preview.
pub proof fn law_no_image_no_preview(entries: Seq<Entry>)
    requires
        forall|j: int| 0 <= j < entries.len() ==> (#[trigger] entries[j]).img@.len() == 0,
    ensures
        first_img(entries) is None,
        preview_img(entries) == Seq::<char>::empty(),
    decreases entries.len(),
{
    if entries.len() > 0 {
        let rest = entries.skip(1);
        assert(entries[0].img@.len() == 0);
        assert forall|j: int| 0 <= j < rest.len() implies (#[trigger] rest[j]).img@.len() == 0 by {
            assert(rest[j] == entries[j + 1]);
        }
        law_no_image_no_preview(rest);
    }
}

/// The whole message for a list of entries.
pub open spec fn format_msg_spec(entries: Seq<Entry>) -> Seq<char> {
    if entries.len() == 0 {
        "not found"@
    } else {
        preview_img(entries) + entry_blocks(entries)
    }
}

proof fn lemma_single_char_absent(s: Seq<char>, c: char)
    requires
        lacks_char(s, c),
    ensures
        !contains_seq(s, seq![c]),
{
    assert forall|i: int| !occurs_at(s, seq![c], i) by {
        if occurs_at(s, seq![c], i) {
            assert(s.subrange(i, i + 1)[0] == s[i]);
        }
    }
}

/// Text without `_` and `*` passes through `clean_md` unchanged.
pub proof fn law_clean_md_keeps_plain_text(s: Seq<char>)
    requires
        lacks_char(s, '_'),
        lacks_char(s, '*'),
    ensures
        clean_md_spec(s) == s,
{
    reveal_strlit("_");
    reveal_strlit("*");
    assert("_"@ =~= seq!['_']);
    assert("*"@ =~= seq!['*']);
    lemma_single_char_absent(s, '_');
    lemma_replace_absent(s, "_"@, "\\_"@);
    lemma_single_char_absent(s, '*');
    lemma_replace_absent(s, "*"@, "\\*"@);
}

/// A URL without round brackets passes through `escape_url` unchanged.
pub proof fn law_escape_url_keeps_plain_url(s: Seq<char>)
    requires
        lacks_char(s, '('),
        lacks_char(s, ')'),
    ensures
        escape_url_spec(s) == s,
{
    reveal_strlit("(");
    reveal_strlit(")");
    assert("("@ =~= seq!['(']);
    assert(")"@ =~= seq![')']);
    lemma_single_char_absent(s, '(');
    lemma_replace_absent(s, "("@, "%28"@);
    lemma_single_char_absent(s, ')');
    lemma_replace_absent(s, ")"@, "%29"@);
}

/// An escaped URL holds no round bracket, so it cannot end a Markdown link early.
pub proof fn law_escape_url_removes_brackets(s: Seq<char>)
    ensures
        lacks_char(escape_url_spec(s), '('),
        lacks_char(escape_url_spec(s), ')'),
{
    reveal_strlit("(");
    reveal_strlit(")");
    reveal_strlit("%28");
    reveal_strlit("%29");
    assert("("@ =~= seq!['(']);
    assert(")"@ =~= seq![')']);
    let first = replace_all(s, "("@, "%28"@);
    lemma_replace_char_removes(s, '(', "%28"@);
    lemma_replace_keeps_lacking(first, ")"@, "%29"@, '(');
    lemma_replace_char_removes(first, ')', "%29"@);
}

/// Formats the search results as a Markdown message.
pub fn format_msg(entries: &Vec<Entry>) -> (msg: String)
    ensures
        msg@ == format_msg_spec(entries@),
{
    if entries.len() == 0 {
        return String::from_str("not found");
    }
    let mut str = String::new();
    try_add_preview_img(&mut str, entries);
    let mut i: usize = 0;
    while i < entries.len()
        invariant
            i <= entries.len(),
            str@ == preview_img(entries@) + entry_blocks(entries@.take(i as int)),
        decreases entries.len() - i,
    {
        let entry = &entries[i];
        // title & HLTB link
        str.append("*");
        let name = clean_md(entry.name.as_str());
        str.append(name.as_str());
        str.append("* [🗗](");
        str.append(entry.link.as_str());
        str.append(")");
        // where the Steam link will go
        let placeholder = get_placeholder(entry.hltb_id);
        str.append(placeholder.as_str());
        // times & new lines
        str.append("\n");
        let descr = clean_md(entry.descr.as_str());
        str.append(descr.as_str());
        str.append("\n");
        proof {
            assert(entries@.take(i + 1).drop_last() =~= entries@.take(i as int));
            assert(entries@.take(i + 1).last() == entries@[i as int]);
            assert(str@ =~= preview_img(entries@) + entry_blocks(entries@.take(i as int))
                + entry_block(entries@[i as int]));
        }
        i = i + 1;
    }
    assert(entries@.take(i as int) =~= entries@);
    str
}

/// The placeholder for the Steam link of the entry with this HLTB id.
pub fn get_placeholder(hltb_id: i64) -> (p: String)
    ensures
        p@ == placeholder_spec(hltb_id),
{
    let mut p = String::from_str("{steam:");
    push_decimal_i64(&mut p, hltb_id);
    p.append("}");
    p
}

/// Appends a preview link to the image of the first entry that has an image.
pub fn try_add_preview_img(msg: &mut String, entries: &Vec<Entry>)
    ensures
        final(msg)@ == old(msg)@ + preview_img(entries@),
{
    let mut i: usize = 0;
    assert(entries@.skip(0) =~= entries@);
    while i < entries.len()
        invariant
            i <= entries.len(),
            first_img(entries@) == first_img(entries@.skip(i as int)),
            msg@ == old(msg)@,
        decreases entries.len() - i,
    {
        if !entries[i].img.as_str().is_empty() {
            proof {
                assert(entries@.skip(i as int)[0] == entries@[i as int]);
                assert(entries@[i as int].img@.len() > 0);
            }
            let escaped_url = escape_url(entries[i].img.as_str());
            msg.append("[ ](");
            msg.append(escaped_url.as_str());
            msg.append(")");
            return;
        }
        proof {
            assert(entries@.skip(i as int)[0] == entries@[i as int]);
            assert(entries@.skip(i as int).skip(1) =~= entries@.skip(i + 1));
        }
        i = i + 1;
    }
    assert(entries@.skip(i as int).len() == 0);
}

/// Percent-encodes round brackets in a URL.
pub fn escape_url(str: &str) -> (out: String)
    ensures
        out@ == escape_url_spec(str@),
{
    proof {
        reveal_strlit("(");
        reveal_strlit(")");
    }
    let first = replace_str(str, "(", "%28");
    replace_str(first.as_str(), ")", "%29")
}

/// Escapes the Markdown markers `_` and `*`.
pub fn clean_md(str: &str) -> (out: String)
    ensures
        out@ == clean_md_spec(str@),
{
    proof {
        reveal_strlit("_");
        reveal_strlit("*");
    }
    let first = replace_str(str, "_", "\\_");
    replace_str(first.as_str(), "*", "\\*")
}

} // verus!
