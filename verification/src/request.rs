use vstd::prelude::*;

use crate::text::{chars_of, push_char, str_eq, string_of};

verus! {

broadcast use vstd::string::group_string_axioms;

// ---------------------------------------------------------------------------
// JSON text
// ---------------------------------------------------------------------------

/// The lower-case hexadecimal digit of `d` (`0 <= d < 16`).
pub open spec fn hex_digit(d: nat) -> char {
    if d < 10 {
        (48 + d) as char
    } else {
        (87 + d) as char
    }
}

/// How a character stands inside a JSON string: quotes, backslashes and
/// control characters are escaped, every other character stands as it is.
pub open spec fn json_escape_char(c: char) -> Seq<char> {
    if c == '"' {
        seq!['\\', '"']
    } else if c == '\\' {
        seq!['\\', '\\']
    } else if c == '\n' {
        seq!['\\', 'n']
    } else if c == '\r' {
        seq!['\\', 'r']
    } else if c == '\t' {
        seq!['\\', 't']
    } else if c == '\u{8}' {
        seq!['\\', 'b']
    } else if c == '\u{c}' {
        seq!['\\', 'f']
    } else if (c as u32) < 32 {
        seq!['\\', 'u', '0', '0', hex_digit((c as u32 / 16) as nat), hex_digit((c as u32 % 16) as nat)]
    } else {
        seq![c]
    }
}

/// The escaped characters of a JSON string.
pub open spec fn json_escape(s: Seq<char>) -> Seq<char>
    decreases s.len(),
{
    if s.len() == 0 {
        Seq::empty()
    } else {
        json_escape(s.drop_last()) + json_escape_char(s.last())
    }
}

/// A text as a JSON string.
pub open spec fn json_string(s: Seq<char>) -> Seq<char> {
    seq!['"'] + json_escape(s) + seq!['"']
}

/// JSON values separated by commas.
pub open spec fn json_list(items: Seq<Seq<char>>) -> Seq<char>
    decreases items.len(),
{
    if items.len() == 0 {
        Seq::empty()
    } else if items.len() == 1 {
        items[0]
    } else {
        json_list(items.drop_last()) + seq![','] + items.last()
    }
}

/// A JSON array of strings.
pub open spec fn json_string_array(items: Seq<Seq<char>>) -> Seq<char> {
    seq!['['] + json_list(items.map_values(|s: Seq<char>| json_string(s))) + seq![']']
}

/// The members of a JSON object, each a name and the text of its value.
pub open spec fn json_members(fields: Seq<(Seq<char>, Seq<char>)>) -> Seq<Seq<char>> {
    fields.map_values(|f: (Seq<char>, Seq<char>)| json_string(f.0) + seq![':'] + f.1)
}

/// A JSON object.
pub open spec fn json_object(fields: Seq<(Seq<char>, Seq<char>)>) -> Seq<char> {
    seq!['{'] + json_list(json_members(fields)) + seq!['}']
}

/// The value of a hexadecimal digit, in either case.
pub open spec fn hex_value(c: char) -> Option<int> {
    if '0' <= c && c <= '9' {
        Some(c as int - '0' as int)
    } else if 'a' <= c && c <= 'f' {
        Some(c as int - 'a' as int + 10)
    } else if 'A' <= c && c <= 'F' {
        Some(c as int - 'A' as int + 10)
    } else {
        None
    }
}

/// The character that one element of a JSON string stands for, as the JSON
/// grammar reads it: an unescaped character other than a quote, a backslash
/// or a control character; a two-character escape; or `\u` and four hex
/// digits of a code point outside the surrogates.
pub open spec fn json_char_read(e: Seq<char>) -> Option<char> {
    if e.len() == 1 {
        if e[0] != '"' && e[0] != '\\' && e[0] as u32 >= 32 {
            Some(e[0])
        } else {
            None
        }
    } else if e.len() == 2 && e[0] == '\\' {
        if e[1] == '"' {
            Some('"')
        } else if e[1] == '\\' {
            Some('\\')
        } else if e[1] == '/' {
            Some('/')
        } else if e[1] == 'b' {
            Some('\u{8}')
        } else if e[1] == 'f' {
            Some('\u{c}')
        } else if e[1] == 'n' {
            Some('\n')
        } else if e[1] == 'r' {
            Some('\r')
        } else if e[1] == 't' {
            Some('\t')
        } else {
            None
        }
    } else if e.len() == 6 && e[0] == '\\' && e[1] == 'u' {
        match (hex_value(e[2]), hex_value(e[3]), hex_value(e[4]), hex_value(e[5])) {
            (Some(a), Some(b), Some(c), Some(d)) => {
                let v = a * 4096 + b * 256 + c * 16 + d;
                if v < 0xD800 || 0xE000 <= v {
                    Some(v as char)
                } else {
                    None
                }
            },
            _ => None,
        }
    } else {
        None
    }
}

/// A character other than a quote, a backslash or a control character
/// stands in a JSON string as itself.
pub proof fn law_json_plain_chars_stand_as_themselves(c: char)
    requires
        c != '"',
        c != '\\',
        c as u32 >= 32,
    ensures
        json_escape_char(c) == seq![c],
{
}

/// Every character is written as a valid element of a JSON string that a
/// JSON reader reads back as that very character.
pub proof fn law_json_escape_reads_back(c: char)
    ensures
        json_char_read(json_escape_char(c)) == Some(c),
{
    if !(c == '"' || c == '\\' || c == '\n' || c == '\r' || c == '\t' || c == '\u{8}' || c
        == '\u{c}') && (c as u32) < 32 {
        let n = c as u32;
        let hi = (n / 16) as nat;
        let lo = (n % 16) as nat;
        assert(hi < 2 && lo < 16);
        let e = json_escape_char(c);
        assert(e[2] == '0' && e[3] == '0');
        assert(hex_value(e[4]) == Some(hi as int));
        if lo < 10 {
            assert(hex_value(e[5]) == Some(lo as int));
        } else {
            assert(hex_value(e[5]) == Some(lo as int));
        }
        assert(hi * 16 + lo == n);
        assert((n as int) as char == c);
    }
}

/// Escaping works character by character: the escape of a joined text is
/// the escapes of its parts joined, and a single character is escaped as
/// `json_escape_char` escapes it.
pub proof fn law_json_escape_by_chars(s: Seq<char>, t: Seq<char>, c: char)
    ensures
        json_escape(s + t) == json_escape(s) + json_escape(t),
        json_escape(seq![c]) == json_escape_char(c),
    decreases t.len(),
{
    assert(seq![c].drop_last() =~= Seq::<char>::empty());
    assert(seq![c].last() == c);
    assert(json_escape(seq![c].drop_last()) =~= Seq::<char>::empty());
    assert(json_escape(seq![c]) =~= json_escape_char(c));
    if t.len() == 0 {
        assert(s + t =~= s);
        assert(json_escape(s) + json_escape(t) =~= json_escape(s));
    } else {
        law_json_escape_by_chars(s, t.drop_last(), c);
        assert((s + t).drop_last() =~= s + t.drop_last());
        assert((s + t).last() == t.last());
    }
}

/// Text without quotes, backslashes and control characters stands in a JSON
/// string as it is.
pub proof fn law_json_string_of_plain_text(s: Seq<char>)
    requires
        forall|i: int| 0 <= i < s.len() ==> #[trigger] s[i] != '"' && s[i] != '\\' && s[i] as u32 >= 32,
    ensures
        json_escape(s) == s,
        json_string(s) == seq!['"'] + s + seq!['"'],
    decreases s.len(),
{
    if s.len() > 0 {
        let d = s.drop_last();
        assert forall|i: int| 0 <= i < d.len() implies #[trigger] d[i] != '"' && d[i] != '\\' && d[i] as u32
            >= 32 by {
            assert(d[i] == s[i]);
        }
        law_json_string_of_plain_text(d);
        assert(s[s.len() - 1] == s.last());
        assert(d + seq![s.last()] =~= s);
    }
}

/// Escaped text holds no raw control character, as JSON requires of a string.
pub proof fn law_json_escape_has_no_control_chars(s: Seq<char>)
    ensures
        forall|i: int| 0 <= i < json_escape(s).len() ==> (#[trigger] json_escape(s)[i]) as u32 >= 32,
    decreases s.len(),
{
    if s.len() > 0 {
        law_json_escape_has_no_control_chars(s.drop_last());
        let a = json_escape(s.drop_last());
        let b = json_escape_char(s.last());
        let c = s.last();
        assert forall|i: int| 0 <= i < b.len() implies (#[trigger] b[i]) as u32 >= 32 by {
            if !(c == '"' || c == '\\' || c == '\n' || c == '\r' || c == '\t' || c == '\u{8}' || c
                == '\u{c}') && (c as u32) < 32 {
                let n = c as u32;
                assert(n / 16 < 16 && n % 16 < 16);
                assert(hex_digit((n / 16) as nat) as u32 >= 48);
                assert(hex_digit((n % 16) as nat) as u32 >= 48);
            }
        }
        assert forall|i: int| 0 <= i < json_escape(s).len() implies (#[trigger] json_escape(s)[i]) as u32
            >= 32 by {
            if i < a.len() {
                assert(json_escape(s)[i] == a[i]);
            } else {
                assert(json_escape(s)[i] == b[i - a.len()]);
            }
        }
    }
}

fn push_str(out: &mut String, s: &str)
    ensures
        final(out)@ == old(out)@ + s@,
{
    out.append(s);
}

fn push_hex_digit(out: &mut String, d: u32)
    requires
        d < 16,
    ensures
        final(out)@ == old(out)@.push(hex_digit(d as nat)),
{
    if d < 10 {
        push_char(out, (48u8 + d as u8) as char);
    } else {
        push_char(out, (87u8 + d as u8) as char);
    }
}

/// Appends the escaped form of one character.
fn push_json_escape_char(out: &mut String, c: char)
    ensures
        final(out)@ == old(out)@ + json_escape_char(c),
{
    let ghost before = out@;
    if c == '"' {
        push_char(out, '\\');
        push_char(out, '"');
    } else if c == '\\' {
        push_char(out, '\\');
        push_char(out, '\\');
    } else if c == '\n' {
        push_char(out, '\\');
        push_char(out, 'n');
    } else if c == '\r' {
        push_char(out, '\\');
        push_char(out, 'r');
    } else if c == '\t' {
        push_char(out, '\\');
        push_char(out, 't');
    } else if c == '\u{8}' {
        push_char(out, '\\');
        push_char(out, 'b');
    } else if c == '\u{c}' {
        push_char(out, '\\');
        push_char(out, 'f');
    } else if (c as u32) < 32 {
        let n = c as u32;
        push_char(out, '\\');
        push_char(out, 'u');
        push_char(out, '0');
        push_char(out, '0');
        push_hex_digit(out, n / 16);
        push_hex_digit(out, n % 16);
    } else {
        push_char(out, c);
    }
    assert(out@ =~= before + json_escape_char(c));
}

/// Appends a text as a JSON string.
pub fn push_json_string(out: &mut String, s: &str)
    ensures
        final(out)@ == old(out)@ + json_string(s@),
{
    let v = chars_of(s);
    let ghost start = out@;
    push_char(out, '"');
    let mut i: usize = 0;
    while i < v.len()
        invariant
            v@ == s@,
            i <= v.len(),
            out@ == start + seq!['"'] + json_escape(s@.take(i as int)),
        decreases v.len() - i,
    {
        push_json_escape_char(out, v[i]);
        assert(s@.take(i + 1).drop_last() =~= s@.take(i as int));
        assert(s@.take(i + 1).last() == s@[i as int]);
        i = i + 1;
    }
    push_char(out, '"');
    assert(s@.take(i as int) =~= s@);
    assert(out@ =~= start + json_string(s@));
}

/// Appends the items as a JSON array of strings.
pub fn push_json_string_array(out: &mut String, items: &Vec<String>)
    ensures
        final(out)@ == old(out)@ + json_string_array(items@.map_values(|s: String| s@)),
{
    let ghost start = out@;
    let ghost texts = items@.map_values(|s: String| s@);
    let ghost strs = texts.map_values(|s: Seq<char>| json_string(s));
    push_char(out, '[');
    let mut i: usize = 0;
    while i < items.len()
        invariant
            i <= items.len(),
            texts == items@.map_values(|s: String| s@),
            strs == texts.map_values(|s: Seq<char>| json_string(s)),
            out@ == start + seq!['['] + json_list(strs.take(i as int)),
        decreases items.len() - i,
    {
        assert(strs.take(i + 1).drop_last() =~= strs.take(i as int));
        assert(strs.take(i + 1).last() == json_string(items@[i as int]@));
        if i > 0 {
            push_char(out, ',');
        }
        push_json_string(out, items[i].as_str());
        proof {
            if i == 0 {
                assert(strs.take(1).len() == 1);
                assert(json_list(strs.take(0)) =~= Seq::<char>::empty());
            }
        }
        assert(out@ =~= start + seq!['['] + json_list(strs.take(i + 1)));
        i = i + 1;
    }
    push_char(out, ']');
    assert(strs.take(i as int) =~= strs);
}

// ---------------------------------------------------------------------------
// The body of a search request
// ---------------------------------------------------------------------------

/// The options of a search, as the HLTB site sends them, each object's
/// members in the order of their names.
pub open spec fn search_options_json() -> Seq<char> {
    "{\"filter\":\"\",\"games\":{\"gameplay\":{\"difficulty\":\"\",\"flow\":\"\",\"genre\":\"\",\"perspective\":\"\"},\"modifier\":\"\",\"platform\":\"\",\"rangeCategory\":\"main\",\"rangeTime\":{\"max\":null,\"min\":null},\"rangeYear\":{\"max\":\"\",\"min\":\"\"},\"sortCategory\":\"popular\",\"userId\":0},\"lists\":{\"sortCategory\":\"follows\"},\"randomizer\":0,\"sort\":0,\"users\":{\"sortCategory\":\"postcount\"}}"@
}

/// The members of a search for these terms, before the honeypot field, in
/// the order of their names.
pub open spec fn search_fields(terms: Seq<Seq<char>>) -> Seq<(Seq<char>, Seq<char>)> {
    seq![
        ("searchOptions"@, search_options_json()),
        ("searchPage"@, "1"@),
        ("searchTerms"@, json_string_array(terms)),
        ("searchType"@, json_string("games"@)),
        ("size"@, "20"@),
        ("useCache"@, "true"@),
    ]
}

/// Whether text `a` comes before text `b` when they are compared character
/// by character by code point, a proper prefix coming first.
pub open spec fn chars_less(a: Seq<char>, b: Seq<char>) -> bool
    decreases a.len(),
{
    if a.len() == 0 {
        b.len() > 0
    } else if b.len() == 0 {
        false
    } else if a[0] != b[0] {
        (a[0] as u32) < (b[0] as u32)
    } else {
        chars_less(a.skip(1), b.skip(1))
    }
}

/// How many members at the front of `fields` have names before `name`.
pub open spec fn insert_position(fields: Seq<(Seq<char>, Seq<char>)>, name: Seq<char>) -> nat
    decreases fields.len(),
{
    if fields.len() > 0 && chars_less(fields[0].0, name) {
        1 + insert_position(fields.skip(1), name)
    } else {
        0
    }
}

/// Sets the member `name` to the string `value` in members ordered by name:
/// in its place when the object has it, else where its name sorts.
pub open spec fn set_member(
    fields: Seq<(Seq<char>, Seq<char>)>,
    name: Seq<char>,
    value: Seq<char>,
) -> Seq<(Seq<char>, Seq<char>)> {
    if exists|i: int| 0 <= i < fields.len() && fields[i].0 == name {
        let i = choose|i: int|
            0 <= i < fields.len() && fields[i].0 == name && forall|j: int|
                0 <= j < i ==> fields[j].0 != name;
        fields.update(i, (name, json_string(value)))
    } else {
        fields.insert(insert_position(fields, name) as int, (name, json_string(value)))
    }
}

/// The JSON body of a search for `terms`, with the honeypot key and value as
/// one more member when the client has them.
pub open spec fn search_body_spec(terms: Seq<Seq<char>>, hp: Option<(Seq<char>, Seq<char>)>) -> Seq<char> {
    match hp {
        None => json_object(search_fields(terms)),
        Some((k, v)) => json_object(set_member(search_fields(terms), k, v)),
    }
}

/// The first member named `name`.
fn find_member(fields: &Vec<(String, String)>, name: &str) -> (r: Option<usize>)
    ensures
        r matches Some(i) ==> i < fields.len() && fields@[i as int].0@ == name@ && forall|j: int|
            0 <= j < i ==> fields@[j].0@ != name@,
        r is None ==> forall|j: int| 0 <= j < fields.len() ==> fields@[j].0@ != name@,
{
    let mut i: usize = 0;
    while i < fields.len()
        invariant
            i <= fields.len(),
            forall|j: int| 0 <= j < i ==> fields@[j].0@ != name@,
        decreases fields.len() - i,
    {
        if str_eq(fields[i].0.as_str(), name) {
            return Some(i);
        }
        i = i + 1;
    }
    None
}

/// Whether `a` comes before `b` in the order of their code points.
fn str_less(a: &str, b: &str) -> (r: bool)
    ensures
        r == chars_less(a@, b@),
{
    let x = chars_of(a);
    let y = chars_of(b);
    let mut i: usize = 0;
    assert(a@.skip(0) =~= a@);
    assert(b@.skip(0) =~= b@);
    while i < x.len() && i < y.len()
        invariant
            x@ == a@,
            y@ == b@,
            i <= x.len(),
            i <= y.len(),
            chars_less(a@, b@) == chars_less(a@.skip(i as int), b@.skip(i as int)),
        decreases x.len() - i,
    {
        assert(a@.skip(i as int)[0] == x@[i as int]);
        assert(b@.skip(i as int)[0] == y@[i as int]);
        if x[i] != y[i] {
            return (x[i] as u32) < (y[i] as u32);
        }
        assert(a@.skip(i as int).skip(1) =~= a@.skip(i + 1));
        assert(b@.skip(i as int).skip(1) =~= b@.skip(i + 1));
        i = i + 1;
    }
    i == x.len() && i < y.len()
}

/// Where a member named `name` goes among members ordered by name.
fn sorted_position(fields: &Vec<(String, String)>, name: &str) -> (p: usize)
    ensures
        p == insert_position(fields@.map_values(|f: (String, String)| (f.0@, f.1@)), name@),
        p <= fields.len(),
{
    let ghost fs = fields@.map_values(|f: (String, String)| (f.0@, f.1@));
    let mut p: usize = 0;
    assert(fs.skip(0) =~= fs);
    loop
        invariant
            p <= fields.len(),
            fs == fields@.map_values(|f: (String, String)| (f.0@, f.1@)),
            insert_position(fs, name@) == p + insert_position(fs.skip(p as int), name@),
        ensures
            p <= fields.len(),
            insert_position(fs, name@) == p,
        decreases fields.len() - p,
    {
        if p == fields.len() {
            assert(fs.skip(p as int).len() == 0);
            break;
        }
        assert(fs.skip(p as int)[0] == fs[p as int]);
        if !str_less(fields[p].0.as_str(), name) {
            break;
        }
        assert(fs.skip(p as int).skip(1) =~= fs.skip(p + 1));
        p = p + 1;
    }
    p
}

/// Appends the members as a JSON object.
fn push_json_object(out: &mut String, fields: &Vec<(String, String)>)
    ensures
        final(out)@ == old(out)@ + json_object(fields@.map_values(|f: (String, String)| (f.0@, f.1@))),
{
    let ghost start = out@;
    let ghost fs = fields@.map_values(|f: (String, String)| (f.0@, f.1@));
    let ghost ms = json_members(fs);
    push_char(out, '{');
    let mut i: usize = 0;
    while i < fields.len()
        invariant
            i <= fields.len(),
            fs == fields@.map_values(|f: (String, String)| (f.0@, f.1@)),
            ms == json_members(fs),
            out@ == start + seq!['{'] + json_list(ms.take(i as int)),
        decreases fields.len() - i,
    {
        let ghost before = out@;
        assert(ms.take(i + 1).drop_last() =~= ms.take(i as int));
        assert(ms.take(i + 1).last() == json_string(fields@[i as int].0@) + seq![':']
            + fields@[i as int].1@);
        if i > 0 {
            push_char(out, ',');
        }
        let ghost mid = out@;
        push_json_string(out, fields[i].0.as_str());
        push_char(out, ':');
        push_str(out, fields[i].1.as_str());
        assert(out@ =~= mid + (json_string(fields@[i as int].0@) + seq![':'] + fields@[i as int].1@));
        proof {
            if i == 0 {
                assert(ms.take(1).len() == 1);
                assert(json_list(ms.take(0)) =~= Seq::<char>::empty());
            }
        }
        assert(out@ =~= start + seq!['{'] + json_list(ms.take(i + 1)));
        i = i + 1;
    }
    push_char(out, '}');
    assert(ms.take(i as int) =~= ms);
}

/// The JSON body of a search for `terms`; `hp` is the honeypot key and value,
/// which is set as one more member (in place of a member of the same name).
pub fn search_body(terms: &Vec<String>, hp: &Option<(String, String)>) -> (body: String)
    ensures
        body@ == search_body_spec(
            terms@.map_values(|s: String| s@),
            match hp {
                Some(p) => Some((p.0@, p.1@)),
                None => None,
            },
        ),
{
    let ghost texts = terms@.map_values(|s: String| s@);
    let mut type_value = String::new();
    push_json_string(&mut type_value, "games");
    let mut terms_value = String::new();
    push_json_string_array(&mut terms_value, terms);
    let mut fields: Vec<(String, String)> = Vec::new();
    fields.push(
        (
            string_of("searchOptions"),
            string_of(
                "{\"filter\":\"\",\"games\":{\"gameplay\":{\"difficulty\":\"\",\"flow\":\"\",\"genre\":\"\",\"perspective\":\"\"},\"modifier\":\"\",\"platform\":\"\",\"rangeCategory\":\"main\",\"rangeTime\":{\"max\":null,\"min\":null},\"rangeYear\":{\"max\":\"\",\"min\":\"\"},\"sortCategory\":\"popular\",\"userId\":0},\"lists\":{\"sortCategory\":\"follows\"},\"randomizer\":0,\"sort\":0,\"users\":{\"sortCategory\":\"postcount\"}}",
            ),
        ),
    );
    fields.push((string_of("searchPage"), string_of("1")));
    fields.push((string_of("searchTerms"), terms_value));
    fields.push((string_of("searchType"), type_value));
    fields.push((string_of("size"), string_of("20")));
    fields.push((string_of("useCache"), string_of("true")));
    let ghost base = fields@.map_values(|f: (String, String)| (f.0@, f.1@));
    assert(base =~= search_fields(texts));
    match hp {
        None => {},
        Some((k, v)) => {
            let mut value = String::new();
            push_json_string(&mut value, v.as_str());
            match find_member(&fields, k.as_str()) {
                Some(i) => {
                    proof {
                        let c = choose|c: int|
                            0 <= c < base.len() && base[c].0 == k@ && forall|j: int|
                                0 <= j < c ==> base[j].0 != k@;
                        assert(0 <= i < base.len() && base[i as int].0 == k@);
                        if c < i {
                            assert(base[c].0 != k@);
                        } else if c > i {
                            assert(base[i as int].0 != k@);
                        }
                    }
                    fields.set(i, (string_of(k.as_str()), value));
                },
                None => {
                    let p = sorted_position(&fields, k.as_str());
                    fields.insert(p, (string_of(k.as_str()), value));
                },
            }
            assert(fields@.map_values(|f: (String, String)| (f.0@, f.1@)) =~= set_member(
                base,
                k@,
                v@,
            ));
        },
    }
    let mut body = String::new();
    push_json_object(&mut body, &fields);
    body
}

} // verus!
