use vstd::prelude::*;

use reqwest::header::{HeaderMap, HeaderName, HeaderValue};
use vstd::utf8::{encode_utf8, is_ascii_chars, is_ascii_chars_encode_utf8};

use crate::text::ascii_lowercase;

verus! {

broadcast use vstd::string::group_string_axioms;

// ---------------------------------------------------------------------------
// The outside types and what is known of them
// ---------------------------------------------------------------------------

/// reqwest's (http's) `HeaderMap`, opaque here; what it holds is named by
/// `header_entries`.
#[verifier::external_type_specification]
#[verifier::external_body]
#[verifier::reject_recursive_types(T)]
pub struct ExHeaderMap<T>(HeaderMap<T>);

/// reqwest's (http's) `HeaderValue`, opaque here; it only appears as the
/// value type of `HeaderMap`.
#[verifier::external_type_specification]
#[verifier::external_body]
pub struct ExHeaderValue(HeaderValue);

/// What a header map holds: for each header name (in its lower-case form)
/// the bytes of each of its values, in order.
pub uninterp spec fn header_entries(m: HeaderMap) -> Map<Seq<char>, Seq<Seq<u8>>>;

/// A character that may stand in a header name (an RFC 7230 `tchar`).
pub open spec fn is_token_char(c: char) -> bool {
    ||| 'a' <= c <= 'z'
    ||| 'A' <= c <= 'Z'
    ||| '0' <= c <= '9'
    ||| c == '!' || c == '#' || c == '$' || c == '%' || c == '&' || c == '\''
    ||| c == '*' || c == '+' || c == '-' || c == '.' || c == '^' || c == '_'
    ||| c == '`' || c == '|' || c == '~'
}

/// The header name that `s` denotes, in lower case, when it is a valid one.
pub open spec fn header_name_of(s: Seq<char>) -> Option<Seq<char>> {
    if 1 <= s.len() <= 65535 && forall|i: int| 0 <= i < s.len() ==> is_token_char(#[trigger] s[i]) {
        Some(ascii_lowercase(s))
    } else {
        None
    }
}

/// A valid header name already in its lower-case form.
pub open spec fn is_canonical_header_name(s: Seq<char>) -> bool {
    &&& 1 <= s.len() <= 65535
    &&& forall|i: int|
        0 <= i < s.len() ==> is_token_char(#[trigger] s[i]) && !('A' <= s[i] <= 'Z')
}

/// A string that can be a header value: no control character but tab.
pub open spec fn is_valid_header_value(s: Seq<char>) -> bool {
    forall|i: int|
        0 <= i < s.len() ==> #[trigger] s[i] == '\t' || (s[i] as u32 >= 32 && s[i] as u32 != 127)
}

/// The text of header-value bytes when all of them are visible ASCII or tab.
pub open spec fn visible_ascii_text(b: Seq<u8>) -> Option<Seq<char>> {
    if forall|i: int| 0 <= i < b.len() ==> #[trigger] b[i] == 9 || (32 <= b[i] && b[i] < 127) {
        Some(Seq::new(b.len(), |i: int| b[i] as char))
    } else {
        None
    }
}

/// `HeaderMap::new`: a map with no entries.
#[verifier::external_body]
fn new_header_map() -> (m: HeaderMap)
    ensures
        header_entries(m).dom() == Set::<Seq<char>>::empty(),
{
    HeaderMap::new()
}

/// `HeaderMap::keys_len`: the number of names that the map holds.
#[verifier::external_body]
fn header_map_keys_len(m: &HeaderMap) -> (n: usize)
    ensures
        n == header_entries(*m).dom().len(),
{
    m.keys_len()
}

/// `HeaderMap::contains_key` with a name already in lower case.
#[verifier::external_body]
fn header_map_contains(m: &HeaderMap, name: &str) -> (b: bool)
    requires
        is_canonical_header_name(name@),
    ensures
        b == header_entries(*m).contains_key(name@),
{
    m.contains_key(name)
}

/// `HeaderMap::get` with a name already in lower case: the first value of the
/// name (a name in the map always has one), handed out as its bytes.
#[verifier::external_body]
fn header_map_get(m: &HeaderMap, name: &str) -> (r: Option<Vec<u8>>)
    requires
        is_canonical_header_name(name@),
    ensures
        r is Some <==> header_entries(*m).contains_key(name@),
        r matches Some(v) ==> header_entries(*m)[name@].len() > 0 && v@ == header_entries(*m)[name@][0],
{
    match m.get(name) {
        Some(v) => Some(v.as_bytes().to_vec()),
        None => None,
    }
}

/// `HeaderMap::remove` with a name already in lower case: every value of the
/// name goes.
#[verifier::external_body]
fn header_map_remove(m: &mut HeaderMap, name: &str)
    requires
        is_canonical_header_name(name@),
    ensures
        header_entries(*final(m)) == header_entries(*old(m)).remove(name@),
{
    m.remove(name);
}

/// `HeaderMap::insert`: all previous values of the name are replaced by the
/// one value. The name and the value are turned into `HeaderName` and
/// `HeaderValue`, which the `requires` guarantees to succeed. The map's
/// capacity does not overflow while it has fewer than 6554 names.
#[verifier::external_body]
fn header_map_insert(m: &mut HeaderMap, name: &str, value: &str)
    requires
        is_canonical_header_name(name@),
        is_valid_header_value(value@),
        header_entries(*old(m)).dom().finite(),
        header_entries(*old(m)).dom().len() < 6554,
    ensures
        header_entries(*final(m)) == header_entries(*old(m)).insert(name@, seq![encode_utf8(value@)]),
{
    if let (Ok(n), Ok(v)) = (name.parse::<HeaderName>(), value.parse::<HeaderValue>()) {
        m.insert(n, v);
    }
}

/// `HeaderName::from_str`: a valid name is accepted and normalised to lower
/// case; the name is handed out as its text.
#[verifier::external_body]
fn parse_header_name(s: &str) -> (r: Option<String>)
    ensures
        r is Some <==> header_name_of(s@) is Some,
        r matches Some(n) ==> header_name_of(s@) == Some(n@),
{
    match s.parse::<HeaderName>() {
        Ok(n) => Some(n.as_str().to_string()),
        Err(_) => None,
    }
}

/// `HeaderValue::from_str`: whether the string is accepted as a header value.
#[verifier::external_body]
fn header_value_is_valid(s: &str) -> (b: bool)
    ensures
        b == is_valid_header_value(s@),
{
    s.parse::<HeaderValue>().is_ok()
}

/// The text of a header value when it is visible ASCII (`HeaderValue::to_str`).
pub fn header_value_text(b: &Vec<u8>) -> (r: Option<String>)
    ensures
        r is Some <==> visible_ascii_text(b@) is Some,
        r matches Some(t) ==> visible_ascii_text(b@) == Some(t@),
{
    let mut t = String::new();
    let mut i: usize = 0;
    while i < b.len()
        invariant
            i <= b.len(),
            t@ == Seq::new(i as nat, |k: int| b@[k] as char),
            forall|k: int| 0 <= k < i ==> #[trigger] b@[k] == 9 || (32 <= b@[k] && b@[k] < 127),
        decreases b.len() - i,
    {
        let x = b[i];
        if !(x == 9 || (32 <= x && x < 127)) {
            return None;
        }
        crate::text::push_char(&mut t, x as char);
        assert(t@ =~= Seq::new((i + 1) as nat, |k: int| b@[k] as char));
        i = i + 1;
    }
    assert(t@ =~= Seq::new(b@.len(), |k: int| b@[k] as char));
    Some(t)
}

// ---------------------------------------------------------------------------
// The authentication headers of the HLTB client
// ---------------------------------------------------------------------------

/// Why an authentication step failed.
#[derive(Debug, Clone, Copy, PartialEq, Eq, Structural)]
pub enum AuthError {
    /// A key of the init response does not make a valid header name.
    InvalidHeaderName,
    /// A value of the init response is not a valid header value.
    InvalidHeaderValue,
    /// The init response did not include token, hpKey and hpVal.
    MissingAuthHeaders,
}

/// The header that carries a field of the auth init response.
pub open spec fn auth_header_key(key: Seq<char>) -> Seq<char> {
    if key == "token"@ {
        "x-auth-token"@
    } else if key == "hpKey"@ {
        "x-hp-key"@
    } else if key == "hpVal"@ {
        "x-hp-val"@
    } else {
        "x-"@ + key
    }
}

/// The headers after an upsert of `key: value`, whether or not it succeeds:
/// the name is removed before the value is checked.
pub open spec fn upsert_entries(m: Map<Seq<char>, Seq<Seq<u8>>>, key: Seq<char>, value: Seq<char>) -> Map<
    Seq<char>,
    Seq<Seq<u8>>,
> {
    match header_name_of(key) {
        None => m,
        Some(n) => if is_valid_header_value(value) {
            m.insert(n, seq![encode_utf8(value)])
        } else {
            m.remove(n)
        },
    }
}

/// The error of an upsert of `key: value`, if any.
pub open spec fn upsert_error(key: Seq<char>, value: Seq<char>) -> Option<AuthError> {
    if header_name_of(key) is None {
        Some(AuthError::InvalidHeaderName)
    } else if !is_valid_header_value(value) {
        Some(AuthError::InvalidHeaderValue)
    } else {
        None
    }
}

/// The three headers that authenticate a search are present.
pub open spec fn has_required(m: Map<Seq<char>, Seq<Seq<u8>>>) -> bool {
    &&& m.contains_key("x-auth-token"@)
    &&& m.contains_key("x-hp-key"@)
    &&& m.contains_key("x-hp-val"@)
}

/// The honeypot key and value that a search carries in its body: the first
/// value of each header.
pub open spec fn hp_payload(m: Map<Seq<char>, Seq<Seq<u8>>>) -> Option<(Seq<char>, Seq<char>)> {
    if m.contains_key("x-hp-key"@) && m.contains_key("x-hp-val"@) {
        match (visible_ascii_text(m["x-hp-key"@][0]), visible_ascii_text(m["x-hp-val"@][0])) {
            (Some(k), Some(v)) => Some((k, v)),
            _ => None,
        }
    } else {
        None
    }
}

/// The headers and the error after the string fields of an auth init response
/// have been applied in order; the first error stops the rest.
pub open spec fn apply_fields(
    m: Map<Seq<char>, Seq<Seq<u8>>>,
    fields: Seq<(String, Option<String>)>,
) -> (Map<Seq<char>, Seq<Seq<u8>>>, Option<AuthError>)
    decreases fields.len(),
{
    if fields.len() == 0 {
        (m, None)
    } else {
        match fields[0].1 {
            None => apply_fields(m, fields.skip(1)),
            Some(v) => {
                let k = auth_header_key(fields[0].0@);
                let m2 = upsert_entries(m, k, v@);
                match upsert_error(k, v@) {
                    Some(e) => (m2, Some(e)),
                    None => apply_fields(m2, fields.skip(1)),
                }
            },
        }
    }
}

/// The result of applying an auth init response: its first error, else an
/// error when the required headers are still missing.
pub open spec fn apply_result(m: Map<Seq<char>, Seq<Seq<u8>>>, fields: Seq<(String, Option<String>)>) -> Result<
    (),
    AuthError,
> {
    let (m2, e) = apply_fields(m, fields);
    match e {
        Some(e) => Err(e),
        None => if has_required(m2) {
            Ok(())
        } else {
            Err(AuthError::MissingAuthHeaders)
        },
    }
}

/// Every header name holds exactly one value.
pub open spec fn one_value_each(m: Map<Seq<char>, Seq<Seq<u8>>>) -> bool {
    forall|n: Seq<char>| #[trigger] m.contains_key(n) ==> m[n].len() == 1
}

/// The header name that a field of the auth init response is stored under,
/// when its key makes a valid one.
pub open spec fn field_header(field: (String, Option<String>)) -> Option<Seq<char>> {
    header_name_of(auth_header_key(field.0@))
}

/// The number of fields whose value is a string.
pub open spec fn string_field_count(fields: Seq<(String, Option<String>)>) -> nat
    decreases fields.len(),
{
    if fields.len() == 0 {
        0
    } else {
        string_field_count(fields.drop_last()) + if fields.last().1 is Some {
            1nat
        } else {
            0nat
        }
    }
}

proof fn lemma_string_count_prefix(fields: Seq<(String, Option<String>)>, i: int)
    requires
        0 <= i <= fields.len(),
    ensures
        string_field_count(fields.take(i)) <= string_field_count(fields),
    decreases fields.len(),
{
    if i < fields.len() {
        assert(fields.drop_last().take(i) =~= fields.take(i));
        lemma_string_count_prefix(fields.drop_last(), i);
    } else {
        assert(fields.take(i) =~= fields);
    }
}

/// Visible ASCII characters and tab: what a header value shows as text.
pub open spec fn is_visible_ascii_text(s: Seq<char>) -> bool {
    forall|i: int| 0 <= i < s.len() ==> #[trigger] s[i] == '\t' || (' ' <= s[i] && s[i] <= '~')
}

proof fn lemma_lowercase_literal_name(s: Seq<char>)
    requires
        is_canonical_header_name(s),
    ensures
        header_name_of(s) == Some(s),
{
    assert(ascii_lowercase(s) =~= s);
}

proof fn lemma_visible_text_round_trip(s: Seq<char>)
    requires
        is_visible_ascii_text(s),
    ensures
        is_valid_header_value(s),
        visible_ascii_text(encode_utf8(s)) == Some(s),
{
    assert(is_ascii_chars(s));
    is_ascii_chars_encode_utf8(s);
    let b = encode_utf8(s);
    assert forall|i: int| 0 <= i < b.len() implies #[trigger] b[i] == 9 || (32 <= b[i] && b[i] < 127) by {
        assert(s[i] as u8 == b[i]);
    }
    assert(Seq::new(b.len(), |i: int| b[i] as char) =~= s) by {
        assert forall|i: int| 0 <= i < s.len() implies (b[i] as char) == s[i] by {
            assert(s[i] as u8 == b[i]);
        }
    }
}

/// What is written is read back: once the honeypot key and value headers are
/// set to visible-ASCII texts, the search body carries exactly these texts.
pub proof fn law_hp_payload_reads_back(m: Map<Seq<char>, Seq<Seq<u8>>>, key: Seq<char>, val: Seq<char>)
    requires
        is_visible_ascii_text(key),
        is_visible_ascii_text(val),
    ensures
        hp_payload(upsert_entries(upsert_entries(m, "x-hp-key"@, key), "x-hp-val"@, val)) == Some(
            (key, val),
        ),
{
    lemma_literal_names();
    reveal_strlit("x-hp-key");
    reveal_strlit("x-hp-val");
    lemma_lowercase_literal_name("x-hp-key"@);
    lemma_lowercase_literal_name("x-hp-val"@);
    lemma_visible_text_round_trip(key);
    lemma_visible_text_round_trip(val);
    assert("x-hp-key"@ != "x-hp-val"@) by {
        assert("x-hp-key"@[5] != "x-hp-val"@[5]);
    }
}

/// An accepted auth init response leaves the client authenticated: the token
/// and the honeypot key and value are all present.
pub proof fn law_accepted_init_authenticates(
    m: Map<Seq<char>, Seq<Seq<u8>>>,
    fields: Seq<(String, Option<String>)>,
)
    ensures
        apply_result(m, fields) is Ok ==> has_required(apply_fields(m, fields).0),
{
}

/// An accepted auth init response leaves the token, the honeypot key and the
/// honeypot value headers all present.
pub proof fn law_accepted_init_sets_all_auth_headers(
    m: Map<Seq<char>, Seq<Seq<u8>>>,
    fields: Seq<(String, Option<String>)>,
)
    requires
        apply_result(m, fields) is Ok,
    ensures
        apply_fields(m, fields).0.contains_key("x-auth-token"@),
        apply_fields(m, fields).0.contains_key("x-hp-key"@),
        apply_fields(m, fields).0.contains_key("x-hp-val"@),
{
}

/// An init response that is applied without error but leaves any of the
/// token, honeypot key and honeypot value headers missing is refused as
/// missing them.
pub proof fn law_incomplete_init_is_refused(
    m: Map<Seq<char>, Seq<Seq<u8>>>,
    fields: Seq<(String, Option<String>)>,
)
    requires
        apply_fields(m, fields).1 is None,
        !apply_fields(m, fields).0.contains_key("x-auth-token"@) || !apply_fields(m, fields).0.contains_key(
            "x-hp-key"@,
        ) || !apply_fields(m, fields).0.contains_key("x-hp-val"@),
    ensures
        apply_result(m, fields) == Err::<(), AuthError>(AuthError::MissingAuthHeaders),
{
}

/// Headers count as authenticating exactly when the token, the honeypot key
/// and the honeypot value are all present.
pub proof fn law_required_auth_headers(m: Map<Seq<char>, Seq<Seq<u8>>>)
    ensures
        has_required(m) <==> (m.contains_key("x-auth-token"@) && m.contains_key("x-hp-key"@)
            && m.contains_key("x-hp-val"@)),
{
}

/// An upsert with a valid name and value leaves that name holding exactly the
/// new value, its previous values replaced rather than added to; every other
/// name keeps what it held; an invalid name changes nothing.
pub proof fn law_upsert_replaces_values(
    m: Map<Seq<char>, Seq<Seq<u8>>>,
    key: Seq<char>,
    value: Seq<char>,
    other: Seq<char>,
)
    ensures
        header_name_of(key) is None ==> upsert_entries(m, key, value) == m,
        header_name_of(key) is Some && is_valid_header_value(value) ==> {
            &&& upsert_entries(m, key, value).contains_key(header_name_of(key)->0)
            &&& upsert_entries(m, key, value)[header_name_of(key)->0] == seq![encode_utf8(value)]
        },
        header_name_of(key) is Some && other != header_name_of(key)->0 ==> {
            &&& upsert_entries(m, key, value).contains_key(other) == m.contains_key(other)
            &&& m.contains_key(other) ==> upsert_entries(m, key, value)[other] == m[other]
        },
{
}

/// Upserts keep every header name at exactly one value.
pub proof fn law_upsert_keeps_one_value_each(
    m: Map<Seq<char>, Seq<Seq<u8>>>,
    key: Seq<char>,
    value: Seq<char>,
)
    requires
        one_value_each(m),
    ensures
        one_value_each(upsert_entries(m, key, value)),
{
}

/// The headers and result of ensuring authentication with headers `m`, where
/// `response` holds the string fields (and `None` for the others) that the
/// init request would answer: when the required headers are there nothing is
/// requested and nothing changes, else the response is applied.
pub open spec fn ensure_auth_spec(
    m: Map<Seq<char>, Seq<Seq<u8>>>,
    response: Seq<(String, Option<String>)>,
) -> (Map<Seq<char>, Seq<Seq<u8>>>, Result<(), AuthError>) {
    if has_required(m) {
        (m, Ok(()))
    } else {
        (apply_fields(m, response).0, apply_result(m, response))
    }
}

/// Ensuring authentication is idempotent: once it has succeeded, ensuring it
/// again succeeds, leaves the headers as they are and makes no use of any
/// init response, so no request is sent.
pub proof fn law_ensure_auth_idempotent(
    m: Map<Seq<char>, Seq<Seq<u8>>>,
    first: Seq<(String, Option<String>)>,
    second: Seq<(String, Option<String>)>,
)
    requires
        ensure_auth_spec(m, first).1 is Ok,
    ensures
        ensure_auth_spec(ensure_auth_spec(m, first).0, second) == (ensure_auth_spec(m, first).0, Ok::<
            (),
            AuthError,
        >(())),
{
    law_accepted_init_authenticates(m, first);
}

/// Applying an auth init response leaves alone every header that none of its
/// string fields is stored under.
pub proof fn law_init_fields_keep_other_headers(
    m: Map<Seq<char>, Seq<Seq<u8>>>,
    fields: Seq<(String, Option<String>)>,
    name: Seq<char>,
)
    requires
        forall|j: int|
            0 <= j < fields.len() && (#[trigger] fields[j]).1 is Some ==> field_header(fields[j])
                != Some(name),
    ensures
        apply_fields(m, fields).0.contains_key(name) == m.contains_key(name),
        m.contains_key(name) ==> apply_fields(m, fields).0[name] == m[name],
    decreases fields.len(),
{
    if fields.len() > 0 {
        let rest = fields.skip(1);
        assert forall|j: int|
            0 <= j < rest.len() && (#[trigger] rest[j]).1 is Some implies field_header(rest[j])
            != Some(name) by {
            assert(rest[j] == fields[j + 1]);
        }
        assert(fields[0] == fields[0]);
        match fields[0].1 {
            None => law_init_fields_keep_other_headers(m, rest, name),
            Some(v) => {
                let k = auth_header_key(fields[0].0@);
                law_init_fields_keep_other_headers(upsert_entries(m, k, v@), rest, name);
            },
        }
    }
}

/// After an auth init response is applied without error, each string field
/// that no later string field overrides has its header holding exactly the
/// field's value.
pub proof fn law_init_field_sets_its_header(
    m: Map<Seq<char>, Seq<Seq<u8>>>,
    fields: Seq<(String, Option<String>)>,
    i: int,
)
    requires
        0 <= i < fields.len(),
        fields[i].1 is Some,
        apply_fields(m, fields).1 is None,
        forall|j: int|
            i < j < fields.len() && (#[trigger] fields[j]).1 is Some ==> field_header(fields[j])
                != field_header(fields[i]),
    ensures
        field_header(fields[i]) is Some,
        apply_fields(m, fields).0.contains_key(field_header(fields[i])->0),
        apply_fields(m, fields).0[field_header(fields[i])->0] == seq![encode_utf8(fields[i].1->0@)],
    decreases fields.len(),
{
    let rest = fields.skip(1);
    if i == 0 {
        let v = fields[0].1->0;
        let k = auth_header_key(fields[0].0@);
        let n = header_name_of(k)->0;
        assert forall|j: int|
            0 <= j < rest.len() && (#[trigger] rest[j]).1 is Some implies field_header(rest[j])
            != Some(n) by {
            assert(rest[j] == fields[j + 1]);
        }
        law_init_fields_keep_other_headers(upsert_entries(m, k, v@), rest, n);
    } else {
        assert forall|j: int|
            i - 1 < j < rest.len() && (#[trigger] rest[j]).1 is Some implies field_header(rest[j])
            != field_header(rest[i - 1]) by {
            assert(rest[j] == fields[j + 1]);
        }
        assert(rest[i - 1] == fields[i]);
        match fields[0].1 {
            None => law_init_field_sets_its_header(m, rest, i - 1),
            Some(v) => {
                let k = auth_header_key(fields[0].0@);
                law_init_field_sets_its_header(upsert_entries(m, k, v@), rest, i - 1);
            },
        }
    }
}

/// The authentication headers that the HLTB client sends with its requests.
pub struct AuthHeaders {
    map: HeaderMap,
}

impl View for AuthHeaders {
    type V = Map<Seq<char>, Seq<Seq<u8>>>;

    closed spec fn view(&self) -> Map<Seq<char>, Seq<Seq<u8>>> {
        header_entries(self.map)
    }
}

proof fn lemma_literal_names()
    ensures
        is_canonical_header_name("x-auth-token"@),
        is_canonical_header_name("x-hp-key"@),
        is_canonical_header_name("x-hp-val"@),
{
    reveal_strlit("x-auth-token");
    reveal_strlit("x-hp-key");
    reveal_strlit("x-hp-val");
}

/// A lower-cased valid name is canonical.
proof fn lemma_header_name_canonical(s: Seq<char>)
    requires
        header_name_of(s) is Some,
    ensures
        is_canonical_header_name(header_name_of(s)->0),
{
    let n = header_name_of(s)->0;
    assert forall|i: int| 0 <= i < n.len() implies is_token_char(#[trigger] n[i]) && !('A' <= n[i]
        <= 'Z') by {
        assert(is_token_char(s[i]));
        if 'A' <= s[i] <= 'Z' {
            assert(n[i] == ((s[i] as u32) + 32) as char);
        }
    }
}

impl AuthHeaders {
    #[verifier::type_invariant]
    spec fn inv(self) -> bool {
        &&& header_entries(self.map).dom().finite()
        &&& one_value_each(header_entries(self.map))
    }

    /// No authentication headers yet.
    pub fn new() -> (h: AuthHeaders)
        ensures
            h@ == Map::<Seq<char>, Seq<Seq<u8>>>::empty(),
    {
        AuthHeaders { map: new_header_map() }
    }

    /// The number of header names held.
    pub fn names_len(&self) -> (n: usize)
        ensures
            n == self@.dom().len(),
    {
        header_map_keys_len(&self.map)
    }

    /// The headers as a map that a request can carry.
    pub fn header_map(&self) -> (m: &HeaderMap)
        ensures
            header_entries(*m) == self@,
    {
        &self.map
    }

    /// Whether the token and the honeypot key and value are all present.
    pub fn has_required_auth_headers(&self) -> (b: bool)
        ensures
            b == has_required(self@),
    {
        proof {
            lemma_literal_names();
        }
        header_map_contains(&self.map, "x-auth-token") && header_map_contains(&self.map, "x-hp-key")
            && header_map_contains(&self.map, "x-hp-val")
    }

    /// Sets the header `header_key` to `value`, replacing its previous values.
    /// An invalid name leaves the headers unchanged; with an invalid value the
    /// name has already been removed.
    pub fn upsert_auth_header(&mut self, header_key: &str, value: &str) -> (r: Result<(), AuthError>)
        requires
            old(self)@.dom().len() < 6554,
        ensures
            final(self)@ == upsert_entries(old(self)@, header_key@, value@),
            one_value_each(final(self)@),
            r matches Err(e) ==> upsert_error(header_key@, value@) == Some(e),
            r is Ok ==> upsert_error(header_key@, value@) is None,
    {
        proof {
            use_type_invariant(&*self);
        }
        let name = match parse_header_name(header_key) {
            Some(n) => n,
            None => return Err(AuthError::InvalidHeaderName),
        };
        proof {
            lemma_header_name_canonical(header_key@);
        }
        let mut map = new_header_map();
        std::mem::swap(&mut map, &mut self.map);
        header_map_remove(&mut map, name.as_str());
        if !header_value_is_valid(value) {
            self.map = map;
            return Err(AuthError::InvalidHeaderValue);
        }
        proof {
            vstd::set::axiom_set_remove_len(old(self)@.dom(), name@);
        }
        header_map_insert(&mut map, name.as_str(), value);
        self.map = map;
        Ok(())
    }

    /// The honeypot key and value, when both headers are present and visible
    /// ASCII.
    pub fn hp_payload_field(&self) -> (r: Option<(String, String)>)
        ensures
            r is Some <==> hp_payload(self@) is Some,
            r matches Some(p) ==> hp_payload(self@) == Some((p.0@, p.1@)),
    {
        proof {
            lemma_literal_names();
        }
        let key_bytes = match header_map_get(&self.map, "x-hp-key") {
            Some(b) => b,
            None => return None,
        };
        let hp_key = match header_value_text(&key_bytes) {
            Some(t) => t,
            None => return None,
        };
        let val_bytes = match header_map_get(&self.map, "x-hp-val") {
            Some(b) => b,
            None => return None,
        };
        let hp_val = match header_value_text(&val_bytes) {
            Some(t) => t,
            None => return None,
        };
        Some((hp_key, hp_val))
    }

    /// Applies the fields of an auth init response (`None` for a field whose
    /// value is not a string, which is skipped): each string field is stored
    /// under its header, and the required headers must be present at the end.
    pub fn apply_init_response(&mut self, fields: &Vec<(String, Option<String>)>) -> (r: Result<
        (),
        AuthError,
    >)
        requires
            old(self)@.dom().len() + string_field_count(fields@) < 6554,
        ensures
            final(self)@ == apply_fields(old(self)@, fields@).0,
            one_value_each(final(self)@),
            r == apply_result(old(self)@, fields@),
    {
        let mut i: usize = 0;
        assert(fields@.skip(0) =~= fields@);
        assert(fields@.take(0) =~= Seq::<(String, Option<String>)>::empty());
        while i < fields.len()
            invariant
                i <= fields.len(),
                self@.dom().len() <= old(self)@.dom().len() + string_field_count(fields@.take(i as int)),
                old(self)@.dom().len() + string_field_count(fields@) < 6554,
                apply_fields(old(self)@, fields@) == apply_fields(self@, fields@.skip(i as int)),
            decreases fields.len() - i,
        {
            proof {
                use_type_invariant(&*self);
                assert(fields@.skip(i as int)[0] == fields@[i as int]);
                assert(fields@.skip(i as int).skip(1) =~= fields@.skip(i + 1));
                assert(fields@.take(i + 1).drop_last() =~= fields@.take(i as int));
                lemma_string_count_prefix(fields@, i + 1);
            }
            let (key, value) = &fields[i];
            match value {
                None => {},
                Some(v) => {
                    let header_key = map_auth_key(key.as_str());
                    let ghost before = self@;
                    let res = self.upsert_auth_header(header_key.as_str(), v.as_str());
                    proof {
                        use_type_invariant(&*self);
                        if header_name_of(header_key@) is Some && is_valid_header_value(v@) {
                            vstd::set::axiom_set_insert_len(before.dom(), header_name_of(header_key@)->0);
                        } else if header_name_of(header_key@) is Some {
                            vstd::set::axiom_set_remove_len(before.dom(), header_name_of(header_key@)->0);
                        }
                    }
                    if res.is_err() {
                        proof {
                            use_type_invariant(&*self);
                        }
                        return res;
                    }
                },
            }
            i = i + 1;
        }
        assert(fields@.skip(i as int).len() == 0);
        proof {
            use_type_invariant(&*self);
        }
        if !self.has_required_auth_headers() {
            return Err(AuthError::MissingAuthHeaders);
        }
        Ok(())
    }
}

/// The header that carries a field of the auth init response.
pub fn map_auth_key(key: &str) -> (h: String)
    ensures
        h@ == auth_header_key(key@),
{
    let k = String::from_str(key);
    if k == String::from_str("token") {
        String::from_str("x-auth-token")
    } else if k == String::from_str("hpKey") {
        String::from_str("x-hp-key")
    } else if k == String::from_str("hpVal") {
        String::from_str("x-hp-val")
    } else {
        let mut h = String::from_str("x-");
        h.append(key);
        h
    }
}

} // verus!
