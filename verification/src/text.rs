use vstd::prelude::*;

verus! {

broadcast use vstd::string::group_string_axioms;

// ---------------------------------------------------------------------------
// Specifications over character sequences
// ---------------------------------------------------------------------------

/// `p` occurs in `s` starting at index `i`.
pub open spec fn occurs_at(s: Seq<char>, p: Seq<char>, i: int) -> bool {
    0 <= i && i + p.len() <= s.len() && s.subrange(i, i + p.len()) == p
}

/// `p` occurs somewhere in `s`.
pub open spec fn contains_seq(s: Seq<char>, p: Seq<char>) -> bool {
    exists|i: int| occurs_at(s, p, i)
}

/// `k` is the leftmost index, at or after `from`, at which `p` occurs in `s`.
pub open spec fn first_occurrence_from(s: Seq<char>, p: Seq<char>, from: int, k: int) -> bool {
    &&& from <= k
    &&& occurs_at(s, p, k)
    &&& forall|j: int| from <= j < k ==> !occurs_at(s, p, j)
}

/// Replaces every non-overlapping occurrence of the non-empty pattern `p` in `s`
/// by `r`, scanning from left to right (the behaviour of `str::replace`).
pub open spec fn replace_all(s: Seq<char>, p: Seq<char>, r: Seq<char>) -> Seq<char>
    decreases s.len(),
{
    if p.len() == 0 || s.len() < p.len() {
        s
    } else if s.take(p.len() as int) == p {
        r + replace_all(s.skip(p.len() as int), p, r)
    } else {
        seq![s[0]] + replace_all(s.skip(1), p, r)
    }
}

/// The character of the decimal digit `d` (`0 <= d < 10`).
pub open spec fn digit_char(d: nat) -> char {
    (48 + d) as char
}

/// The decimal notation of a natural number, without leading zeros.
pub open spec fn decimal(n: nat) -> Seq<char>
    decreases n,
{
    if n < 10 {
        seq![digit_char(n)]
    } else {
        decimal(n / 10).push(digit_char(n % 10))
    }
}

/// The decimal notation of an integer, with a leading `-` when it is negative
/// (what `{}` prints for a Rust integer).
pub open spec fn decimal_int(n: int) -> Seq<char> {
    if n < 0 {
        seq!['-'] + decimal((-n) as nat)
    } else {
        decimal(n as nat)
    }
}

/// ASCII lower-casing of one character; other characters are unchanged.
pub open spec fn ascii_lower_char(c: char) -> char {
    if 'A' <= c && c <= 'Z' {
        ((c as u32) + 32) as char
    } else {
        c
    }
}

/// ASCII lower-casing of a character sequence (`str::to_ascii_lowercase`).
pub open spec fn ascii_lowercase(s: Seq<char>) -> Seq<char> {
    Seq::new(s.len(), |i: int| ascii_lower_char(s[i]))
}

// ---------------------------------------------------------------------------
// Lemmas
// ---------------------------------------------------------------------------

/// A sequence shorter than the pattern is left as it is.
pub proof fn lemma_replace_short(s: Seq<char>, p: Seq<char>, r: Seq<char>)
    requires
        p.len() > 0,
        s.len() < p.len(),
    ensures
        replace_all(s, p, r) == s,
{
}

/// Peeling one character off the front when no match starts there.
pub proof fn lemma_replace_step_char(s: Seq<char>, p: Seq<char>, r: Seq<char>)
    requires
        p.len() > 0,
        s.len() > 0,
        !occurs_at(s, p, 0),
    ensures
        replace_all(s, p, r) == seq![s[0]] + replace_all(s.skip(1), p, r),
{
    if s.len() < p.len() {
        lemma_replace_short(s.skip(1), p, r);
        assert(s =~= seq![s[0]] + s.skip(1));
    } else {
        assert(s.take(p.len() as int) =~= s.subrange(0, p.len() as int));
    }
}

/// Peeling one match off the front.
pub proof fn lemma_replace_step_match(s: Seq<char>, p: Seq<char>, r: Seq<char>)
    requires
        p.len() > 0,
        occurs_at(s, p, 0),
    ensures
        replace_all(s, p, r) == r + replace_all(s.skip(p.len() as int), p, r),
{
    assert(s.take(p.len() as int) =~= s.subrange(0, p.len() as int));
}

/// Replacing in a sequence in which the pattern does not occur changes nothing.
pub proof fn lemma_replace_absent(s: Seq<char>, p: Seq<char>, r: Seq<char>)
    requires
        p.len() > 0,
        !contains_seq(s, p),
    ensures
        replace_all(s, p, r) == s,
    decreases s.len(),
{
    if s.len() >= p.len() {
        assert(!occurs_at(s, p, 0));
        assert(s.take(p.len() as int) =~= s.subrange(0, p.len() as int));
        assert forall|i: int| !occurs_at(s.skip(1), p, i) by {
            if occurs_at(s.skip(1), p, i) {
                assert(s.subrange(i + 1, i + 1 + p.len()) =~= s.skip(1).subrange(i, i + p.len()));
                assert(occurs_at(s, p, i + 1));
            }
        }
        lemma_replace_absent(s.skip(1), p, r);
        assert(s =~= seq![s[0]] + s.skip(1));
    }
}

/// Every decimal notation is a non-empty sequence of digits.
pub proof fn lemma_decimal_digits(n: nat)
    ensures
        decimal(n).len() >= 1,
        forall|i: int| 0 <= i < decimal(n).len() ==> '0' <= #[trigger] decimal(n)[i] <= '9',
    decreases n,
{
    if n >= 10 {
        lemma_decimal_digits(n / 10);
    }
}

/// `c` does not occur in `s`.
pub open spec fn lacks_char(s: Seq<char>, c: char) -> bool {
    forall|i: int| 0 <= i < s.len() ==> s[i] != c
}

/// Replacing cannot bring in a character that neither the text nor the
/// replacement holds.
pub proof fn lemma_replace_keeps_lacking(s: Seq<char>, p: Seq<char>, r: Seq<char>, c: char)
    requires
        p.len() > 0,
        lacks_char(s, c),
        lacks_char(r, c),
    ensures
        lacks_char(replace_all(s, p, r), c),
    decreases s.len(),
{
    if s.len() >= p.len() {
        if s.take(p.len() as int) == p {
            let rest = s.skip(p.len() as int);
            assert(lacks_char(rest, c)) by {
                assert forall|i: int| 0 <= i < rest.len() implies rest[i] != c by {
                    assert(rest[i] == s[i + p.len()]);
                }
            }
            lemma_replace_keeps_lacking(rest, p, r, c);
        } else {
            let rest = s.skip(1);
            assert(lacks_char(rest, c)) by {
                assert forall|i: int| 0 <= i < rest.len() implies rest[i] != c by {
                    assert(rest[i] == s[i + 1]);
                }
            }
            lemma_replace_keeps_lacking(rest, p, r, c);
        }
    }
}

/// Replacing a single character by a text without it removes the character.
pub proof fn lemma_replace_char_removes(s: Seq<char>, c: char, r: Seq<char>)
    requires
        lacks_char(r, c),
    ensures
        lacks_char(replace_all(s, seq![c], r), c),
    decreases s.len(),
{
    if s.len() >= 1 {
        lemma_replace_char_removes(s.skip(1), c, r);
        if s.take(1) == seq![c] {
        } else {
            assert(s[0] != c) by {
                if s[0] == c {
                    assert(s.take(1) =~= seq![c]);
                }
            }
        }
    }
}

/// A prefix in which the pattern's first character does not occur passes
/// through a replacement unchanged.
pub proof fn lemma_replace_peel(x: Seq<char>, y: Seq<char>, p: Seq<char>, r: Seq<char>)
    requires
        p.len() > 0,
        lacks_char(x, p[0]),
    ensures
        replace_all(x + y, p, r) == x + replace_all(y, p, r),
    decreases x.len(),
{
    if x.len() == 0 {
        assert(x + y =~= y);
    } else {
        let s = x + y;
        assert(s[0] == x[0]);
        assert(!occurs_at(s, p, 0)) by {
            if occurs_at(s, p, 0) {
                assert(s.subrange(0, p.len() as int)[0] == p[0]);
            }
        }
        lemma_replace_step_char(s, p, r);
        assert(s.skip(1) =~= x.skip(1) + y);
        assert(lacks_char(x.skip(1), p[0])) by {
            assert forall|i: int| 0 <= i < x.skip(1).len() implies x.skip(1)[i] != p[0] by {
                assert(x.skip(1)[i] == x[i + 1]);
            }
        }
        lemma_replace_peel(x.skip(1), y, p, r);
        assert(x =~= seq![x[0]] + x.skip(1));
    }
}

/// `p` occurs in `s` shifted by one character when it occurs in `s.skip(1)`.
proof fn lemma_contains_skip(s: Seq<char>, p: Seq<char>)
    requires
        s.len() > 0,
        contains_seq(s.skip(1), p),
    ensures
        contains_seq(s, p),
{
    let i = choose|i: int| occurs_at(s.skip(1), p, i);
    assert(s.subrange(i + 1, i + 1 + p.len()) =~= s.skip(1).subrange(i, i + p.len()));
    assert(occurs_at(s, p, i + 1));
}

/// A text that lacks the first character of a pattern does not hold it.
pub proof fn lemma_absent_lacking_first(s: Seq<char>, p: Seq<char>)
    requires
        p.len() > 0,
        lacks_char(s, p[0]),
    ensures
        !contains_seq(s, p),
{
    assert forall|i: int| !occurs_at(s, p, i) by {
        if occurs_at(s, p, i) {
            assert(s.subrange(i, i + p.len())[0] == s[i]);
        }
    }
}

/// Two texts without `p` joined where `p` cannot continue past the end of
/// the first hold no `p`.
pub proof fn lemma_absent_concat_end(a: Seq<char>, b: Seq<char>, p: Seq<char>)
    requires
        !contains_seq(a, p),
        !contains_seq(b, p),
        a.len() > 0 ==> lacks_char(p, a.last()),
    ensures
        !contains_seq(a + b, p),
{
    let s = a + b;
    assert forall|i: int| !occurs_at(s, p, i) by {
        if occurs_at(s, p, i) {
            if i + p.len() <= a.len() {
                assert(a.subrange(i, i + p.len()) =~= s.subrange(i, i + p.len()));
                assert(occurs_at(a, p, i));
            } else if i >= a.len() {
                assert(b.subrange(i - a.len(), i - a.len() + p.len()) =~= s.subrange(i, i + p.len()));
                assert(occurs_at(b, p, i - a.len()));
            } else {
                let m = a.len() - 1 - i;
                assert(s.subrange(i, i + p.len())[m] == s[a.len() - 1]);
                assert(p[m] == a.last());
            }
        }
    }
}

/// Two texts without `p` joined where `p` cannot continue into the start of
/// the second hold no `p`.
pub proof fn lemma_absent_concat_start(a: Seq<char>, b: Seq<char>, p: Seq<char>)
    requires
        !contains_seq(a, p),
        !contains_seq(b, p),
        b.len() > 0 ==> lacks_char(p, b[0]),
    ensures
        !contains_seq(a + b, p),
{
    let s = a + b;
    assert forall|i: int| !occurs_at(s, p, i) by {
        if occurs_at(s, p, i) {
            if i + p.len() <= a.len() {
                assert(a.subrange(i, i + p.len()) =~= s.subrange(i, i + p.len()));
                assert(occurs_at(a, p, i));
            } else if i >= a.len() {
                assert(b.subrange(i - a.len(), i - a.len() + p.len()) =~= s.subrange(i, i + p.len()));
                assert(occurs_at(b, p, i - a.len()));
            } else {
                let m = a.len() - i;
                assert(s.subrange(i, i + p.len())[m] == s[a.len() as int]);
                assert(p[m] == b[0]);
            }
        }
    }
}

/// Peeling a text off the front of a replacement when the pattern neither
/// occurs in it nor runs on past its end.
pub proof fn lemma_replace_peel_clear(x: Seq<char>, y: Seq<char>, p: Seq<char>, r: Seq<char>)
    requires
        p.len() > 0,
        !contains_seq(x, p),
        x.len() > 0 ==> lacks_char(p, x.last()),
    ensures
        replace_all(x + y, p, r) == x + replace_all(y, p, r),
    decreases x.len(),
{
    if x.len() == 0 {
        assert(x + y =~= y);
    } else {
        let s = x + y;
        assert(!occurs_at(s, p, 0)) by {
            if occurs_at(s, p, 0) {
                if p.len() <= x.len() {
                    assert(x.subrange(0, p.len() as int) =~= s.subrange(0, p.len() as int));
                    assert(occurs_at(x, p, 0));
                } else {
                    assert(s.subrange(0, p.len() as int)[x.len() - 1] == x.last());
                }
            }
        }
        lemma_replace_step_char(s, p, r);
        assert(s.skip(1) =~= x.skip(1) + y);
        assert(!contains_seq(x.skip(1), p)) by {
            if contains_seq(x.skip(1), p) {
                lemma_contains_skip(x, p);
            }
        }
        if x.len() > 1 {
            assert(x.skip(1).last() == x.last());
        }
        lemma_replace_peel_clear(x.skip(1), y, p, r);
        assert(x =~= seq![x[0]] + x.skip(1));
        assert(s[0] == x[0]);
    }
}

proof fn lemma_replace_char_prefix(s: Seq<char>, c: char, r: Seq<char>, w: Seq<char>)
    requires
        r.len() > 0,
        lacks_char(w, r[0]),
        occurs_at(replace_all(s, seq![c], r), w, 0),
    ensures
        occurs_at(s, w, 0),
    decreases s.len(),
{
    let q = seq![c];
    let rs = replace_all(s, q, r);
    if w.len() == 0 {
        assert(s.subrange(0, 0) =~= w);
    } else if s.len() == 0 {
    } else if s.take(1) == q {
        assert(rs == r + replace_all(s.skip(1), q, r));
        assert(rs.subrange(0, w.len() as int)[0] == rs[0]);
        assert(rs[0] == r[0]);
    } else {
        let rest = replace_all(s.skip(1), q, r);
        assert(rs == seq![s[0]] + rest);
        let w1 = w.skip(1);
        assert(rest.subrange(0, w1.len() as int) =~= rs.subrange(0, w.len() as int).skip(1));
        assert(lacks_char(w1, r[0])) by {
            assert forall|i: int| 0 <= i < w1.len() implies w1[i] != r[0] by {
                assert(w1[i] == w[i + 1]);
            }
        }
        lemma_replace_char_prefix(s.skip(1), c, r, w1);
        assert(rs.subrange(0, w.len() as int)[0] == s[0]);
        assert(s.subrange(0, w.len() as int) =~= seq![s[0]] + s.skip(1).subrange(0, w1.len() as int));
        assert(w =~= seq![w[0]] + w1);
    }
}

/// Replacing a character by a text cannot make a pattern appear when the
/// text's first character is not in the pattern and the pattern's first
/// character is not in the text.
pub proof fn lemma_replace_char_keeps_absent(s: Seq<char>, c: char, r: Seq<char>, w: Seq<char>)
    requires
        r.len() > 0,
        w.len() > 0,
        lacks_char(w, r[0]),
        lacks_char(r, w[0]),
        !contains_seq(s, w),
    ensures
        !contains_seq(replace_all(s, seq![c], r), w),
    decreases s.len(),
{
    let q = seq![c];
    let rs = replace_all(s, q, r);
    if s.len() > 0 {
        assert(!contains_seq(s.skip(1), w)) by {
            if contains_seq(s.skip(1), w) {
                lemma_contains_skip(s, w);
            }
        }
        lemma_replace_char_keeps_absent(s.skip(1), c, r, w);
        let rest = replace_all(s.skip(1), q, r);
        let x = if s.take(1) == q {
            r
        } else {
            seq![s[0]]
        };
        assert(rs == x + rest);
        assert forall|i: int| !occurs_at(rs, w, i) by {
            if occurs_at(rs, w, i) {
                if i == 0 && s.take(1) != q {
                    lemma_replace_char_prefix(s, c, r, w);
                    assert(occurs_at(s, w, 0));
                } else if i < x.len() {
                    assert(rs.subrange(i, i + w.len())[0] == rs[i]);
                    assert(rs[i] == r[i]);
                } else {
                    assert(rest.subrange(i - x.len(), i - x.len() + w.len()) =~= rs.subrange(
                        i,
                        i + w.len(),
                    ));
                    assert(occurs_at(rest, w, i - x.len()));
                }
            }
        }
    }
}

/// An owned copy of a text.
pub(crate) fn string_of(s: &str) -> (r: String)
    ensures
        r@ == s@,
{
    String::from_str(s)
}

/// Whether two texts are equal.
pub(crate) fn str_eq(a: &str, b: &str) -> (r: bool)
    ensures
        r == (a@ == b@),
{
    string_of(a) == string_of(b)
}

/// A character of a decimal notation: a digit or the minus sign.
pub open spec fn is_decimal_char(c: char) -> bool {
    ('0' <= c && c <= '9') || c == '-'
}

/// Decimal notations are made of digits and a leading minus sign.
pub proof fn lemma_decimal_int_chars(n: int)
    ensures
        decimal_int(n).len() >= 1,
        forall|i: int| 0 <= i < decimal_int(n).len() ==> is_decimal_char(#[trigger] decimal_int(n)[i]),
        n < 0 ==> decimal_int(n)[0] == '-',
        n >= 0 ==> '0' <= decimal_int(n)[0] <= '9',
{
    if n < 0 {
        lemma_decimal_digits((-n) as nat);
        assert forall|i: int| 0 <= i < decimal_int(n).len() implies is_decimal_char(
            #[trigger] decimal_int(n)[i],
        ) by {
            if i > 0 {
                assert(decimal_int(n)[i] == decimal((-n) as nat)[i - 1]);
            }
        }
    } else {
        lemma_decimal_digits(n as nat);
    }
}

proof fn lemma_decimal_short(n: nat)
    ensures
        decimal(n).len() == 1 <==> n < 10,
{
    if n >= 10 {
        lemma_decimal_digits(n / 10);
    }
}

/// Different numbers have different decimal notations.
pub proof fn lemma_decimal_injective(a: nat, b: nat)
    requires
        decimal(a) == decimal(b),
    ensures
        a == b,
    decreases a,
{
    lemma_decimal_short(a);
    lemma_decimal_short(b);
    if a < 10 {
        assert(decimal(a)[0] == digit_char(a));
        assert(decimal(b)[0] == digit_char(b));
        assert((48 + a) as char as u32 == 48 + a);
        assert((48 + b) as char as u32 == 48 + b);
    } else {
        assert(decimal(a).last() == digit_char(a % 10));
        assert(decimal(b).last() == digit_char(b % 10));
        assert((48 + a % 10) as char as u32 == 48 + a % 10);
        assert((48 + b % 10) as char as u32 == 48 + b % 10);
        assert(decimal(a).drop_last() =~= decimal(a / 10));
        assert(decimal(b).drop_last() =~= decimal(b / 10));
        lemma_decimal_injective(a / 10, b / 10);
    }
}

/// Different integers have different decimal notations.
pub proof fn lemma_decimal_int_injective(a: int, b: int)
    requires
        decimal_int(a) == decimal_int(b),
    ensures
        a == b,
{
    lemma_decimal_int_chars(a);
    lemma_decimal_int_chars(b);
    if a < 0 && b < 0 {
        assert(decimal_int(a).skip(1) =~= decimal((-a) as nat));
        assert(decimal_int(b).skip(1) =~= decimal((-b) as nat));
        lemma_decimal_injective((-a) as nat, (-b) as nat);
    } else if a >= 0 && b >= 0 {
        lemma_decimal_injective(a as nat, b as nat);
    }
}

// ---------------------------------------------------------------------------
// Executable helpers
// ---------------------------------------------------------------------------

/// Appends one character to a `String` (std's `String::push`).
#[verifier::external_body]
pub fn push_char(s: &mut String, c: char)
    ensures
        final(s)@ == old(s)@.push(c),
{
    s.push(c)
}

/// The characters of a string slice, in order.
pub fn chars_of(s: &str) -> (v: Vec<char>)
    ensures
        v@ == s@,
{
    let mut v: Vec<char> = Vec::new();
    for c in it: s.chars()
        invariant
            v@ == it.history(),
    {
        v.push(c);
    }
    v
}

/// Appends the characters `v[from..to]` to `out`.
pub fn push_chars(out: &mut String, v: &Vec<char>, from: usize, to: usize)
    requires
        from <= to <= v.len(),
    ensures
        final(out)@ == old(out)@ + v@.subrange(from as int, to as int),
{
    let mut i = from;
    while i < to
        invariant
            from <= i <= to <= v.len(),
            out@ == old(out)@ + v@.subrange(from as int, i as int),
        decreases to - i,
    {
        push_char(out, v[i]);
        assert(v@.subrange(from as int, i + 1) =~= v@.subrange(from as int, i as int).push(v@[i as int]));
        i = i + 1;
    }
}

/// Whether `p` occurs in `s` at index `i`.
pub fn occurs_at_exec(s: &Vec<char>, p: &Vec<char>, i: usize) -> (b: bool)
    ensures
        b == occurs_at(s@, p@, i as int),
{
    if i > s.len() || s.len() - i < p.len() {
        return false;
    }
    let mut j: usize = 0;
    while j < p.len()
        invariant
            i + p.len() <= s.len(),
            j <= p.len(),
            forall|k: int| 0 <= k < j ==> s@[i + k] == p@[k],
        decreases p.len() - j,
    {
        if s[i + j] != p[j] {
            assert(s@.subrange(i as int, i + p.len())[j as int] != p@[j as int]);
            return false;
        }
        j = j + 1;
    }
    assert(s@.subrange(i as int, i + p.len()) =~= p@);
    true
}

/// The leftmost index at or after `from` at which `p` occurs in `s`.
pub fn find_from(s: &Vec<char>, p: &Vec<char>, from: usize) -> (r: Option<usize>)
    ensures
        r matches Some(k) ==> first_occurrence_from(s@, p@, from as int, k as int),
        r is None ==> forall|j: int| from <= j ==> !occurs_at(s@, p@, j),
{
    if from > s.len() || s.len() - from < p.len() {
        return None;
    }
    if p.len() == 0 {
        assert(s@.subrange(from as int, from as int) =~= p@);
        return Some(from);
    }
    let last = s.len() - p.len();
    let mut i = from;
    while i <= last
        invariant
            from <= i,
            p@.len() > 0,
            last + p.len() == s.len(),
            forall|j: int| from <= j < i ==> !occurs_at(s@, p@, j),
        decreases last + 1 - i,
    {
        if occurs_at_exec(s, p, i) {
            return Some(i);
        }
        i = i + 1;
    }
    None
}

/// Whether the pattern `p` occurs in `s`.
pub fn contains_str(s: &str, p: &str) -> (b: bool)
    ensures
        b == contains_seq(s@, p@),
{
    let sv = chars_of(s);
    let pv = chars_of(p);
    match find_from(&sv, &pv, 0) {
        Some(_) => true,
        None => false,
    }
}

/// `str::replace` for a non-empty pattern: every non-overlapping occurrence of
/// `p`, from left to right, is replaced by `r`.
pub fn replace_str(s: &str, p: &str, r: &str) -> (out: String)
    requires
        p@.len() > 0,
    ensures
        out@ == replace_all(s@, p@, r@),
{
    let sv = chars_of(s);
    let pv = chars_of(p);
    let mut out = String::new();
    let mut i: usize = 0;
    assert(s@.skip(0) =~= s@);
    while i < sv.len()
        invariant
            sv@ == s@,
            pv@ == p@,
            p@.len() > 0,
            i <= sv.len(),
            replace_all(s@, p@, r@) == out@ + replace_all(s@.skip(i as int), p@, r@),
        decreases sv.len() - i,
    {
        let ghost rest = s@.skip(i as int);
        if occurs_at_exec(&sv, &pv, i) {
            proof {
                assert(rest.subrange(0, p@.len() as int) =~= s@.subrange(
                    i as int,
                    i + p@.len(),
                ));
                lemma_replace_step_match(rest, p@, r@);
                assert(rest.skip(p@.len() as int) =~= s@.skip(i + p@.len()));
            }
            out.append(r);
            i = i + pv.len();
        } else {
            proof {
                if occurs_at(rest, p@, 0) {
                    assert(rest.subrange(0, p@.len() as int) =~= s@.subrange(
                        i as int,
                        i + p@.len(),
                    ));
                }
                lemma_replace_step_char(rest, p@, r@);
                assert(rest.skip(1) =~= s@.skip(i + 1));
            }
            push_char(&mut out, sv[i]);
            i = i + 1;
        }
    }
    assert(s@.skip(i as int) =~= Seq::<char>::empty());
    out
}

/// Appends the decimal notation of `n` to `out`.
pub fn push_decimal(out: &mut String, n: u128)
    ensures
        final(out)@ == old(out)@ + decimal(n as nat),
    decreases n,
{
    if n >= 10 {
        push_decimal(out, n / 10);
    }
    let d = (n % 10) as u8;
    push_char(out, (48u8 + d) as char);
    proof {
        assert(((48u8 + d) as char) == digit_char((n % 10) as nat));
    }
}

/// Appends the decimal notation of a signed integer to `out`.
pub fn push_decimal_i64(out: &mut String, n: i64)
    ensures
        final(out)@ == old(out)@ + decimal_int(n as int),
{
    if n < 0 {
        push_char(out, '-');
        let m: u128 = (0i128 - (n as i128)) as u128;
        push_decimal(out, m);
    } else {
        push_decimal(out, n as u128);
    }
}

/// `str::to_ascii_lowercase`.
pub fn to_ascii_lowercase(s: &str) -> (out: String)
    ensures
        out@ == ascii_lowercase(s@),
{
    let v = chars_of(s);
    let mut out = String::new();
    let mut i: usize = 0;
    while i < v.len()
        invariant
            v@ == s@,
            i <= v.len(),
            out@ == ascii_lowercase(s@).take(i as int),
        decreases v.len() - i,
    {
        let c = v[i];
        let lc = if 'A' <= c && c <= 'Z' {
            (c as u8 + 32) as char
        } else {
            c
        };
        proof {
            if 'A' <= c && c <= 'Z' {
                assert(lc == ((c as u32) + 32) as char);
            }
        }
        push_char(&mut out, lc);
        assert(ascii_lowercase(s@).take(i + 1) =~= ascii_lowercase(s@).take(i as int).push(lc));
        i = i + 1;
    }
    assert(ascii_lowercase(s@).take(i as int) =~= ascii_lowercase(s@));
    out
}

} // verus!
