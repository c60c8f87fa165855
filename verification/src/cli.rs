use vstd::prelude::*;

use crate::hltb::{is_whitespace, is_whitespace_exec};
use crate::text::{chars_of, push_chars};

verus! {

/// `s` without its leading and trailing white space (`str::trim`).
pub open spec fn trimmed(s: Seq<char>) -> Seq<char>
    decreases s.len(),
{
    if s.len() == 0 {
        s
    } else if is_whitespace(s[0]) {
        trimmed(s.skip(1))
    } else if is_whitespace(s.last()) {
        trimmed(s.drop_last())
    } else {
        s
    }
}

proof fn lemma_trimmed_blank(s: Seq<char>)
    requires
        forall|i: int| 0 <= i < s.len() ==> is_whitespace(#[trigger] s[i]),
    ensures
        trimmed(s).len() == 0,
    decreases s.len(),
{
    if s.len() > 0 {
        assert(is_whitespace(s[0]));
        lemma_trimmed_blank(s.skip(1));
    }
}

proof fn lemma_trimmed_range(s: Seq<char>, a: int, b: int)
    requires
        0 <= a < b <= s.len(),
        forall|i: int| 0 <= i < a ==> is_whitespace(#[trigger] s[i]),
        forall|i: int| b <= i < s.len() ==> is_whitespace(#[trigger] s[i]),
        !is_whitespace(s[a]),
        !is_whitespace(s[b - 1]),
    ensures
        trimmed(s) == s.subrange(a, b),
    decreases s.len(),
{
    if a > 0 {
        assert(is_whitespace(s[0]));
        let t = s.skip(1);
        assert forall|i: int| 0 <= i < a - 1 implies is_whitespace(#[trigger] t[i]) by {
            assert(t[i] == s[i + 1]);
        }
        assert forall|i: int| b - 1 <= i < t.len() implies is_whitespace(#[trigger] t[i]) by {
            assert(t[i] == s[i + 1]);
        }
        lemma_trimmed_range(t, a - 1, b - 1);
        assert(t.subrange(a - 1, b - 1) =~= s.subrange(a, b));
    } else if b < s.len() {
        assert(is_whitespace(s[s.len() - 1]));
        let t = s.drop_last();
        lemma_trimmed_range(t, a, b);
        assert(t.subrange(a, b) =~= s.subrange(a, b));
    } else {
        assert(s.subrange(0, s.len() as int) =~= s);
    }
}

/// The query of a line read from the user: the line trimmed, or `None` when
/// nothing but white space is left, which ends the session.
pub fn cli_query(line: &str) -> (q: Option<String>)
    ensures
        q is None <==> trimmed(line@).len() == 0,
        q matches Some(t) ==> t@ == trimmed(line@),
{
    let v = chars_of(line);
    let mut a: usize = 0;
    while a < v.len()
        invariant
            v@ == line@,
            a <= v.len(),
            forall|i: int| 0 <= i < a ==> is_whitespace(#[trigger] line@[i]),
        ensures
            a <= v.len(),
            forall|i: int| 0 <= i < a ==> is_whitespace(#[trigger] line@[i]),
            a < v.len() ==> !is_whitespace(line@[a as int]),
        decreases v.len() - a,
    {
        if !is_whitespace_exec(v[a]) {
            break;
        }
        a = a + 1;
    }
    if a == v.len() {
        proof {
            lemma_trimmed_blank(line@);
        }
        return None;
    }
    let mut b: usize = v.len();
    while b > a + 1 && is_whitespace_exec(v[b - 1])
        invariant
            v@ == line@,
            a < b <= v.len(),
            !is_whitespace(line@[a as int]),
            forall|i: int| b <= i < line@.len() ==> is_whitespace(#[trigger] line@[i]),
        decreases b,
    {
        b = b - 1;
    }
    proof {
        lemma_trimmed_range(line@, a as int, b as int);
    }
    let mut t = String::new();
    push_chars(&mut t, &v, a, b);
    Some(t)
}

} // verus!
