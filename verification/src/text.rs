//! Character-level string predicates used by the policy engine, the safety
//! monitor and JSON object lookup.

use vstd::prelude::*;

verus! {

/// `p` is a prefix of `s`.
pub open spec fn seq_starts_with(s: Seq<char>, p: Seq<char>) -> bool {
    p.len() <= s.len() && s.subrange(0, p.len() as int) == p
}

/// `p` occurs in `s` starting at position `i`.
pub open spec fn seq_occurs_at(s: Seq<char>, p: Seq<char>, i: int) -> bool {
    0 <= i && i + p.len() <= s.len() && s.subrange(i, i + p.len()) == p
}

/// `p` occurs somewhere in `s` (the empty pattern occurs in every string).
pub open spec fn seq_contains(s: Seq<char>, p: Seq<char>) -> bool {
    exists|i: int| seq_occurs_at(s, p, i)
}

/// The characters of `s`, one per element.
pub fn chars_of(s: &str) -> (v: Vec<char>)
    ensures
        v@ == s@,
{
    let n = s.unicode_len();
    let mut v: Vec<char> = Vec::new();
    let mut i: usize = 0;
    while i < n
        invariant
            n == s@.len(),
            i <= n,
            v@ == s@.subrange(0, i as int),
        decreases n - i,
    {
        let c = s.get_char(i);
        v.push(c);
        i = i + 1;
        assert(v@ =~= s@.subrange(0, i as int));
    }
    assert(v@ =~= s@);
    v
}

/// Whether `s` and `t` hold the same characters.
pub fn str_eq(s: &str, t: &str) -> (r: bool)
    ensures
        r == (s@ == t@),
{
    let a = chars_of(s);
    let b = chars_of(t);
    if a.len() != b.len() {
        return false;
    }
    let mut i: usize = 0;
    while i < a.len()
        invariant
            a@ == s@,
            b@ == t@,
            a.len() == b.len(),
            i <= a.len(),
            forall|j: int| 0 <= j < i ==> a@[j] == b@[j],
        decreases a.len() - i,
    {
        if a[i] != b[i] {
            return false;
        }
        i = i + 1;
    }
    assert(a@ =~= b@);
    true
}

/// Whether `a` holds `p` at position `at`.
fn occurs_at(a: &Vec<char>, p: &Vec<char>, at: usize) -> (r: bool)
    requires
        at + p.len() <= a.len(),
    ensures
        r == seq_occurs_at(a@, p@, at as int),
{
    let mut j: usize = 0;
    while j < p.len()
        invariant
            at + p.len() <= a.len(),
            j <= p.len(),
            forall|k: int| 0 <= k < j ==> a@[at + k] == p@[k],
        decreases p.len() - j,
    {
        if a[at + j] != p[j] {
            assert(a@.subrange(at as int, at + p.len())[j as int] != p@[j as int]);
            return false;
        }
        j = j + 1;
    }
    assert(a@.subrange(at as int, at + p.len()) =~= p@);
    true
}

/// Whether `s` begins with `prefix`.
pub fn str_starts_with(s: &str, prefix: &str) -> (r: bool)
    ensures
        r == seq_starts_with(s@, prefix@),
{
    let a = chars_of(s);
    let p = chars_of(prefix);
    if p.len() > a.len() {
        return false;
    }
    occurs_at(&a, &p, 0)
}

/// Whether `pattern` occurs in `s`.
pub fn str_contains(s: &str, pattern: &str) -> (r: bool)
    ensures
        r == seq_contains(s@, pattern@),
{
    let a = chars_of(s);
    let p = chars_of(pattern);
    if p.len() > a.len() {
        assert forall|i: int| !seq_occurs_at(s@, pattern@, i) by {}
        return false;
    }
    if p.len() == 0 {
        assert(s@.subrange(0, 0) =~= pattern@);
        assert(seq_occurs_at(s@, pattern@, 0));
        return true;
    }
    let last = a.len() - p.len();
    let mut i: usize = 0;
    while i <= last
        invariant
            a@ == s@,
            p@ == pattern@,
            last + p.len() == a.len(),
            p.len() > 0,
            i <= last + 1,
            forall|k: int| 0 <= k < i ==> !seq_occurs_at(s@, pattern@, k),
        decreases last + 1 - i,
    {
        if occurs_at(&a, &p, i) {
            return true;
        }
        i = i + 1;
    }
    assert forall|k: int| !seq_occurs_at(s@, pattern@, k) by {}
    false
}

} // verus!
