//! First occurrence of a value in a sequence, the lookup rule shared by JSON
//! objects and the tool registry.

use vstd::prelude::*;

verus! {

/// The index of the first element of `s` equal to `x`, or -1 if there is none.
pub open spec fn first_index_of<A>(s: Seq<A>, x: A) -> int
    decreases s.len(),
{
    if s.len() == 0 {
        -1
    } else {
        let i = first_index_of(s.drop_last(), x);
        if i >= 0 {
            i
        } else if s.last() == x {
            s.len() - 1
        } else {
            -1
        }
    }
}

/// `first_index_of` is -1 exactly when `x` is absent, and otherwise points at
/// the first element equal to `x`.
pub proof fn lemma_first_index_of<A>(s: Seq<A>, x: A)
    ensures
        -1 <= first_index_of(s, x) < s.len(),
        first_index_of(s, x) == -1 <==> !s.contains(x),
        first_index_of(s, x) >= 0 ==> s[first_index_of(s, x)] == x,
        forall|j: int| 0 <= j < first_index_of(s, x) ==> s[j] != x,
        first_index_of(s, x) == -1 ==> forall|j: int| 0 <= j < s.len() ==> s[j] != x,
    decreases s.len(),
{
    if s.len() > 0 {
        lemma_first_index_of(s.drop_last(), x);
        let i = first_index_of(s.drop_last(), x);
        if i < 0 && s.last() != x {
            assert forall|j: int| 0 <= j < s.len() implies s[j] != x by {
                if j < s.len() - 1 {
                    assert(s.drop_last()[j] == s[j]);
                }
            }
        }
        if i < 0 && s.last() == x {
            assert(s[s.len() - 1] == x);
            assert forall|j: int| 0 <= j < s.len() - 1 implies s[j] != x by {
                assert(s.drop_last()[j] == s[j]);
            }
        }
        if i >= 0 {
            assert(s.drop_last()[i] == s[i]);
            assert forall|j: int| 0 <= j < i implies s[j] != x by {
                assert(s.drop_last()[j] == s[j]);
            }
        }
    }
}

/// In a sequence without repetitions an element's first index is its index.
pub proof fn lemma_first_index_of_distinct<A>(s: Seq<A>, i: int)
    requires
        s.no_duplicates(),
        0 <= i < s.len(),
    ensures
        first_index_of(s, s[i]) == i,
{
    lemma_first_index_of(s, s[i]);
    assert(s.contains(s[i]));
}

/// Appending `y` leaves the first index of every other value unchanged, and
/// the first index of `y` is its new position unless `y` was present already.
pub proof fn lemma_first_index_of_push<A>(s: Seq<A>, y: A, x: A)
    ensures
        first_index_of(s.push(y), x) == if first_index_of(s, x) >= 0 {
            first_index_of(s, x)
        } else if x == y {
            s.len() as int
        } else {
            -1
        },
{
    assert(s.push(y).drop_last() =~= s);
}

} // verus!
