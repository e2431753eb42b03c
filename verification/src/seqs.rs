//! Positions in sequences.

use vstd::prelude::*;

verus! {

/// The first position of `a` in `s`, or the length of `s` if it does not occur.
pub open spec fn first_index<A>(s: Seq<A>, a: A) -> int
    decreases s.len(),
{
    if s.len() == 0 || s[0] == a {
        0
    } else {
        1 + first_index(s.drop_first(), a)
    }
}

pub proof fn lemma_first_index<A>(s: Seq<A>, a: A)
    ensures
        0 <= first_index(s, a) <= s.len(),
        first_index(s, a) < s.len() ==> s[first_index(s, a)] == a,
        forall|j: int| 0 <= j < first_index(s, a) ==> s[j] != a,
    decreases s.len(),
{
    if s.len() > 0 && s[0] != a {
        lemma_first_index(s.drop_first(), a);
        assert forall|j: int| 0 <= j < first_index(s, a) implies s[j] != a by {
            if j > 0 {
                assert(s.drop_first()[j - 1] != a);
            }
        }
    }
}

pub proof fn lemma_first_index_unique<A>(s: Seq<A>, a: A, n: int)
    requires
        0 <= n <= s.len(),
        n < s.len() ==> s[n] == a,
        forall|j: int| 0 <= j < n ==> s[j] != a,
    ensures
        first_index(s, a) == n,
{
    lemma_first_index(s, a);
}

} // verus!
