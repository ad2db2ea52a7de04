//! Where a value first occurs in a sequence.
use vstd::prelude::*;

verus! {

/// Whether `s` holds `x` at `i` and nowhere before.
pub open spec fn is_first_index<T>(s: Seq<T>, x: T, i: int) -> bool {
    &&& 0 <= i < s.len()
    &&& s[i] == x
    &&& forall|j: int| 0 <= j < i ==> s[j] != x
}

/// The first position at which `s` holds `x`.
pub open spec fn first_index<T>(s: Seq<T>, x: T) -> Option<int>
    decreases s.len(),
{
    if s.len() == 0 {
        None
    } else {
        match first_index(s.drop_last(), x) {
            Some(i) => Some(i),
            None => if s.last() == x {
                Some(s.len() - 1)
            } else {
                None
            },
        }
    }
}

/// `first_index` is the first position, and `None` where there is none.
pub proof fn lemma_first_index<T>(s: Seq<T>, x: T)
    ensures
        match first_index(s, x) {
            Some(i) => is_first_index(s, x, i) && s.contains(x),
            None => !s.contains(x),
        },
        forall|i: int| #[trigger] is_first_index(s, x, i) ==> first_index(s, x) == Some(i),
    decreases s.len(),
{
    if s.len() > 0 {
        let rest = s.drop_last();
        lemma_first_index(rest, x);
        assert(forall|j: int| 0 <= j < rest.len() ==> rest[j] == s[j]);
        match first_index(rest, x) {
            Some(i) => {
                assert(rest[i] == s[i]);
                assert(is_first_index(s, x, i));
            },
            None => {
                assert(forall|j: int| 0 <= j < rest.len() ==> s[j] != x) by {
                    assert forall|j: int| 0 <= j < rest.len() implies s[j] != x by {
                        assert(rest.contains(rest[j]));
                    }
                }
            },
        }
        assert forall|i: int| #[trigger] is_first_index(s, x, i) implies first_index(s, x) == Some(
            i,
        ) by {
            if i < rest.len() {
                assert(is_first_index(rest, x, i));
            }
        }
    }
}

/// The first index of a value is where the value stands and stands nowhere
/// before, and there is none exactly if the value stands nowhere.
pub proof fn law_first_index<T>(s: Seq<T>, x: T)
    ensures
        match first_index(s, x) {
            Some(i) => 0 <= i < s.len() && s[i] == x && forall|j: int| 0 <= j < i ==> s[j] != x,
            None => forall|j: int| 0 <= j < s.len() ==> s[j] != x,
        },
{
    lemma_first_index(s, x);
    if first_index(s, x) is None {
        assert forall|j: int| 0 <= j < s.len() implies s[j] != x by {
            assert(s.contains(s[j]));
        }
    }
}

} // verus!
