//! Finding the first element of a sequence that has a property.

use vstd::prelude::*;

verus! {

/// The position of the first element of `s` that satisfies `pred`.
pub open spec fn first_where<A>(s: Seq<A>, pred: spec_fn(A) -> bool) -> Option<int>
    decreases s.len(),
{
    if s.len() == 0 {
        None
    } else {
        match first_where(s.drop_last(), pred) {
            Some(i) => Some(i),
            None => if pred(s.last()) {
                Some(s.len() - 1)
            } else {
                None
            },
        }
    }
}

/// `first_where` finds an element iff there is one, and none that satisfies `pred` comes before
/// it.
pub proof fn lemma_first_where<A>(s: Seq<A>, pred: spec_fn(A) -> bool)
    ensures
        match first_where(s, pred) {
            Some(i) => {
                &&& 0 <= i < s.len()
                &&& pred(s[i])
                &&& forall|j: int| 0 <= j < i ==> !pred(#[trigger] s[j])
            },
            None => forall|j: int| 0 <= j < s.len() ==> !pred(#[trigger] s[j]),
        },
    decreases s.len(),
{
    if s.len() > 0 {
        let front = s.drop_last();
        lemma_first_where(front, pred);
        assert forall|j: int| 0 <= j < front.len() implies front[j] == s[j] by {}
    }
}

/// An element that satisfies `pred` with none before it is the one that `first_where` finds.
pub proof fn lemma_first_where_is<A>(s: Seq<A>, pred: spec_fn(A) -> bool, i: int)
    requires
        0 <= i < s.len(),
        pred(s[i]),
        forall|j: int| 0 <= j < i ==> !pred(#[trigger] s[j]),
    ensures
        first_where(s, pred) == Some(i),
{
    lemma_first_where(s, pred);
}

/// Where no element satisfies `pred`, `first_where` finds nothing.
pub proof fn lemma_first_where_none<A>(s: Seq<A>, pred: spec_fn(A) -> bool)
    requires
        forall|j: int| 0 <= j < s.len() ==> !pred(#[trigger] s[j]),
    ensures
        first_where(s, pred) is None,
{
    lemma_first_where(s, pred);
}

} // verus!
