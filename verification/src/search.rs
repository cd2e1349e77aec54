//! The first element of a sequence that has a wanted property.

use vstd::prelude::*;

verus! {

/// The position of the first element of `s` at or after `from` that is
/// `wanted`, or the length of `s` where there is none.
pub open spec fn first_index<T>(s: Seq<T>, wanted: spec_fn(T) -> bool, from: int) -> int
    decreases s.len() - from,
{
    if from < 0 || from >= s.len() {
        s.len() as int
    } else if wanted(s[from]) {
        from
    } else {
        first_index(s, wanted, from + 1)
    }
}

/// The first wanted element stands at or after `from`; it is wanted, and no
/// element between `from` and it is.
pub proof fn lemma_first_index<T>(s: Seq<T>, wanted: spec_fn(T) -> bool, from: int)
    requires
        0 <= from <= s.len(),
    ensures
        from <= first_index(s, wanted, from) <= s.len(),
        first_index(s, wanted, from) < s.len() ==> wanted(s[first_index(s, wanted, from)]),
        forall|k: int| from <= k < first_index(s, wanted, from) ==> !wanted(#[trigger] s[k]),
    decreases s.len() - from,
{
    if from < s.len() && !wanted(s[from]) {
        lemma_first_index(s, wanted, from + 1);
    }
}

/// A position whose element is wanted, or the length of `s`, is the first
/// index where no element between `from` and it is wanted.
pub proof fn lemma_first_index_is<T>(s: Seq<T>, wanted: spec_fn(T) -> bool, from: int, i: int)
    requires
        0 <= from <= i <= s.len(),
        i < s.len() ==> wanted(s[i]),
        forall|k: int| from <= k < i ==> !wanted(#[trigger] s[k]),
    ensures
        first_index(s, wanted, from) == i,
    decreases i - from,
{
    if from < i {
        lemma_first_index_is(s, wanted, from + 1, i);
    }
}

} // verus!
