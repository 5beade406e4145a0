//! General facts about sequences used by the proofs.

use vstd::prelude::*;

verus! {

/// Mapping a sequence with one more element maps that element last.
pub proof fn lemma_map_push<A, B>(s: Seq<A>, a: A, f: spec_fn(A) -> B)
    ensures
        s.push(a).map_values(f) == s.map_values(f).push(f(a)),
{
    assert(s.push(a).map_values(f) =~= s.map_values(f).push(f(a)));
}

/// The first `i + 1` elements are the first `i` and then element `i`.
pub proof fn lemma_take_push<A>(s: Seq<A>, i: int)
    requires
        0 <= i < s.len(),
    ensures
        s.take(i + 1) == s.take(i).push(s[i]),
{
    assert(s.take(i + 1) =~= s.take(i).push(s[i]));
}

} // verus!
