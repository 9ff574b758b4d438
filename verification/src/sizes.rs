//! How large a set can be that another one gives rise to.

use vstd::prelude::*;

verus! {

/// Whether `f` takes some element of `from` to every element of `to`.
pub open spec fn covers<A, B>(from: Set<A>, to: Set<B>, f: spec_fn(A) -> B) -> bool {
    forall|b: B| #[trigger] to.contains(b) ==> exists|a: A| #[trigger] from.contains(a) && f(a) == b
}

/// A set is no larger than one that covers it.
pub(crate) proof fn lemma_covered_is_no_larger<A, B>(from: Set<A>, to: Set<B>, f: spec_fn(A) -> B)
    requires
        from.finite(),
        covers(from, to, f),
    ensures
        to.finite(),
        to.len() <= from.len(),
    decreases from.len(),
{
    if from.len() == 0 {
        assert forall|b: B| !to.contains(b) by {
            if to.contains(b) {
                let a = choose|a: A| #[trigger] from.contains(a) && f(a) == b;
                assert(from.contains(a));
            }
        }
        assert(to =~= Set::empty());
    } else {
        let a = from.choose();
        let rest = to.remove(f(a));
        assert forall|b: B| #[trigger] rest.contains(b) implies exists|c: A| #[trigger]
            from.remove(a).contains(c) && f(c) == b by {
            let c = choose|c: A| #[trigger] from.contains(c) && f(c) == b;
            assert(from.remove(a).contains(c));
        }
        lemma_covered_is_no_larger(from.remove(a), rest, f);
        if to.contains(f(a)) {
            assert(to =~= rest.insert(f(a)));
        } else {
            assert(to =~= rest);
        }
    }
}

} // verus!
