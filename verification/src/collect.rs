//! The collector capability: exhaust a producer into an owned collection.

use vstd::prelude::*;

use crate::producer::lemma_produces_snoc;
use crate::producer::produces;
use crate::producer::produces_all;
use crate::producer::MyIterator;

verus! {

/// A capability for building a collection of `A` values by exhausting a
/// producer: `next` is called repeatedly until it returns `None`, and every
/// yielded item is appended in production order to an initially empty
/// collection.
pub trait MyFromIterator<A>: Sized {
    /// The ordered contents of the built collection.
    spec fn collected(self) -> Seq<A>;

    /// Build a collection from `iter`, pulled to completion: the contents of
    /// the result are exactly the items of one complete run of `iter`.
    fn from_iter<T: MyIterator<Item = A>>(iter: T) -> (r: Self)
        requires
            iter.wf(),
        ensures
            produces_all(iter, r.collected()),
    ;
}

impl MyFromIterator<i32> for Vec<i32> {
    open spec fn collected(self) -> Seq<i32> {
        self@
    }

    fn from_iter<T: MyIterator<Item = i32>>(iter: T) -> (r: Vec<i32>) {
        let ghost start = iter;
        let mut it = iter;
        let mut result: Vec<i32> = Vec::new();
        loop
            invariant_except_break
                it.wf(),
                produces(start, result@, it),
            ensures
                produces_all(start, result@),
            decreases it.decrease(),
        {
            let ghost pre = it;
            match it.next() {
                Some(item) => {
                    proof {
                        lemma_produces_snoc(start, result@, pre, it, item);
                    }
                    result.push(item);
                },
                None => {
                    proof {
                        assert(produces(start, result@, pre));
                        assert(pre.advances(it, None));
                    }
                    break;
                },
            }
        }
        result
    }
}

/// Exhaust `iter` and build a collection from the yielded items.
pub fn collect_into<T: MyIterator, B: MyFromIterator<T::Item>>(iter: T) -> (r: B)
    requires
        iter.wf(),
    ensures
        produces_all(iter, r.collected()),
{
    B::from_iter::<T>(iter)
}

} // verus!
