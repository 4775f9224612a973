//! A borrowing cursor: a producer that walks a vector by index.

use vstd::prelude::*;

use crate::collect::collect_into;
use crate::collect::MyFromIterator;
use crate::producer::can_yield;
use crate::producer::produces;
use crate::producer::produces_all;
use crate::producer::MyIterator;

verus! {

/// A producer over a borrowed vector: it yields a reference to each element
/// in index order, starting at `current_index`, and signals exhaustion once
/// the position reaches the end of the vector.
pub struct MyVecIterator<'a, T> {
    pub vec: &'a Vec<T>,
    pub current_index: usize,
}

impl<'a, T> MyVecIterator<'a, T> {
    /// The items a complete run starting at `self` yields: references to the
    /// elements from `current_index` to the end of the vector, in index order.
    pub open spec fn remaining(self) -> Seq<&'a T> {
        Seq::new(
            if self.current_index < self.vec@.len() {
                (self.vec@.len() - self.current_index) as nat
            } else {
                0
            },
            |k: int| &self.vec@[self.current_index + k],
        )
    }
}

impl<'a, T> MyIterator for MyVecIterator<'a, T> {
    type Item = &'a T;

    open spec fn wf(self) -> bool {
        true
    }

    open spec fn exhausted(self) -> bool {
        self.current_index >= self.vec@.len()
    }

    open spec fn advances(self, post: Self, r: Option<&'a T>) -> bool {
        match r {
            Some(item) => {
                &&& self.current_index < self.vec@.len()
                &&& *item == self.vec@[self.current_index as int]
                &&& post.vec == self.vec
                &&& post.current_index == self.current_index + 1
            },
            None => self.exhausted() && post == self,
        }
    }

    open spec fn decrease(self) -> nat {
        if self.current_index < self.vec@.len() {
            (self.vec@.len() - self.current_index) as nat
        } else {
            0
        }
    }

    /// If the position is within bounds, yield a reference to the element
    /// there and advance the position by one; otherwise signal exhaustion and
    /// leave the position unchanged.
    fn next(&mut self) -> (r: Option<&'a T>) {
        if self.current_index < self.vec.len() {
            let i = self.current_index;
            self.current_index = i + 1;
            Some(&self.vec[i])
        } else {
            None
        }
    }

    proof fn exhausted_sticky(pre: Self, post: Self, r: Option<&'a T>) {
    }
}

impl<'a, T: Clone> MyVecIterator<'a, T> {
    /// Convert into an independent, owned copy of the borrowed elements: the
    /// whole underlying vector is duplicated eagerly, from its start and
    /// regardless of the cursor's position, into an owned collection that can
    /// be iterated on its own.
    pub fn into_iter(self) -> (r: Vec<T>)
        ensures
            r@.len() == self.vec@.len(),
            forall|i: int| 0 <= i < r@.len() ==> cloned::<T>(self.vec@[i], #[trigger] r@[i]),
    {
        self.vec.clone()
    }
}

impl<'a, T> MyVecIterator<'a, T> {
    /// Exhaust this cursor and build a collection from the yielded items,
    /// in production order.
    pub fn collect<B: MyFromIterator<&'a T>>(self) -> (r: B)
        ensures
            produces_all(self, r.collected()),
    {
        collect_into::<Self, B>(self)
    }
}

/// The extension capability: obtain a borrowing cursor from a vector.
pub trait MyIteratorExt<T> {
    /// A cursor over `self`, positioned at the first element.
    fn my_iter<'a>(&'a self) -> MyVecIterator<'a, T>;
}

impl<T> MyIteratorExt<T> for Vec<T> {
    fn my_iter<'a>(&'a self) -> (r: MyVecIterator<'a, T>)
        ensures
            r.vec == self,
            r.current_index == 0,
    {
        MyVecIterator { vec: self, current_index: 0 }
    }
}

/// Law: pulled to completion, a cursor yields exactly the elements of the
/// underlying vector from its current position to the end, in index order,
/// followed by exhaustion. This is the existence half: such a complete run
/// is always available. In particular, a cursor over an empty vector yields
/// nothing and signals exhaustion on the first call.
pub proof fn lemma_cursor_run_exists<'a, T>(c: MyVecIterator<'a, T>)
    ensures
        produces_all(c, c.remaining()),
    decreases c.decrease(),
{
    assert(c.vec.len() == c.vec@.len());
    if c.current_index >= c.vec@.len() {
        assert(c.remaining() =~= Seq::<&'a T>::empty());
        assert(produces(c, c.remaining(), c));
        assert(c.advances(c, None));
    } else {
        let step = MyVecIterator { vec: c.vec, current_index: (c.current_index + 1) as usize };
        assert(c.advances(step, Some(c.remaining()[0])));
        lemma_cursor_run_exists(step);
        let (pre, post) = choose|pre: MyVecIterator<'a, T>, post: MyVecIterator<'a, T>|
            produces(step, step.remaining(), pre) && #[trigger] pre.advances(post, None);
        assert(c.remaining().drop_first() =~= step.remaining());
        assert(produces(c, c.remaining(), pre));
        assert(pre.advances(post, None));
    }
}

/// Law: pulled to completion, a cursor can yield only the elements of the
/// underlying vector from its current position to the end, in index order.
/// This is the uniqueness half: every complete run yields that sequence.
pub proof fn lemma_cursor_run_unique<'a, T>(c: MyVecIterator<'a, T>, items: Seq<&'a T>)
    requires
        produces_all(c, items),
    ensures
        items == c.remaining(),
    decreases items.len(),
{
    let (pre, post) = choose|pre: MyVecIterator<'a, T>, post: MyVecIterator<'a, T>|
        produces(c, items, pre) && #[trigger] pre.advances(post, None);
    if items.len() == 0 {
        assert(pre == c);
        assert(c.exhausted());
        assert(items =~= c.remaining());
    } else {
        let step = choose|m: MyVecIterator<'a, T>|
            #[trigger] c.advances(m, Some(items[0])) && produces(m, items.drop_first(), pre);
        assert(produces_all(step, items.drop_first()));
        lemma_cursor_run_unique(step, items.drop_first());
        assert(step.remaining() =~= c.remaining().drop_first());
        assert(items[0] == c.remaining()[0]);
        assert(items.len() == c.remaining().len());
        assert forall|k: int| 0 < k < items.len() implies items[k] == c.remaining()[k] by {
            assert(items[k] == items.drop_first()[k - 1]);
            assert(c.remaining()[k] == c.remaining().drop_first()[k - 1]);
        }
        assert(items =~= c.remaining());
    }
}

/// Every run of a cursor keeps the borrowed vector and moves the position
/// forward by exactly the number of items yielded.
pub proof fn lemma_cursor_run_shape<'a, T>(
    c: MyVecIterator<'a, T>,
    items: Seq<&'a T>,
    end: MyVecIterator<'a, T>,
)
    requires
        produces(c, items, end),
    ensures
        end.vec == c.vec,
        end.current_index == c.current_index + items.len(),
    decreases items.len(),
{
    if items.len() > 0 {
        let mid = choose|m: MyVecIterator<'a, T>|
            #[trigger] c.advances(m, Some(items[0])) && produces(m, items.drop_first(), end);
        lemma_cursor_run_shape(mid, items.drop_first(), end);
    }
}

/// Law: every item a cursor can yield is a reference to an element of its
/// vector at or after its current position.
pub proof fn lemma_cursor_can_yield<'a, T>(c: MyVecIterator<'a, T>, x: &'a T)
    requires
        can_yield(c, x),
    ensures
        exists|i: int| c.current_index <= i < c.vec@.len() && x == &c.vec@[i],
{
    let (items, pre, post) = choose|
        items: Seq<&'a T>,
        pre: MyVecIterator<'a, T>,
        post: MyVecIterator<'a, T>,
    |
        #![trigger produces(c, items, pre), pre.advances(post, Some(x))]
        produces(c, items, pre) && pre.advances(post, Some(x));
    lemma_cursor_run_shape(c, items, pre);
    let i = pre.current_index as int;
    assert(c.current_index <= i < c.vec@.len() && x == &c.vec@[i]);
}

} // verus!
