//! The producer capability: pull one item at a time until exhaustion.

use vstd::prelude::*;

use crate::adapter::MyMap;

verus! {

/// A pull-based producer of items.
///
/// Each call of [`next`](MyIterator::next) either yields one more item or
/// signals exhaustion by returning `None`. Exhaustion is terminal and sticky:
/// once a producer is [`exhausted`](MyIterator::exhausted), every later call
/// of `next` returns `None` and the producer stays exhausted.
pub trait MyIterator: Sized {
    type Item;

    /// Well-formedness that a caller must establish before pulling.
    /// It is preserved by `next`.
    spec fn wf(self) -> bool;

    /// The producer is in its terminal state: `next` can only return `None`.
    spec fn exhausted(self) -> bool;

    /// How a single call of `next` relates the state before the call, the
    /// state after it, and the returned outcome.
    spec fn advances(self, post: Self, r: Option<Self::Item>) -> bool;

    /// A termination measure: it strictly decreases on every call of `next`
    /// that yields an item, so a producer can only yield finitely many items.
    spec fn decrease(self) -> nat;

    /// Attempt to produce the next item, or signal exhaustion with `None`.
    fn next(&mut self) -> (r: Option<Self::Item>)
        requires
            old(self).wf(),
        ensures
            final(self).wf(),
            old(self).advances(*final(self), r),
            old(self).exhausted() ==> r is None && final(self).exhausted(),
            r is None ==> final(self).exhausted(),
            r is Some ==> final(self).decrease() < old(self).decrease(),
    ;

    /// Exhaustion is terminal and sticky for the single-call relation: a call
    /// made on an exhausted producer can only return `None` and leave the
    /// producer exhausted.
    proof fn exhausted_sticky(pre: Self, post: Self, r: Option<Self::Item>)
        requires
            pre.exhausted(),
            pre.advances(post, r),
        ensures
            r is None,
            post.exhausted(),
    ;

    /// Wrap this producer in a transforming adapter that applies `f` to each
    /// yielded item, consuming this producer.
    fn map<B, F: Fn(Self::Item) -> B>(self, f: F) -> (r: MyMap<Self, F>)
        ensures
            r.iterator == self,
            r.func == f,
    {
        MyMap::<Self, F>::new(self, f)
    }
}

/// There is a run of `next` calls that takes `start` to `end` and yields
/// exactly `items`, in order, with every call producing an item.
pub open spec fn produces<I: MyIterator>(start: I, items: Seq<I::Item>, end: I) -> bool
    decreases items.len(),
{
    if items.len() == 0 {
        end == start
    } else {
        exists|mid: I|
            #[trigger] start.advances(mid, Some(items[0])) && produces(
                mid,
                items.drop_first(),
                end,
            )
    }
}

/// Pulled to completion, `start` can yield exactly `items` and then signal
/// exhaustion: there is a run producing `items` whose next call returns `None`.
pub open spec fn produces_all<I: MyIterator>(start: I, items: Seq<I::Item>) -> bool {
    exists|pre: I, post: I| produces(start, items, pre) && #[trigger] pre.advances(post, None)
}

/// `x` is an item that `start` can still yield: some run from `start`
/// reaches a state whose next call can yield `x`.
pub open spec fn can_yield<I: MyIterator>(start: I, x: I::Item) -> bool {
    exists|items: Seq<I::Item>, pre: I, post: I|
        #![trigger produces(start, items, pre), pre.advances(post, Some(x))]
        produces(start, items, pre) && pre.advances(post, Some(x))
}

/// Eliminate a complete run: obtain the state `w.0` that the run reaches
/// after yielding `items`, and the state `w.1` left behind by the call on
/// `w.0` that returned `None`.
pub proof fn lemma_produces_all_run<I: MyIterator>(start: I, items: Seq<I::Item>) -> (w: (I, I))
    requires
        produces_all(start, items),
    ensures
        produces(start, items, w.0),
        w.0.advances(w.1, None),
{
    let (pre, post) = choose|pre: I, post: I|
        produces(start, items, pre) && #[trigger] pre.advances(post, None);
    (pre, post)
}

/// A run can be extended at its start: one call on `start` that yields `x`,
/// followed by a run from the state it reaches, is a run from `start`.
pub proof fn lemma_produces_cons<I: MyIterator>(
    start: I,
    x: I::Item,
    mid: I,
    items: Seq<I::Item>,
    end: I,
)
    requires
        start.advances(mid, Some(x)),
        produces(mid, items, end),
    ensures
        produces(start, seq![x] + items, end),
{
    let all = seq![x] + items;
    assert(all[0] == x);
    assert(all.drop_first() =~= items);
    assert(start.advances(mid, Some(all[0])));
}

/// Law: exhaustion is sticky over whole runs. Every run that starts at an
/// exhausted producer yields nothing and goes nowhere.
pub proof fn lemma_exhausted_run<I: MyIterator>(start: I, items: Seq<I::Item>, end: I)
    requires
        start.exhausted(),
        produces(start, items, end),
    ensures
        items.len() == 0,
        end == start,
{
    if items.len() > 0 {
        let mid = choose|m: I|
            #[trigger] start.advances(m, Some(items[0])) && produces(m, items.drop_first(), end);
        I::exhausted_sticky(start, mid, Some(items[0]));
    }
}

/// Law: an exhausted producer can yield no item at all, however often it is
/// pulled.
pub proof fn lemma_exhausted_yields_nothing<I: MyIterator>(start: I, x: I::Item)
    requires
        start.exhausted(),
    ensures
        !can_yield(start, x),
{
    if can_yield(start, x) {
        let (items, pre, post) = choose|items: Seq<I::Item>, pre: I, post: I|
            #![trigger produces(start, items, pre), pre.advances(post, Some(x))]
            produces(start, items, pre) && pre.advances(post, Some(x));
        lemma_exhausted_run(start, items, pre);
        I::exhausted_sticky(pre, post, Some(x));
    }
}

/// A run can be extended at its end: if a run from `start` to `mid` yields
/// `items` and one more call on `mid` yields `x`, the combined run yields
/// `items.push(x)`.
pub proof fn lemma_produces_snoc<I: MyIterator>(
    start: I,
    items: Seq<I::Item>,
    mid: I,
    post: I,
    x: I::Item,
)
    requires
        produces(start, items, mid),
        mid.advances(post, Some(x)),
    ensures
        produces(start, items.push(x), post),
    decreases items.len(),
{
    if items.len() == 0 {
        assert(mid == start);
        assert(items.push(x)[0] == x);
        assert(items.push(x).drop_first() =~= Seq::<I::Item>::empty());
        assert(produces(post, items.push(x).drop_first(), post));
        assert(start.advances(post, Some(items.push(x)[0])));
    } else {
        let step = choose|m: I|
            #[trigger] start.advances(m, Some(items[0])) && produces(m, items.drop_first(), mid);
        lemma_produces_snoc(step, items.drop_first(), mid, post, x);
        assert(items.push(x)[0] == items[0]);
        assert(items.push(x).drop_first() =~= items.drop_first().push(x));
        assert(start.advances(step, Some(items.push(x)[0])));
    }
}

} // verus!
