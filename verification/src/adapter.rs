//! The transforming adapter: a producer that maps a function over another.

use vstd::prelude::*;

use crate::collect::collect_into;
use crate::collect::MyFromIterator;
use crate::producer::can_yield;
use crate::producer::lemma_exhausted_yields_nothing;
use crate::producer::lemma_produces_cons;
use crate::producer::produces;
use crate::producer::produces_all;
use crate::producer::MyIterator;

verus! {

/// A producer wrapping an owned upstream producer and a transformation
/// function. Each call of `next` pulls exactly one item from the upstream
/// producer and, if one was yielded, applies the function to it exactly once;
/// nothing is buffered or looked ahead.
pub struct MyMap<I, F> {
    pub iterator: I,
    pub func: F,
}

impl<I, F> MyMap<I, F> {
    /// Wrap `iterator` and `func` into an adapter, consuming both.
    pub fn new(iterator: I, func: F) -> (r: MyMap<I, F>)
        ensures
            r.iterator == iterator,
            r.func == func,
    {
        MyMap { iterator, func }
    }
}

impl<I, F, B> MyIterator for MyMap<I, F> where I: MyIterator, F: Fn(I::Item) -> B {
    type Item = B;

    /// The upstream producer is well-formed and the function accepts every
    /// item the upstream producer can still yield.
    open spec fn wf(self) -> bool {
        &&& self.iterator.wf()
        &&& forall|x: I::Item| #[trigger] can_yield(self.iterator, x) ==> call_requires(
            self.func,
            (x,),
        )
    }

    /// The adapter is exhausted exactly when its upstream producer is.
    open spec fn exhausted(self) -> bool {
        self.iterator.exhausted()
    }

    /// One call of `next` keeps the function, advances the upstream producer
    /// by one call, and yields the transformed item exactly when the upstream
    /// call yielded one.
    open spec fn advances(self, post: Self, r: Option<B>) -> bool {
        &&& post.func == self.func
        &&& match r {
            Some(y) => exists|x: I::Item|
                #[trigger] self.iterator.advances(post.iterator, Some(x)) && call_ensures(
                    self.func,
                    (x,),
                    y,
                ),
            None => self.iterator.advances(post.iterator, None),
        }
    }

    open spec fn decrease(self) -> nat {
        self.iterator.decrease()
    }

    /// Pull one item from the upstream producer; if it yielded one, return
    /// the transformed item, else signal exhaustion. The function is never
    /// invoked on an exhausted upstream.
    fn next(&mut self) -> (r: Option<B>) {
        let item = self.iterator.next();
        match item {
            Some(x) => {
                proof {
                    assert(produces(
                        old(self).iterator,
                        Seq::<I::Item>::empty(),
                        old(self).iterator,
                    ));
                    assert(can_yield(old(self).iterator, x));
                    assert forall|z: I::Item| can_yield(self.iterator, z) implies call_requires(
                        self.func,
                        (z,),
                    ) by {
                        let (items, pre, post) = choose|items: Seq<I::Item>, pre: I, post: I|
                            #![trigger produces(self.iterator, items, pre), pre.advances(post, Some(z))]
                            produces(self.iterator, items, pre) && pre.advances(post, Some(z));
                        lemma_produces_cons(old(self).iterator, x, self.iterator, items, pre);
                        assert(can_yield(old(self).iterator, z));
                    }
                }
                Some((self.func)(x))
            },
            None => {
                proof {
                    assert forall|z: I::Item| can_yield(self.iterator, z) implies call_requires(
                        self.func,
                        (z,),
                    ) by {
                        lemma_exhausted_yields_nothing(self.iterator, z);
                    }
                }
                None
            },
        }
    }

    proof fn exhausted_sticky(pre: Self, post: Self, r: Option<B>) {
        match r {
            Some(y) => {
                let x = choose|x: I::Item|
                    #[trigger] pre.iterator.advances(post.iterator, Some(x)) && call_ensures(
                        pre.func,
                        (x,),
                        y,
                    );
                I::exhausted_sticky(pre.iterator, post.iterator, Some(x));
            },
            None => {
                I::exhausted_sticky(pre.iterator, post.iterator, None);
            },
        }
    }
}

impl<I: MyIterator, F, B> MyMap<I, F> where F: Fn(I::Item) -> B {
    /// Exhaust this adapter and build a collection from the yielded items,
    /// in production order.
    pub fn collect<C: MyFromIterator<B>>(self) -> (r: C)
        requires
            self.wf(),
        ensures
            produces_all(self, r.collected()),
    {
        collect_into::<Self, C>(self)
    }
}

/// Law (adapter to upstream): every run of a transforming adapter is, item by
/// item, a run of its upstream producer passed through the function: the
/// upstream run has the same length, the function is unchanged, and the k-th
/// adapter item is an output of the function on the k-th upstream item.
pub proof fn lemma_map_run_upstream<I: MyIterator, F: Fn(I::Item) -> B, B>(
    m: MyMap<I, F>,
    ys: Seq<B>,
    end: MyMap<I, F>,
) -> (xs: Seq<I::Item>)
    requires
        produces(m, ys, end),
    ensures
        end.func == m.func,
        produces(m.iterator, xs, end.iterator),
        xs.len() == ys.len(),
        forall|k: int| 0 <= k < ys.len() ==> call_ensures(m.func, (xs[k],), ys[k]),
    decreases ys.len(),
{
    if ys.len() == 0 {
        assert(end == m);
        let xs = Seq::<I::Item>::empty();
        assert(produces(m.iterator, xs, end.iterator));
        xs
    } else {
        let mid = choose|mid: MyMap<I, F>|
            #[trigger] m.advances(mid, Some(ys[0])) && produces(mid, ys.drop_first(), end);
        let x0 = choose|x0: I::Item|
            #[trigger] m.iterator.advances(mid.iterator, Some(x0)) && call_ensures(
                m.func,
                (x0,),
                ys[0],
            );
        let rest = lemma_map_run_upstream(mid, ys.drop_first(), end);
        let xs = seq![x0] + rest;
        assert(xs.drop_first() =~= rest);
        assert(xs[0] == x0);
        assert(m.iterator.advances(mid.iterator, Some(xs[0])));
        assert(produces(m.iterator, xs, end.iterator));
        assert forall|k: int| 0 <= k < ys.len() implies call_ensures(m.func, (xs[k],), ys[k]) by {
            if k > 0 {
                assert(xs[k] == rest[k - 1]);
                assert(ys[k] == ys.drop_first()[k - 1]);
            }
        }
        xs
    }
}

/// Law (upstream to adapter): a run of the upstream producer, transformed
/// item by item through the function, is a run of the adapter: the adapter
/// yields an item exactly when the upstream call yields one, in the same
/// order, one for one.
pub proof fn lemma_upstream_run_map<I: MyIterator, F: Fn(I::Item) -> B, B>(
    p: I,
    xs: Seq<I::Item>,
    pend: I,
    f: F,
    ys: Seq<B>,
)
    requires
        produces(p, xs, pend),
        xs.len() == ys.len(),
        forall|k: int| 0 <= k < ys.len() ==> call_ensures(f, (xs[k],), ys[k]),
    ensures
        produces((MyMap { iterator: p, func: f }), ys, (MyMap { iterator: pend, func: f })),
    decreases ys.len(),
{
    let m = MyMap { iterator: p, func: f };
    let end = MyMap { iterator: pend, func: f };
    if ys.len() == 0 {
        assert(pend == p);
        assert(produces(m, ys, end));
    } else {
        let pmid = choose|pmid: I|
            #[trigger] p.advances(pmid, Some(xs[0])) && produces(pmid, xs.drop_first(), pend);
        let mid = MyMap { iterator: pmid, func: f };
        assert(m.iterator.advances(mid.iterator, Some(xs[0])));
        assert(call_ensures(m.func, (xs[0],), ys[0]));
        assert(m.advances(mid, Some(ys[0])));
        assert forall|k: int|
            0 <= k < ys.drop_first().len() implies call_ensures(
            f,
            (xs.drop_first()[k],),
            ys.drop_first()[k],
        ) by {
            assert(xs.drop_first()[k] == xs[k + 1]);
            assert(ys.drop_first()[k] == ys[k + 1]);
        }
        lemma_upstream_run_map(pmid, xs.drop_first(), pend, f, ys.drop_first());
        assert(produces(m, ys, end));
    }
}

} // verus!
