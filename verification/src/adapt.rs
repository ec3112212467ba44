//! Adapt coordinates in one space into another space.
use vstd::prelude::*;

use crate::traits::Idx;
use core::marker::PhantomData;

verus! {

/// Something which is able to adapt a single axis of a coordinate: a pure
/// function from one input axis value to one output axis value.
pub trait Adapter1D<In: Idx, Out: Idx> {
    /// When the adaptation of this axis value is defined (arithmetic in bounds).
    spec fn req1(&self, idx: In) -> bool;

    /// The adapted axis value.
    spec fn spec_adapt1(&self, idx: In) -> Out;

    /// Adapt a single axis of a coordinate into another.
    fn adapt(&self, idx: In) -> (r: Out)
        requires
            self.req1(idx),
        ensures
            r == self.spec_adapt1(idx),
    ;
}

/// Something which is able to adapt a whole coordinate, each axis
/// independently of the others.
pub trait Adapter<In: Idx, Out: Idx> {
    /// Number of axes the adapter expects.
    spec fn dims(&self) -> nat;

    /// When the adaptation of a whole coordinate is defined.
    spec fn req(&self, idx: Seq<In>) -> bool;

    /// The adapted coordinate.
    spec fn spec_adapt(&self, idx: Seq<In>) -> Seq<Out>;

    /// Adaptation never changes the number of axes.
    proof fn adapt_len(&self, idx: Seq<In>)
        ensures
            self.spec_adapt(idx).len() == idx.len(),
    ;

    /// Adapt one coordinate into another.
    fn adapt(&self, idx: &Vec<In>) -> (r: Vec<Out>)
        requires
            idx@.len() == self.dims(),
            self.req(idx@),
        ensures
            r@ == self.spec_adapt(idx@),
            r@.len() == idx@.len(),
    ;
}

/// An Adapter for N-dimensional coordinates comprised of N Adapter1Ds,
/// one per axis.
pub struct AdapterND<In: Idx, Out: Idx, Ad: Adapter1D<In, Out>> {
    pub adapters: Vec<Ad>,
    pub _in: PhantomData<In>,
    pub _out: PhantomData<Out>,
}

impl<In: Idx, Out: Idx, Ad: Adapter1D<In, Out>> AdapterND<In, Out, Ad> {
    pub fn new(adapters: Vec<Ad>) -> (r: Self)
        ensures
            r.adapters == adapters,
    {
        AdapterND { adapters, _in: PhantomData, _out: PhantomData }
    }
}

impl<In: Idx, Out: Idx, Ad: Adapter1D<In, Out>> Adapter<In, Out> for AdapterND<In, Out, Ad> {
    open spec fn dims(&self) -> nat {
        self.adapters@.len()
    }

    open spec fn req(&self, idx: Seq<In>) -> bool {
        forall|k: int|
            0 <= k < self.adapters@.len() ==> #[trigger] self.adapters@[k].req1(idx[k])
    }

    open spec fn spec_adapt(&self, idx: Seq<In>) -> Seq<Out> {
        Seq::new(idx.len(), |k: int| self.adapters@[k].spec_adapt1(idx[k]))
    }

    proof fn adapt_len(&self, idx: Seq<In>) {
    }

    fn adapt(&self, idx: &Vec<In>) -> (r: Vec<Out>) {
        let mut out: Vec<Out> = Vec::new();
        let mut i: usize = 0;
        while i < idx.len()
            invariant
                i <= idx@.len(),
                out@.len() == i,
                idx@.len() == self.adapters@.len(),
                forall|k: int|
                    0 <= k < self.adapters@.len() ==> #[trigger] self.adapters@[k].req1(idx@[k]),
                forall|k: int| 0 <= k < i ==> out@[k] == self.spec_adapt(idx@)[k],
            decreases idx@.len() - i,
        {
            let v = self.adapters[i].adapt(idx[i]);
            out.push(v);
            i += 1;
        }
        proof {
            assert(out@ =~= self.spec_adapt(idx@));
        }
        out
    }
}

/// Adapter which scales a coordinate: each input axis value is multiplied by
/// the matching scale factor to produce the output axis value.
#[derive(Clone, Debug)]
pub struct Scale {
    pub factors: Vec<i64>,
}

impl Scale {
    pub fn new(factors: Vec<i64>) -> (r: Self)
        ensures
            r.factors == factors,
    {
        Scale { factors }
    }
}

impl Adapter<i64, i64> for Scale {
    open spec fn dims(&self) -> nat {
        self.factors@.len()
    }

    open spec fn req(&self, idx: Seq<i64>) -> bool {
        forall|k: int|
            0 <= k < self.factors@.len() ==> i64::MIN <= #[trigger] (idx[k] * self.factors@[k])
                <= i64::MAX
    }

    open spec fn spec_adapt(&self, idx: Seq<i64>) -> Seq<i64> {
        Seq::new(idx.len(), |k: int| (idx[k] * self.factors@[k]) as i64)
    }

    proof fn adapt_len(&self, idx: Seq<i64>) {
    }

    fn adapt(&self, idx: &Vec<i64>) -> (r: Vec<i64>) {
        let mut out: Vec<i64> = Vec::new();
        let mut i: usize = 0;
        while i < idx.len()
            invariant
                i <= idx@.len(),
                out@.len() == i,
                idx@.len() == self.factors@.len(),
                forall|k: int|
                    0 <= k < self.factors@.len() ==> i64::MIN <= #[trigger] (idx@[k]
                        * self.factors@[k]) <= i64::MAX,
                forall|k: int| 0 <= k < i ==> out@[k] == self.spec_adapt(idx@)[k],
            decreases idx@.len() - i,
        {
            let v = idx[i] * self.factors[i];
            out.push(v);
            i += 1;
        }
        proof {
            assert(out@ =~= self.spec_adapt(idx@));
        }
        out
    }
}

/// Adapter which offsets (translates) a coordinate: the matching factor is
/// added to each input axis value.
#[derive(Clone, Debug)]
pub struct Offset {
    pub factors: Vec<i64>,
}

impl Offset {
    pub fn new(factors: Vec<i64>) -> (r: Self)
        ensures
            r.factors == factors,
    {
        Offset { factors }
    }
}

impl Adapter<i64, i64> for Offset {
    open spec fn dims(&self) -> nat {
        self.factors@.len()
    }

    open spec fn req(&self, idx: Seq<i64>) -> bool {
        forall|k: int|
            0 <= k < self.factors@.len() ==> i64::MIN <= #[trigger] (idx[k] + self.factors@[k])
                <= i64::MAX
    }

    open spec fn spec_adapt(&self, idx: Seq<i64>) -> Seq<i64> {
        Seq::new(idx.len(), |k: int| (idx[k] + self.factors@[k]) as i64)
    }

    proof fn adapt_len(&self, idx: Seq<i64>) {
    }

    fn adapt(&self, idx: &Vec<i64>) -> (r: Vec<i64>) {
        let mut out: Vec<i64> = Vec::new();
        let mut i: usize = 0;
        while i < idx.len()
            invariant
                i <= idx@.len(),
                out@.len() == i,
                idx@.len() == self.factors@.len(),
                forall|k: int|
                    0 <= k < self.factors@.len() ==> i64::MIN <= #[trigger] (idx@[k]
                        + self.factors@[k]) <= i64::MAX,
                forall|k: int| 0 <= k < i ==> out@[k] == self.spec_adapt(idx@)[k],
            decreases idx@.len() - i,
        {
            let v = idx[i] + self.factors[i];
            out.push(v);
            i += 1;
        }
        proof {
            assert(out@ =~= self.spec_adapt(idx@));
        }
        out
    }
}

/// Scaling by a factor of one on every axis leaves every coordinate unchanged.
pub proof fn lemma_scale_identity(s: Scale, idx: Seq<i64>)
    requires
        idx.len() == s.dims(),
        forall|k: int| 0 <= k < s.factors@.len() ==> #[trigger] s.factors@[k] == 1i64,
    ensures
        s.req(idx),
        s.spec_adapt(idx) == idx,
{
    assert(s.spec_adapt(idx) =~= idx);
}

/// Offsetting by a factor of zero on every axis leaves every coordinate unchanged.
pub proof fn lemma_offset_identity(o: Offset, idx: Seq<i64>)
    requires
        idx.len() == o.dims(),
        forall|k: int| 0 <= k < o.factors@.len() ==> #[trigger] o.factors@[k] == 0i64,
    ensures
        o.req(idx),
        o.spec_adapt(idx) == idx,
{
    assert(o.spec_adapt(idx) =~= idx);
}

} // verus!
