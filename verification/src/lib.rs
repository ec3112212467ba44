//! Addressing layer that resolves logical coordinates -- possibly negative,
//! beyond the stored extent, or continuous -- into coordinates valid inside a
//! finite backing store, via boundary policies and composable transforms.
use vstd::prelude::*;

pub mod adapt;
pub mod extend;
pub mod ndarr;
pub mod traits;

use crate::adapt::{Adapter, Adapter1D};
use crate::extend::{lemma_resolve_index_in_range, Extender};
use crate::traits::{
    in_extent, round_half_away, seq_as_int, BoundedIndexable, Fixed, Idx, UnboundedIndexable,
};
use core::marker::PhantomData;

verus! {

/// Turns a bounded store into an unbounded one by answering every miss --
/// negative component, or component beyond the extent -- with one constant
/// fill value.
pub struct UnboundedIndexableWrapperConstant<T: Copy, B: BoundedIndexable<T>> {
    pub data: B,
    pub cval: T,
}

impl<T: Copy, B: BoundedIndexable<T>> UnboundedIndexableWrapperConstant<T, B> {
    pub fn new(wrapped: B, cval: T) -> (r: Self)
        ensures
            r.data == wrapped,
            r.cval == cval,
    {
        UnboundedIndexableWrapperConstant { data: wrapped, cval }
    }
}

/// A signed coordinate as mathematical integers.
pub open spec fn signed_as_int(idx: Seq<i64>) -> Seq<int> {
    Seq::new(idx.len(), |k: int| idx[k] as int)
}

impl<T: Copy, B: BoundedIndexable<T>> UnboundedIndexable<T, i64> for UnboundedIndexableWrapperConstant<
    T,
    B,
> {
    open spec fn wf(&self) -> bool {
        self.data.wf()
    }

    open spec fn dims(&self) -> nat {
        self.data.dims()
    }

    open spec fn get_req(&self, idx: Seq<i64>) -> bool {
        true
    }

    open spec fn uget(&self, idx: Seq<i64>) -> T {
        if in_extent(signed_as_int(idx), self.data.extent()) {
            self.data.val_at(signed_as_int(idx))
        } else {
            self.cval
        }
    }

    fn get(&self, idx: &Vec<i64>) -> (r: T) {
        let ghost ii = signed_as_int(idx@);
        proof {
            self.data.extent_wf();
        }
        let mut u: Vec<usize> = Vec::new();
        let mut i: usize = 0;
        while i < idx.len()
            invariant
                i <= idx@.len(),
                u@.len() == i,
                ii == signed_as_int(idx@),
                self.data.wf(),
                idx@.len() == self.data.dims(),
                self.data.extent().len() == self.data.dims(),
                forall|k: int|
                    0 <= k < self.data.extent().len() ==> 0 < #[trigger] self.data.extent()[k]
                        <= usize::MAX as int,
                forall|k: int| 0 <= k < i ==> #[trigger] u@[k] as int == idx@[k] as int,
            decreases idx@.len() - i,
        {
            let v = idx[i];
            if v < 0 {
                proof {
                    assert(ii[i as int] == idx@[i as int] as int);
                    assert(!in_extent(ii, self.data.extent()));
                }
                return self.cval;
            }
            if v as u128 > usize::MAX as u128 {
                proof {
                    assert(ii[i as int] == idx@[i as int] as int);
                    assert(ii[i as int] > self.data.extent()[i as int]);
                    assert(!in_extent(ii, self.data.extent()));
                }
                return self.cval;
            }
            u.push(v as usize);
            i += 1;
        }
        proof {
            assert(seq_as_int(u@) =~= ii);
        }
        let got = self.data.get(&u);
        match got {
            Some(c) => c,
            None => self.cval,
        }
    }
}

/// Turns a bounded store into an unbounded one by folding every coordinate
/// into the store's extent with a boundary extender of matching shape.
pub struct UnboundedIndexableWrapperExtend<T: Copy, B: BoundedIndexable<T>> {
    pub data: B,
    pub extender: Extender,
    pub _t: PhantomData<T>,
}

impl<T: Copy, B: BoundedIndexable<T>> UnboundedIndexableWrapperExtend<T, B> {
    pub fn new(wrapped: B, extender: Extender) -> (r: Self)
        ensures
            r.data == wrapped,
            r.extender == extender,
    {
        UnboundedIndexableWrapperExtend { data: wrapped, extender, _t: PhantomData }
    }
}

impl<T: Copy, B: BoundedIndexable<T>> UnboundedIndexable<T, i64> for UnboundedIndexableWrapperExtend<
    T,
    B,
> {
    /// The extender must fold coordinates into exactly the extent of the
    /// store it was paired with; a mismatch is a contract violation, not a
    /// miss.
    open spec fn wf(&self) -> bool {
        self.data.wf() && self.extender.dims() == self.data.dims() && self.extender.lengths()
            == self.data.extent()
    }

    open spec fn dims(&self) -> nat {
        self.data.dims()
    }

    open spec fn get_req(&self, idx: Seq<i64>) -> bool {
        true
    }

    open spec fn uget(&self, idx: Seq<i64>) -> T {
        let resolved = self.extender.spec_adapt(idx);
        self.data.val_at(Seq::new(resolved.len(), |k: int| resolved[k] as int))
    }

    fn get(&self, idx: &Vec<i64>) -> (r: T) {
        proof {
            self.data.extent_wf();
            assert forall|k: int|
                0 <= k < self.extender.adapter.adapters@.len() implies #[trigger] self.extender.adapter.adapters@[k].req1(
                idx@[k],
            ) by {
                assert(self.extender.lengths()[k] == self.data.extent()[k]);
            }
        }
        let adapted = self.extender.adapt(idx);
        proof {
            self.extender.adapt_len(idx@);
            assert forall|k: int|
                0 <= k < adapted@.len() implies 0 <= #[trigger] seq_as_int(adapted@)[k]
                < self.data.extent()[k] by {
                let ad = self.extender.adapter.adapters@[k];
                assert(self.extender.lengths()[k] == self.data.extent()[k]);
                assert(ad.length as int >= 1);
                lemma_resolve_index_in_range(ad.e_type, idx@[k] as int, ad.length as int);
                assert(adapted@[k] == ad.spec_adapt1(idx@[k]));
            }
            assert(in_extent(seq_as_int(adapted@), self.data.extent()));
        }
        let got = self.data.get(&adapted);
        proof {
            let resolved = self.extender.spec_adapt(idx@);
            assert(seq_as_int(adapted@) =~= Seq::new(resolved.len(), |k: int| resolved[k] as int));
        }
        got.unwrap()
    }
}

/// The integer coordinate that nearest rounding sends a continuous coordinate to.
pub open spec fn rounded_coord(idx: Seq<Fixed>) -> Seq<i64> {
    Seq::new(idx.len(), |k: int| round_half_away(idx[k].thousandths as int) as i64)
}

/// Adapts an unbounded integer-indexed store to continuous coordinates by
/// rounding every axis component to the nearest integer, ties away from zero.
pub struct RealIndexableWrapperNearest<T: Copy, U: UnboundedIndexable<T, i64>> {
    pub data: U,
    pub _t: PhantomData<T>,
}

impl<T: Copy, U: UnboundedIndexable<T, i64>> RealIndexableWrapperNearest<T, U> {
    pub fn new(wrapped: U) -> (r: Self)
        ensures
            r.data == wrapped,
    {
        RealIndexableWrapperNearest { data: wrapped, _t: PhantomData }
    }
}

impl<T: Copy, U: UnboundedIndexable<T, i64>> UnboundedIndexable<T, Fixed> for RealIndexableWrapperNearest<
    T,
    U,
> {
    open spec fn wf(&self) -> bool {
        self.data.wf()
    }

    open spec fn dims(&self) -> nat {
        self.data.dims()
    }

    open spec fn get_req(&self, idx: Seq<Fixed>) -> bool {
        self.data.get_req(rounded_coord(idx))
    }

    open spec fn uget(&self, idx: Seq<Fixed>) -> T {
        self.data.uget(rounded_coord(idx))
    }

    fn get(&self, idx: &Vec<Fixed>) -> (r: T) {
        let mut ri: Vec<i64> = Vec::new();
        let mut i: usize = 0;
        while i < idx.len()
            invariant
                i <= idx@.len(),
                ri@.len() == i,
                forall|k: int| 0 <= k < i ==> #[trigger] ri@[k] == rounded_coord(idx@)[k],
            decreases idx@.len() - i,
        {
            let f = idx[i];
            let v = f.round_nearest();
            ri.push(v);
            i += 1;
        }
        proof {
            assert(ri@ =~= rounded_coord(idx@));
        }
        self.data.get(&ri)
    }
}

/// Chains an arbitrary coordinate-space transform in front of an unbounded
/// store: a lookup adapts the coordinate, then delegates.
pub struct AdaptingWrapper<
    T: Copy,
    I1: Idx,
    I2: Idx,
    U: UnboundedIndexable<T, I2>,
    A: Adapter<I1, I2>,
> {
    pub data: U,
    pub adapter: A,
    pub _t: PhantomData<T>,
    pub _i1: PhantomData<I1>,
    pub _i2: PhantomData<I2>,
}

impl<T: Copy, I1: Idx, I2: Idx, U: UnboundedIndexable<T, I2>, A: Adapter<I1, I2>> AdaptingWrapper<
    T,
    I1,
    I2,
    U,
    A,
> {
    pub fn new(wrapped: U, adapter: A) -> (r: Self)
        ensures
            r.data == wrapped,
            r.adapter == adapter,
    {
        AdaptingWrapper {
            data: wrapped,
            adapter,
            _t: PhantomData,
            _i1: PhantomData,
            _i2: PhantomData,
        }
    }
}

impl<T: Copy, I1: Idx, I2: Idx, U: UnboundedIndexable<T, I2>, A: Adapter<I1, I2>> UnboundedIndexable<
    T,
    I1,
> for AdaptingWrapper<T, I1, I2, U, A> {
    open spec fn wf(&self) -> bool {
        self.data.wf() && self.adapter.dims() == self.data.dims()
    }

    open spec fn dims(&self) -> nat {
        self.adapter.dims()
    }

    open spec fn get_req(&self, idx: Seq<I1>) -> bool {
        self.adapter.req(idx) && self.data.get_req(self.adapter.spec_adapt(idx))
    }

    open spec fn uget(&self, idx: Seq<I1>) -> T {
        self.data.uget(self.adapter.spec_adapt(idx))
    }

    fn get(&self, idx: &Vec<I1>) -> (r: T) {
        let adapted = self.adapter.adapt(idx);
        self.data.get(&adapted)
    }
}

} // verus!
