//! Capability contracts: axis values, bounded stores, unbounded stores.
use vstd::prelude::*;

verus! {

/// Capability of a value used to address a single axis of a store.
/// N-dimensional data is addressed by a sequence of these, one per axis.
pub trait Idx: Copy {
}

impl Idx for i64 {}

impl Idx for usize {}

/// A continuous axis position, held as a whole number of thousandths, so that
/// nearest-integer rounding is exact integer arithmetic.
#[derive(Clone, Copy, Debug, PartialEq, Eq, Structural)]
pub struct Fixed {
    pub thousandths: i64,
}

/// Nearest integer to t/1000, ties rounded half away from zero.
pub open spec fn round_half_away(t: int) -> int {
    if t >= 0 {
        (t + 500) / 1000
    } else {
        -(((-t) + 500) / 1000)
    }
}

impl Fixed {
    pub fn from_thousandths(t: i64) -> (r: Self)
        ensures
            r.thousandths == t,
    {
        Fixed { thousandths: t }
    }

    /// Nearest integer to the position, ties rounded half away from zero.
    pub fn round_nearest(&self) -> (r: i64)
        ensures
            r as int == round_half_away(self.thousandths as int),
    {
        let t = self.thousandths as i128;
        if t >= 0 {
            ((t + 500) / 1000) as i64
        } else {
            (-(((-t) + 500) / 1000)) as i64
        }
    }
}

impl Idx for Fixed {}

/// idx is a valid physical coordinate for the per-axis lengths ext.
pub open spec fn in_extent(idx: Seq<int>, ext: Seq<int>) -> bool {
    idx.len() == ext.len() && forall|k: int|
        0 <= k < idx.len() ==> 0 <= #[trigger] idx[k] && idx[k] < ext[k]
}

/// A sequence of machine indices as mathematical integers.
pub open spec fn seq_as_int(s: Seq<usize>) -> Seq<int> {
    Seq::new(s.len(), |k: int| s[k] as int)
}

/// Contract for reading discrete, finite data: a lookup may miss.
pub trait BoundedIndexable<T: Copy> {
    /// Structural well-formedness of the store.
    spec fn wf(&self) -> bool;

    /// Number of axes.
    spec fn dims(&self) -> nat;

    /// Per-axis lengths; a coordinate component on axis k is valid in [0, extent()[k]).
    spec fn extent(&self) -> Seq<int>;

    /// The element held at an in-extent coordinate.
    spec fn val_at(&self, idx: Seq<int>) -> T;

    /// A well-formed store has one positive, machine-representable length per axis.
    proof fn extent_wf(&self)
        requires
            self.wf(),
        ensures
            self.extent().len() == self.dims(),
            forall|k: int|
                0 <= k < self.extent().len() ==> 0 < #[trigger] self.extent()[k] <= usize::MAX
                    as int,
    ;

    /// The element at idx, or None when any component lies outside the extent.
    fn get(&self, idx: &Vec<usize>) -> (r: Option<T>)
        requires
            self.wf(),
            idx@.len() == self.dims(),
        ensures
            in_extent(seq_as_int(idx@), self.extent()) ==> r == Some(
                self.val_at(seq_as_int(idx@)),
            ),
            !in_extent(seq_as_int(idx@), self.extent()) ==> r.is_none(),
    ;

    /// Per-axis (minimum, length) pairs consistent with what get accepts.
    fn bounds(&self) -> (r: Vec<(usize, usize)>)
        requires
            self.wf(),
        ensures
            r@.len() == self.dims(),
            forall|k: int|
                0 <= k < r@.len() ==> (#[trigger] r@[k]).0 == 0usize && r@[k].1 as int
                    == self.extent()[k],
    ;

    /// get applied to each coordinate independently, output order matching input order.
    fn multiget(&self, idxs: &Vec<Vec<usize>>) -> (r: Vec<Option<T>>)
        requires
            self.wf(),
            forall|j: int| 0 <= j < idxs@.len() ==> (#[trigger] idxs@[j])@.len() == self.dims(),
        ensures
            r@.len() == idxs@.len(),
            forall|j: int|
                0 <= j < idxs@.len() ==> #[trigger] r@[j] == (if in_extent(
                    seq_as_int(idxs@[j]@),
                    self.extent(),
                ) {
                    Some(self.val_at(seq_as_int(idxs@[j]@)))
                } else {
                    Option::<T>::None
                }),
    {
        let mut out: Vec<Option<T>> = Vec::new();
        let mut j: usize = 0;
        while j < idxs.len()
            invariant
                j <= idxs@.len(),
                out@.len() == j,
                self.wf(),
                forall|i: int| 0 <= i < idxs@.len() ==> (#[trigger] idxs@[i])@.len() == self.dims(),
                forall|i: int|
                    0 <= i < j ==> #[trigger] out@[i] == (if in_extent(
                        seq_as_int(idxs@[i]@),
                        self.extent(),
                    ) {
                        Some(self.val_at(seq_as_int(idxs@[i]@)))
                    } else {
                        Option::<T>::None
                    }),
            decreases idxs@.len() - j,
        {
            let v = self.get(&idxs[j]);
            out.push(v);
            j += 1;
        }
        out
    }
}

/// Contract for reading discrete but infinite data: a value exists everywhere.
pub trait UnboundedIndexable<T: Copy, I: Idx> {
    /// Structural well-formedness of the source.
    spec fn wf(&self) -> bool;

    /// Number of axes.
    spec fn dims(&self) -> nat;

    /// Extra per-implementation demand on a coordinate, such as adapter
    /// arithmetic staying within machine bounds.
    spec fn get_req(&self, idx: Seq<I>) -> bool;

    /// The value resolved for a coordinate.
    spec fn uget(&self, idx: Seq<I>) -> T;

    /// The value at idx; always succeeds.
    fn get(&self, idx: &Vec<I>) -> (r: T)
        requires
            self.wf(),
            idx@.len() == self.dims(),
            self.get_req(idx@),
        ensures
            r == self.uget(idx@),
    ;

    /// get applied to each coordinate independently, output order matching input order.
    fn multiget(&self, idxs: &Vec<Vec<I>>) -> (r: Vec<T>)
        requires
            self.wf(),
            forall|j: int|
                0 <= j < idxs@.len() ==> (#[trigger] idxs@[j])@.len() == self.dims()
                    && self.get_req(idxs@[j]@),
        ensures
            r@.len() == idxs@.len(),
            forall|j: int| 0 <= j < idxs@.len() ==> #[trigger] r@[j] == self.uget(idxs@[j]@),
    {
        let mut out: Vec<T> = Vec::new();
        let mut j: usize = 0;
        while j < idxs.len()
            invariant
                j <= idxs@.len(),
                out@.len() == j,
                self.wf(),
                forall|i: int|
                    0 <= i < idxs@.len() ==> (#[trigger] idxs@[i])@.len() == self.dims()
                        && self.get_req(idxs@[i]@),
                forall|i: int| 0 <= i < j ==> #[trigger] out@[i] == self.uget(idxs@[i]@),
            decreases idxs@.len() - j,
        {
            let v = self.get(&idxs[j]);
            out.push(v);
            j += 1;
        }
        out
    }
}

} // verus!
