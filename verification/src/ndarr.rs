//! Simple implementation of an N-dimensional array, mainly for testing.
use vstd::prelude::*;

use crate::traits::{in_extent, seq_as_int, BoundedIndexable};
use vstd::arithmetic::div_mod::lemma_fundamental_div_mod;

verus! {

/// Every axis length is positive.
pub open spec fn valid_shape(s: Seq<int>) -> bool {
    forall|k: int| 0 <= k < s.len() ==> #[trigger] s[k] >= 1
}

/// Number of elements a shape holds: the product of its axis lengths.
pub open spec fn shape_product(s: Seq<int>) -> int
    decreases s.len(),
{
    if s.len() == 0 {
        1
    } else {
        shape_product(s.drop_last()) * s.last()
    }
}

/// Row-major linear index: the last axis varies fastest.
pub open spec fn row_major_index(shape: Seq<int>, idx: Seq<int>) -> int
    decreases shape.len(),
{
    if shape.len() == 0 {
        0
    } else {
        row_major_index(shape.drop_last(), idx.drop_last()) * shape.last() + idx.last()
    }
}

/// Column-major linear index: the first axis varies fastest.
pub open spec fn col_major_index(shape: Seq<int>, idx: Seq<int>) -> int
    decreases shape.len(),
{
    if shape.len() == 0 {
        0
    } else {
        col_major_index(shape.skip(1), idx.skip(1)) * shape[0] + idx[0]
    }
}

/// The linear index an ordering assigns to a coordinate.
pub open spec fn linear_index(o: Order, shape: Seq<int>, idx: Seq<int>) -> int {
    match o {
        Order::RowMajor => row_major_index(shape, idx),
        Order::ColumnMajor => col_major_index(shape, idx),
    }
}

/// The element count can also be peeled off the front of the shape.
pub proof fn lemma_shape_product_skip(s: Seq<int>)
    requires
        s.len() >= 1,
    ensures
        shape_product(s) == s[0] * shape_product(s.skip(1)),
    decreases s.len(),
{
    if s.len() == 1 {
        assert(s.drop_last() =~= s.skip(1));
    } else {
        let t = s.drop_last();
        lemma_shape_product_skip(t);
        assert(t.skip(1) =~= s.skip(1).drop_last());
        assert(s.skip(1).last() == s.last());
        assert((s[0] * shape_product(t.skip(1))) * s.last() == s[0] * (shape_product(t.skip(1))
            * s.last())) by (nonlinear_arith);
    }
}

/// A shape of positive axis lengths holds at least one element.
pub proof fn lemma_shape_product_pos(s: Seq<int>)
    requires
        valid_shape(s),
    ensures
        shape_product(s) >= 1,
    decreases s.len(),
{
    if s.len() == 0 {
    } else {
        let t = s.drop_last();
        assert forall|k: int| 0 <= k < t.len() implies #[trigger] t[k] >= 1 by {
            assert(t[k] == s[k]);
        }
        lemma_shape_product_pos(t);
        assert(shape_product(t) * s.last() >= 1) by (nonlinear_arith)
            requires
                shape_product(t) >= 1,
                s.last() >= 1,
        ;
    }
}

/// A prefix of a shape holds no more elements than the whole shape.
pub proof fn lemma_prod_prefix_le(s: Seq<int>, k: int)
    requires
        valid_shape(s),
        0 <= k <= s.len(),
    ensures
        shape_product(s.subrange(0, k)) <= shape_product(s),
    decreases s.len() - k,
{
    if k == s.len() {
        assert(s.subrange(0, k) =~= s);
    } else {
        lemma_prod_prefix_le(s, k + 1);
        let p = s.subrange(0, k);
        let pext = s.subrange(0, k + 1);
        assert(pext.drop_last() =~= p);
        assert forall|j: int| 0 <= j < p.len() implies #[trigger] p[j] >= 1 by {
            assert(p[j] == s[j]);
        }
        lemma_shape_product_pos(p);
        assert(shape_product(pext) == shape_product(p) * s[k]);
        assert(shape_product(p) <= shape_product(p) * s[k]) by (nonlinear_arith)
            requires
                shape_product(p) >= 1,
                s[k] >= 1,
        ;
    }
}

/// A suffix of a shape holds no more elements than the whole shape.
pub proof fn lemma_prod_suffix_le(s: Seq<int>, k: int)
    requires
        valid_shape(s),
        0 <= k <= s.len(),
    ensures
        shape_product(s.skip(k)) <= shape_product(s),
    decreases k,
{
    if k == 0 {
        assert(s.skip(0) =~= s);
    } else {
        lemma_prod_suffix_le(s, k - 1);
        let t = s.skip(k - 1);
        lemma_shape_product_skip(t);
        assert(t.skip(1) =~= s.skip(k));
        assert forall|j: int| 0 <= j < s.skip(k).len() implies #[trigger] s.skip(k)[j] >= 1 by {
            assert(s.skip(k)[j] == s[j + k]);
        }
        lemma_shape_product_pos(s.skip(k));
        assert(shape_product(s.skip(k)) <= s[k - 1] * shape_product(s.skip(k)))
            by (nonlinear_arith)
            requires
                shape_product(s.skip(k)) >= 1,
                s[k - 1] >= 1,
        ;
    }
}

/// Iteration order of the linear layout.
#[derive(Clone, Copy, Debug)]
pub enum Order {
    RowMajor,
    ColumnMajor,
}

impl Default for Order {
    fn default() -> (r: Self)
        ensures
            r == Order::RowMajor,
    {
        Order::RowMajor
    }
}

impl Order {
    /// Convert an array of per-axis indices into a linear index; None if any
    /// component is out of bounds for the shape.
    pub fn index(&self, shape: &Vec<usize>, index: &Vec<usize>) -> (r: Option<usize>)
        requires
            shape@.len() == index@.len(),
            valid_shape(seq_as_int(shape@)),
            shape_product(seq_as_int(shape@)) <= usize::MAX as int,
        ensures
            (match r {
                Some(l) => in_extent(seq_as_int(index@), seq_as_int(shape@)) && l as int
                    == linear_index(*self, seq_as_int(shape@), seq_as_int(index@)) && (l as int) < shape_product(seq_as_int(shape@)),
                None => !in_extent(seq_as_int(index@), seq_as_int(shape@)),
            }),
    {
        let ghost s_int = seq_as_int(shape@);
        let ghost i_int = seq_as_int(index@);
        match self {
            Order::RowMajor => {
                let mut total: usize = 0;
                let mut k: usize = 0;
                while k < shape.len()
                    invariant
                        k <= shape@.len(),
                        shape@.len() == index@.len(),
                        s_int == seq_as_int(shape@),
                        i_int == seq_as_int(index@),
                        valid_shape(s_int),
                        shape_product(s_int) <= usize::MAX as int,
                        forall|j: int| 0 <= j < k ==> 0 <= #[trigger] i_int[j] < s_int[j],
                        total as int == row_major_index(
                            s_int.subrange(0, k as int),
                            i_int.subrange(0, k as int),
                        ),
                        (total as int) < shape_product(s_int.subrange(0, k as int)),
                    decreases shape@.len() - k,
                {
                    if index[k] >= shape[k] {
                        proof {
                            assert(i_int[k as int] == index@[k as int] as int);
                            assert(s_int[k as int] == shape@[k as int] as int);
                            assert(!in_extent(i_int, s_int));
                        }
                        return None;
                    }
                    proof {
                        let ki = k as int;
                        assert(i_int[ki] == index@[ki] as int);
                        assert(s_int[ki] == shape@[ki] as int);
                        let p = s_int.subrange(0, ki);
                        let pext = s_int.subrange(0, ki + 1);
                        assert(pext.drop_last() =~= p);
                        assert(i_int.subrange(0, ki + 1).drop_last() =~= i_int.subrange(0, ki));
                        assert(shape_product(pext) == shape_product(p) * s_int[ki]);
                        assert(row_major_index(pext, i_int.subrange(0, ki + 1)) == row_major_index(
                            p,
                            i_int.subrange(0, ki),
                        ) * s_int[ki] + i_int[ki]);
                        assert(total as int * s_int[ki] + i_int[ki] < shape_product(p) * s_int[ki])
                            by (nonlinear_arith)
                            requires
                                (total as int) < shape_product(p),
                                0 <= i_int[ki] < s_int[ki],
                        ;
                        lemma_prod_prefix_le(s_int, ki + 1);
                    }
                    total = total * shape[k] + index[k];
                    k += 1;
                }
                proof {
                    assert(s_int.subrange(0, k as int) =~= s_int);
                    assert(i_int.subrange(0, k as int) =~= i_int);
                }
                Some(total)
            },
            Order::ColumnMajor => {
                let mut total: usize = 0;
                let mut k: usize = shape.len();
                while k > 0
                    invariant
                        k <= shape@.len(),
                        shape@.len() == index@.len(),
                        s_int == seq_as_int(shape@),
                        i_int == seq_as_int(index@),
                        valid_shape(s_int),
                        shape_product(s_int) <= usize::MAX as int,
                        forall|j: int|
                            k <= j < s_int.len() ==> 0 <= #[trigger] i_int[j] < s_int[j],
                        total as int == col_major_index(
                            s_int.skip(k as int),
                            i_int.skip(k as int),
                        ),
                        (total as int) < shape_product(s_int.skip(k as int)),
                    decreases k,
                {
                    let kk = k - 1;
                    if index[kk] >= shape[kk] {
                        proof {
                            assert(i_int[kk as int] == index@[kk as int] as int);
                            assert(s_int[kk as int] == shape@[kk as int] as int);
                            assert(!in_extent(i_int, s_int));
                        }
                        return None;
                    }
                    proof {
                        let ki = kk as int;
                        assert(i_int[ki] == index@[ki] as int);
                        assert(s_int[ki] == shape@[ki] as int);
                        let t = s_int.skip(ki);
                        lemma_shape_product_skip(t);
                        assert(t.skip(1) =~= s_int.skip(ki + 1));
                        assert(i_int.skip(ki).skip(1) =~= i_int.skip(ki + 1));
                        assert(col_major_index(t, i_int.skip(ki)) == col_major_index(
                            s_int.skip(ki + 1),
                            i_int.skip(ki + 1),
                        ) * s_int[ki] + i_int[ki]);
                        assert(total as int * s_int[ki] + i_int[ki] < shape_product(
                            s_int.skip(ki + 1),
                        ) * s_int[ki]) by (nonlinear_arith)
                            requires
                                (total as int) < shape_product(s_int.skip(ki + 1)),
                                0 <= i_int[ki] < s_int[ki],
                        ;
                        assert(shape_product(s_int.skip(ki + 1)) * s_int[ki] == shape_product(t))
                            by (nonlinear_arith)
                            requires
                                shape_product(t) == s_int[ki] * shape_product(s_int.skip(ki + 1)),
                        ;
                        lemma_prod_suffix_le(s_int, ki);
                    }
                    total = total * shape[kk] + index[kk];
                    k = kk;
                }
                proof {
                    assert(s_int.skip(0) =~= s_int);
                    assert(i_int.skip(0) =~= i_int);
                }
                Some(total)
            },
        }
    }
}

/// N-dimensional array backed by a Vec.
pub struct VecNDArray<T> {
    pub data: Vec<T>,
    pub shape: Vec<usize>,
    pub order: Order,
}

impl<T> VecNDArray<T> {
    /// Checks that all axes have nonzero length, and that the given shape
    /// matches the data length.
    pub fn new(data: Vec<T>, shape: Vec<usize>, order: Order) -> (r: Result<Self, &'static str>)
        ensures
            (match r {
                Ok(a) => valid_shape(seq_as_int(shape@)) && shape_product(seq_as_int(shape@))
                    == data@.len() as int && a.data == data && a.shape == shape && a.order == order,
                Err(e) => (!valid_shape(seq_as_int(shape@)) && e@ == "Zero-dimensional axis"@) || (
                valid_shape(seq_as_int(shape@)) && shape_product(seq_as_int(shape@))
                    != data@.len() as int && e@ == "Shape does not match underlying data"@),
            }),
    {
        let ghost s_int = seq_as_int(shape@);
        let dlen = data.len();
        let mut k: usize = 0;
        while k < shape.len()
            invariant
                k <= shape@.len(),
                s_int == seq_as_int(shape@),
                forall|j: int| 0 <= j < k ==> #[trigger] s_int[j] >= 1,
            decreases shape@.len() - k,
        {
            if shape[k] == 0 {
                proof {
                    assert(s_int[k as int] == shape@[k as int] as int);
                    assert(!valid_shape(s_int));
                }
                return Err("Zero-dimensional axis");
            }
            k += 1;
        }
        assert(valid_shape(s_int));
        let mut prod: usize = 1;
        let mut k2: usize = 0;
        while k2 < shape.len()
            invariant
                k2 <= shape@.len(),
                s_int == seq_as_int(shape@),
                valid_shape(s_int),
                dlen == data@.len(),
                prod as int == shape_product(s_int.subrange(0, k2 as int)),
                prod >= 1,
            decreases shape@.len() - k2,
        {
            let s = shape[k2];
            let ghost ki = k2 as int;
            proof {
                assert(s_int[ki] == shape@[ki] as int);
                assert(s_int.subrange(0, ki + 1).drop_last() =~= s_int.subrange(0, ki));
                assert(shape_product(s_int.subrange(0, ki + 1)) == shape_product(
                    s_int.subrange(0, ki),
                ) * s_int[ki]);
            }
            if prod > usize::MAX / s {
                proof {
                    lemma_fundamental_div_mod(usize::MAX as int, s as int);
                    let m = usize::MAX as int / s as int;
                    assert(prod as int * s as int > usize::MAX) by (nonlinear_arith)
                        requires
                            usize::MAX as int == s as int * m + usize::MAX as int % s as int,
                            0 <= usize::MAX as int % (s as int) < s as int,
                            (prod as int) >= m + 1,
                            (s as int) >= 1,
                    ;
                    lemma_prod_prefix_le(s_int, ki + 1);
                }
                return Err("Shape does not match underlying data");
            }
            proof {
                lemma_fundamental_div_mod(usize::MAX as int, s as int);
                assert(prod as int * (s as int) <= usize::MAX) by (nonlinear_arith)
                    requires
                        usize::MAX as int == s as int * (usize::MAX as int / (s as int))
                            + usize::MAX as int % (s as int),
                        0 <= usize::MAX as int % (s as int) < s as int,
                        prod as int <= usize::MAX as int / (s as int),
                        (s as int) >= 1,
                ;
                assert(prod as int * (s as int) >= 1) by (nonlinear_arith)
                    requires
                        prod >= 1,
                        (s as int) >= 1,
                ;
            }
            prod = prod * s;
            k2 += 1;
        }
        proof {
            assert(s_int.subrange(0, k2 as int) =~= s_int);
        }
        if dlen != prod {
            return Err("Shape does not match underlying data");
        }
        Ok(Self::new_unchecked(data, shape, order))
    }

    /// Skips checks.
    pub fn new_unchecked(data: Vec<T>, shape: Vec<usize>, order: Order) -> (r: Self)
        ensures
            r.data == data,
            r.shape == shape,
            r.order == order,
    {
        VecNDArray { data, shape, order }
    }
}

impl<T: Copy> BoundedIndexable<T> for VecNDArray<T> {
    open spec fn wf(&self) -> bool {
        valid_shape(seq_as_int(self.shape@)) && shape_product(seq_as_int(self.shape@))
            == self.data@.len() as int
    }

    open spec fn dims(&self) -> nat {
        self.shape@.len()
    }

    open spec fn extent(&self) -> Seq<int> {
        seq_as_int(self.shape@)
    }

    open spec fn val_at(&self, idx: Seq<int>) -> T {
        self.data@[linear_index(self.order, seq_as_int(self.shape@), idx)]
    }

    proof fn extent_wf(&self) {
    }

    fn get(&self, idx: &Vec<usize>) -> (r: Option<T>) {
        let n = self.data.len();
        let lin = self.order.index(&self.shape, idx);
        match lin {
            Some(l) => Some(self.data[l]),
            None => None,
        }
    }

    fn bounds(&self) -> (r: Vec<(usize, usize)>) {
        let mut out: Vec<(usize, usize)> = Vec::new();
        let mut k: usize = 0;
        while k < self.shape.len()
            invariant
                k <= self.shape@.len(),
                out@.len() == k,
                forall|j: int|
                    0 <= j < k ==> (#[trigger] out@[j]).0 == 0usize && out@[j].1 == self.shape@[j],
            decreases self.shape@.len() - k,
        {
            let s = self.shape[k];
            out.push((0, s));
            k += 1;
        }
        out
    }
}

} // verus!
