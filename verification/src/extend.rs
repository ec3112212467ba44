//! Boundary-extension policies: fold any signed axis coordinate back into the
//! valid range of an axis of a given length.
use vstd::prelude::*;

use crate::adapt::{Adapter, Adapter1D, AdapterND};
use vstd::arithmetic::div_mod::{lemma_fundamental_div_mod, lemma_fundamental_div_mod_converse};

verus! {

/// Per-axis boundary policy.
#[derive(Clone, Copy, Debug, PartialEq, Eq, Structural)]
pub enum ExtenderType {
    /// Clamp to the nearest valid index.
    Nearest,
    /// Wrap around circularly with period length.
    Wrap,
    /// Mirror back and forth with period twice the length.
    Reflect,
}

/// The index in [0, len - 1] that a policy resolves a signed axis coordinate to.
pub open spec fn resolve_index(e_type: ExtenderType, idx: int, len: int) -> int {
    match e_type {
        ExtenderType::Nearest => if idx < 0 {
            0
        } else if idx >= len {
            len - 1
        } else {
            idx
        },
        ExtenderType::Wrap => {
            let a = if idx >= 0 {
                idx
            } else {
                -idx
            };
            let r = a % len;
            if idx >= 0 || r == 0 {
                r
            } else {
                len - r
            }
        },
        ExtenderType::Reflect => {
            let a = if idx >= 0 {
                idx
            } else {
                -idx
            };
            let d = a / len;
            let r0 = a % len;
            let r = if idx < 0 {
                if r0 == 0 {
                    len - 1
                } else {
                    r0 - 1
                }
            } else {
                r0
            };
            if d % 2 == 0 {
                r
            } else {
                len - 1 - r
            }
        },
    }
}

/// Totality of boundary extension: every policy maps every finite coordinate
/// of an axis of positive length to an index in [0, len - 1].
pub proof fn lemma_resolve_index_in_range(e_type: ExtenderType, idx: int, len: int)
    requires
        len >= 1,
    ensures
        0 <= resolve_index(e_type, idx, len) < len,
{
    match e_type {
        ExtenderType::Nearest => {
        },
        ExtenderType::Wrap => {
            let a = if idx >= 0 {
                idx
            } else {
                -idx
            };
            assert(0 <= a % len < len);
        },
        ExtenderType::Reflect => {
            let a = if idx >= 0 {
                idx
            } else {
                -idx
            };
            assert(0 <= a % len < len);
        },
    }
}

/// The clamping policy is exactly the three-way case split on the coordinate:
/// below the range it gives 0, beyond it the last index, inside it the
/// coordinate itself.
pub proof fn lemma_nearest_is_clamp(idx: int, len: int)
    requires
        len >= 1,
    ensures
        idx < 0 ==> resolve_index(ExtenderType::Nearest, idx, len) == 0,
        idx >= len ==> resolve_index(ExtenderType::Nearest, idx, len) == len - 1,
        0 <= idx < len ==> resolve_index(ExtenderType::Nearest, idx, len) == idx,
{
}

/// The wrapping policy picks the unique representative of the coordinate's
/// residue class modulo the length in [0, len - 1].
pub proof fn lemma_wrap_is_mod(idx: int, len: int)
    requires
        len >= 1,
    ensures
        resolve_index(ExtenderType::Wrap, idx, len) == idx % len,
{
    if idx >= 0 {
    } else {
        let a = -idx;
        let q = a / len;
        let r = a % len;
        lemma_fundamental_div_mod(a, len);
        if r == 0 {
            assert(idx == len * (-q) + 0) by (nonlinear_arith)
                requires
                    a == len * q + r,
                    r == 0,
                    idx == -a,
            ;
            lemma_fundamental_div_mod_converse(idx, len, -q, 0);
        } else {
            assert(idx == len * (-q - 1) + (len - r)) by (nonlinear_arith)
                requires
                    a == len * q + r,
                    idx == -a,
            ;
            lemma_fundamental_div_mod_converse(idx, len, -q - 1, len - r);
        }
    }
}

/// The last valid index is doubled under reflection: it is reached both from
/// the coordinate len - 1 and from the coordinate len.
pub proof fn lemma_reflect_boundary_doubled(len: int)
    requires
        len >= 1,
    ensures
        resolve_index(ExtenderType::Reflect, len - 1, len) == len - 1,
        resolve_index(ExtenderType::Reflect, len, len) == len - 1,
{
    lemma_fundamental_div_mod_converse(len - 1, len, 0, len - 1);
    lemma_fundamental_div_mod_converse(len, len, 1, 0);
}

/// Resolves signed coordinates on one axis of a known length under one policy.
#[derive(Clone, Copy, Debug)]
pub struct Extender1D {
    pub length: usize,
    pub e_type: ExtenderType,
}

impl Extender1D {
    pub fn new(length: usize, e_type: ExtenderType) -> (r: Self)
        ensures
            r.length == length,
            r.e_type == e_type,
    {
        Extender1D { length, e_type }
    }
}

impl Adapter1D<i64, usize> for Extender1D {
    /// Boundary extension is total in the coordinate; only the axis length
    /// must be positive.
    open spec fn req1(&self, idx: i64) -> bool {
        self.length >= 1
    }

    open spec fn spec_adapt1(&self, idx: i64) -> usize {
        resolve_index(self.e_type, idx as int, self.length as int) as usize
    }

    fn adapt(&self, idx: i64) -> (r: usize) {
        proof {
            lemma_resolve_index_in_range(self.e_type, idx as int, self.length as int);
        }
        let n = self.length as i128;
        match self.e_type {
            ExtenderType::Nearest => {
                if idx < 0 {
                    0
                } else if idx as i128 >= n {
                    self.length - 1
                } else {
                    idx as usize
                }
            },
            ExtenderType::Wrap => {
                let v = idx as i128;
                let a: i128 = if v >= 0 {
                    v
                } else {
                    -v
                };
                let r: i128 = a % n;
                let res: i128 = if v >= 0 || r == 0 {
                    r
                } else {
                    n - r
                };
                res as usize
            },
            ExtenderType::Reflect => {
                let v = idx as i128;
                let a: i128 = if v >= 0 {
                    v
                } else {
                    -v
                };
                let d: i128 = a / n;
                let r0: i128 = a % n;
                let r: i128 = if v < 0 {
                    if r0 == 0 {
                        n - 1
                    } else {
                        r0 - 1
                    }
                } else {
                    r0
                };
                let res: i128 = if d % 2 == 0 {
                    r
                } else {
                    n - 1 - r
                };
                res as usize
            },
        }
    }
}

/// Whole-coordinate boundary extension: one independent per-axis resolver per
/// axis, composed through the generic adapter machinery.
pub struct Extender {
    pub adapter: AdapterND<i64, usize, Extender1D>,
}

impl Extender {
    /// One (length, policy) pair per axis, the policy applied uniformly.
    pub fn new(shape: &Vec<usize>, e_type: ExtenderType) -> (r: Self)
        ensures
            r.adapter.adapters@.len() == shape@.len(),
            forall|k: int|
                0 <= k < shape@.len() ==> #[trigger] r.adapter.adapters@[k] == (Extender1D {
                    length: shape@[k],
                    e_type,
                }),
    {
        let mut ads: Vec<Extender1D> = Vec::new();
        let mut i: usize = 0;
        while i < shape.len()
            invariant
                i <= shape@.len(),
                ads@.len() == i,
                forall|k: int|
                    0 <= k < i ==> #[trigger] ads@[k] == (Extender1D {
                        length: shape@[k],
                        e_type,
                    }),
            decreases shape@.len() - i,
        {
            ads.push(Extender1D::new(shape[i], e_type));
            i += 1;
        }
        Extender { adapter: AdapterND::new(ads) }
    }

    /// The per-axis lengths this extender folds coordinates into.
    pub open spec fn lengths(&self) -> Seq<int> {
        Seq::new(self.adapter.adapters@.len(), |k: int| self.adapter.adapters@[k].length as int)
    }
}

impl Adapter<i64, usize> for Extender {
    open spec fn dims(&self) -> nat {
        self.adapter.dims()
    }

    open spec fn req(&self, idx: Seq<i64>) -> bool {
        self.adapter.req(idx)
    }

    open spec fn spec_adapt(&self, idx: Seq<i64>) -> Seq<usize> {
        self.adapter.spec_adapt(idx)
    }

    proof fn adapt_len(&self, idx: Seq<i64>) {
        self.adapter.adapt_len(idx);
    }

    fn adapt(&self, idx: &Vec<i64>) -> (r: Vec<usize>) {
        self.adapter.adapt(idx)
    }
}

} // verus!
