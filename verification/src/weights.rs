//! Loading model weights from a tensor container.
//!
//! A weight container holds named tensors as little-endian 32-bit floats.
//! The outside parser splits the container into named raw tensors; everything
//! after that — rejecting non-finite values, converting bits to fixed point,
//! looking names up, falling back to zeros for missing weights — is verified.

use vstd::prelude::*;

use crate::fixed::MAX_MAG;
use crate::tensor::{Matrix, MAX_DIM};

verus! {

/// One tensor as the container stores it: a name, a shape, the dtype's name,
/// and the raw little-endian payload.
pub struct RawTensor {
    pub name: String,
    pub shape: Vec<usize>,
    pub dtype: String,
    pub data: Vec<u8>,
}

/// The fixed-point value of one little-endian 32-bit float, or `None` for a
/// non-finite value (NaN or an infinity), which the loader rejects. The
/// magnitude is clamped into the engine's bounded activation range.
pub open spec fn spec_q16_of_bits(bits: u32) -> Option<i64> {
    let exp = (bits >> 23) & 0xff;
    let frac = bits & 0x7fffff;
    if exp == 0xff {
        None
    } else {
        let sig: u64 = if exp == 0 {
            frac as u64
        } else {
            (frac as u64) | 0x800000
        };
        let mag: u64 = if exp >= 134 {
            if exp >= 171 {
                0xffff_ffff_ffff_ffffu64
            } else {
                sig << ((exp - 134) as u64)
            }
        } else {
            if exp <= 110 {
                0u64
            } else {
                sig >> ((134 - exp) as u64)
            }
        };
        let magc: i64 = if mag > MAX_MAG as u64 {
            MAX_MAG
        } else {
            mag as i64
        };
        Some(
            if (bits >> 31) == 1 {
                (-magc) as i64
            } else {
                magc
            },
        )
    }
}

/// A converted value is always within the bounded range.
pub proof fn lemma_q16_of_bits_bounded(bits: u32)
    requires
        spec_q16_of_bits(bits) is Some,
    ensures
        -MAX_MAG <= spec_q16_of_bits(bits).unwrap() <= MAX_MAG,
{
}

/// Convert one little-endian float to fixed point; `None` rejects NaN/Inf.
pub fn q16_of_bits(bits: u32) -> (r: Option<i64>)
    ensures
        r == spec_q16_of_bits(bits),
{
    let exp: u32 = (bits >> 23) & 0xff;
    let frac: u32 = bits & 0x7fffff;
    if exp == 0xff {
        return None;
    }
    let sig: u64 = if exp == 0 {
        frac as u64
    } else {
        (frac as u64) | 0x800000
    };
    let mag: u64 = if exp >= 134 {
        if exp >= 171 {
            0xffff_ffff_ffff_ffffu64
        } else {
            sig << ((exp - 134) as u64)
        }
    } else {
        if exp <= 110 {
            0u64
        } else {
            sig >> ((134 - exp) as u64)
        }
    };
    let magc: i64 = if mag > MAX_MAG as u64 {
        MAX_MAG
    } else {
        mag as i64
    };
    Some(
        if (bits >> 31) == 1 {
            -magc
        } else {
            magc
        },
    )
}

/// The 32-bit word at position `i` of a little-endian byte payload.
pub open spec fn spec_le_u32(b: Seq<u8>, i: int) -> u32 {
    (b[4 * i] + b[4 * i + 1] * 0x100 + b[4 * i + 2] * 0x10000 + b[4 * i + 3] * 0x1000000) as u32
}

/// A payload converts cleanly when its length is whole words and no word is
/// a NaN or an infinity.
pub open spec fn payload_ok(b: Seq<u8>) -> bool {
    &&& b.len() % 4 == 0
    &&& forall|i: int| 0 <= i < b.len() / 4 ==> (#[trigger] spec_q16_of_bits(spec_le_u32(b, i)))
        is Some
}

/// The fixed-point entries of a clean payload.
pub open spec fn spec_entries(b: Seq<u8>) -> Seq<i64> {
    Seq::new((b.len() / 4) as nat, |i: int| spec_q16_of_bits(spec_le_u32(b, i)).unwrap())
}

/// Convert a little-endian float payload to fixed-point entries. Fails — and
/// only fails — on a ragged length or a non-finite value: this is the
/// numeric validation the loader applies to every tensor it materializes.
pub fn entries_of_payload(b: &Vec<u8>) -> (r: Option<Vec<i64>>)
    ensures
        r is Some <==> payload_ok(b@),
        r is Some ==> r.unwrap()@ == spec_entries(b@),
        r is Some ==> r.unwrap().len() == b.len() / 4,
{
    if b.len() % 4 != 0 {
        return None;
    }
    let n = b.len() / 4;
    let mut out: Vec<i64> = Vec::new();
    let mut i: usize = 0;
    while i < n
        invariant
            i <= n,
            n == b.len() / 4,
            b.len() % 4 == 0,
            out.len() == i,
            forall|t: int| 0 <= t < i ==> (#[trigger] spec_q16_of_bits(spec_le_u32(b@, t)))
                is Some,
            forall|t: int| 0 <= t < i ==> #[trigger] out@[t] == spec_q16_of_bits(
                spec_le_u32(b@, t),
            ).unwrap(),
        decreases n - i,
    {
        proof {
            assert(4 * i + 3 < b.len()) by (nonlinear_arith)
                requires
                    i < n,
                    n == b.len() / 4,
                    b.len() % 4 == 0,
            ;
        }
        let b0 = b[4 * i] as u32;
        let b1 = b[4 * i + 1] as u32;
        let b2 = b[4 * i + 2] as u32;
        let b3 = b[4 * i + 3] as u32;
        let bits: u32 = b0 + b1 * 0x100 + b2 * 0x10000 + b3 * 0x1000000;
        assert(bits == spec_le_u32(b@, i as int));
        match q16_of_bits(bits) {
            Some(v) => {
                out.push(v);
            },
            None => {
                return None;
            },
        }
        i = i + 1;
    }
    proof {
        assert(out@ =~= spec_entries(b@));
    }
    Some(out)
}

/// The weights of a model, each name bound to a fixed-point matrix.
pub struct WeightStore {
    pub tensors: Vec<(String, Matrix)>,
}

/// The first matrix bound to `name` with shape `rows x cols`, if any.
pub open spec fn store_find(
    s: Seq<(String, Matrix)>,
    name: Seq<char>,
    rows: int,
    cols: int,
) -> Option<Matrix>
    decreases s.len(),
{
    if s.len() == 0 {
        None
    } else {
        if s[0].0@ == name && s[0].1.rows == rows && s[0].1.cols == cols {
            Some(s[0].1)
        } else {
            store_find(s.drop_first(), name, rows, cols)
        }
    }
}

impl WeightStore {
    /// Every stored matrix is well-formed.
    pub open spec fn wf(self) -> bool {
        forall|k: int| 0 <= k < self.tensors.len() ==> (#[trigger] self.tensors@[k]).1.wf()
    }

    /// An empty store: every lookup falls back to zeros.
    pub fn new() -> (r: WeightStore)
        ensures
            r.wf(),
            r.tensors.len() == 0,
    {
        WeightStore { tensors: Vec::new() }
    }

    /// The matrix this store provides under `name` at shape `rows x cols`:
    /// the stored one, or the all-zero fallback when the name is missing or
    /// its shape disagrees.
    pub open spec fn s_provide(self, name: Seq<char>, rows: int, cols: int) -> GhostProvided {
        match store_find(self.tensors@, name, rows, cols) {
            Some(m) => GhostProvided { found: true, gm: m.gm() },
            None => GhostProvided { found: false, gm: crate::tensor::flat(rows, cols, |i: int, j: int| 0i64) },
        }
    }

    /// Look a weight up by name and shape; a missing or misshapen weight
    /// falls back to a zero-initialized matrix rather than a hard failure.
    pub fn provide(&self, name: &String, rows: usize, cols: usize) -> (r: Matrix)
        requires
            self.wf(),
            rows <= MAX_DIM,
            cols <= MAX_DIM,
        ensures
            r.wf(),
            r.rows == rows,
            r.cols == cols,
            r.gm() == self.s_provide(name@, rows as int, cols as int).gm,
    {
        let n = self.tensors.len();
        let mut k: usize = 0;
        proof {
            assert(self.tensors@.skip(0) =~= self.tensors@);
        }
        while k < n
            invariant
                k <= n,
                n == self.tensors.len(),
                self.wf(),
                store_find(self.tensors@, name@, rows as int, cols as int) == store_find(
                    self.tensors@.skip(k as int),
                    name@,
                    rows as int,
                    cols as int,
                ),
            decreases n - k,
        {
            proof {
                assert(self.tensors@.skip(k as int)[0] == self.tensors@[k as int]);
            }
            let hit = {
                let pair = &self.tensors[k];
                if pair.1.rows == rows && pair.1.cols == cols {
                    let eq: bool = pair.0 == *name;
                    eq
                } else {
                    false
                }
            };
            if hit {
                let m = clone_matrix(&self.tensors[k].1);
                proof {
                    assert(self.tensors@.skip(k as int)[0].0@ == name@);
                }
                return m;
            }
            proof {
                assert(self.tensors@.skip(k as int).drop_first() =~= self.tensors@.skip(
                    k as int + 1,
                ));
            }
            k = k + 1;
        }
        proof {
            assert(self.tensors@.skip(n as int) =~= Seq::<(String, Matrix)>::empty());
        }
        let z = Matrix::zeros(rows, cols);
        proof {
            assert forall|i: int, j: int| 0 <= i < z.rows && 0 <= j < z.cols implies #[trigger] z.gm().at(
                i,
                j,
            ) == 0i64 by {
                assert(z.at(i, j) == 0);
            };
            crate::tensor::lemma_is_flat(z, |i: int, j: int| 0i64);
        }
        z
    }
}

/// The ghost result of a store lookup: whether the name was found, and the
/// matrix value provided.
pub ghost struct GhostProvided {
    pub found: bool,
    pub gm: crate::tensor::GMat,
}

/// Copy a matrix.
pub fn clone_matrix(m: &Matrix) -> (r: Matrix)
    ensures
        r.gm() == m.gm(),
        r.rows == m.rows,
        r.cols == m.cols,
        r.data@ == m.data@,
{
    let mut data: Vec<i64> = Vec::new();
    let mut k: usize = 0;
    while k < m.data.len()
        invariant
            k <= m.data.len(),
            data@ == m.data@.take(k as int),
        decreases m.data.len() - k,
    {
        data.push(m.data[k]);
        proof {
            assert(data@ =~= m.data@.take(k as int + 1));
        }
        k = k + 1;
    }
    proof {
        assert(data@ =~= m.data@);
    }
    Matrix { data, rows: m.rows, cols: m.cols }
}

/// Relies on safetensors::SafeTensors::deserialize: splits a weight
/// container into named tensor views, each carrying its shape, its dtype's
/// name, and its raw little-endian payload; the parser validates that each
/// payload's length matches its shape and dtype.
#[verifier::external_body]
pub fn parse_safetensors(bytes: &Vec<u8>) -> (r: Result<Vec<RawTensor>, String>)
    ensures
        r is Ok ==> forall|k: int|
            0 <= k < r.unwrap().len() ==> (#[trigger] r.unwrap()@[k]).data.len() <= bytes.len(),
{
    match safetensors::SafeTensors::deserialize(bytes.as_slice()) {
        Ok(st) => {
            let mut out: Vec<RawTensor> = Vec::new();
            for (name, view) in st.tensors() {
                out.push(RawTensor {
                    name,
                    shape: view.shape().to_vec(),
                    dtype: view.dtype().to_string(),
                    data: view.data().to_vec(),
                });
            }
            Ok(out)
        },
        Err(e) => Err(e.to_string()),
    }
}

} // verus!
