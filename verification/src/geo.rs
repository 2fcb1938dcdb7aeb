use vstd::prelude::*;
use crate::dim::{dup_prefix, dup_shape, lemma_product_skip, product, shape_fits};
use crate::error::Error;
use crate::shapes::{
    bc_a_shape, bc_b_shape, bc_c_shape, dim_k, dim_m, dim_n, final_c_shape, infer_shapes, prefix,
    shape_error, shapes_agree,
};

verus! {

/// The strides of the prefix axes of a row-major array, innermost prefix
/// axis first: entry `j` is the product of the last `j + 2` dims.
pub open spec fn stride_prefix(shape: Seq<usize>) -> Seq<usize> {
    Seq::new(
        (shape.len() - 2) as nat,
        |j: int| product(shape.skip(shape.len() - 2 - j)) as usize,
    )
}

/// Computes `stride_prefix`; `None` where a trailing product overflows.
fn compute_stride_prefix(shape: &Vec<usize>) -> (r: Option<Vec<usize>>)
    requires
        shape@.len() >= 2,
    ensures
        r is Some <==> shape_fits(shape@),
        r matches Some(v) ==> v@ == stride_prefix(shape@),
{
    let rank = shape.len();
    let mut out: Vec<usize> = Vec::new();
    let mut stride: usize = 1;
    let mut i: usize = 0;
    proof {
        lemma_product_skip(shape@, rank as int);
    }
    while i < rank
        invariant
            i <= rank,
            rank == shape@.len(),
            rank >= 2,
            stride == product(shape@.skip(rank - i)),
            forall|t: int| rank - i <= t <= rank ==> #[trigger] product(shape@.skip(t)) <= usize::MAX,
            out@.len() == (if i >= 2 {
                i - 2
            } else {
                0
            }),
            forall|j: int|
                0 <= j < out@.len() ==> #[trigger] out@[j] == product(shape@.skip(rank - 2 - j)),
        decreases rank - i,
    {
        if i >= 2 {
            out.push(stride);
        }
        proof {
            lemma_product_skip(shape@, rank - 1 - i);
        }
        let dim = shape[rank - 1 - i];
        match dim.checked_mul(stride) {
            Some(s) => {
                stride = s;
            },
            None => {
                assert(product(shape@.skip(rank - 1 - i)) > usize::MAX);
                return None;
            },
        }
        i += 1;
    }
    assert(out@ =~= stride_prefix(shape@));
    Some(out)
}

/// The geometry of one batched matrix product over concrete shapes.
#[derive(Debug)]
pub struct Geo {
    pub m: usize,
    pub k: usize,
    pub n: usize,
    pub a_shape: Vec<usize>,
    pub a_trans: bool,
    pub b_shape: Vec<usize>,
    pub b_trans: bool,
    pub bc_a_shape: Vec<usize>,
    pub bc_b_shape: Vec<usize>,
    pub bc_c_shape: Vec<usize>,
    pub final_c_shape: Vec<usize>,
    pub c_trans: bool,
    pub c_shape_prefix: Vec<usize>,
    pub a_stride_prefix: Vec<usize>,
    pub b_stride_prefix: Vec<usize>,
    pub c_stride_prefix: Vec<usize>,
}

impl Geo {
    /// The geometry is the one of the product of `a` and `b` under the flags.
    pub open spec fn describes(
        &self,
        a: Seq<usize>,
        b: Seq<usize>,
        a_trans: bool,
        b_trans: bool,
        c_trans: bool,
    ) -> bool {
        &&& self.bc_a_shape@.len() >= 2
        &&& self.bc_a_shape@.len() == self.bc_b_shape@.len() == self.bc_c_shape@.len()
        &&& self.a_shape@ == a
        &&& self.b_shape@ == b
        &&& self.a_trans == a_trans
        &&& self.b_trans == b_trans
        &&& self.c_trans == c_trans
        &&& self.bc_a_shape@ == bc_a_shape(a, b, a_trans)
        &&& self.bc_b_shape@ == bc_b_shape(a, b, b_trans)
        &&& self.bc_c_shape@ == bc_c_shape(a, b, a_trans, b_trans, c_trans)
        &&& self.final_c_shape@ == final_c_shape(a, b, a_trans, b_trans, c_trans)
        &&& self.m == dim_m(self.bc_a_shape@, a_trans)
        &&& self.k == dim_k(self.bc_a_shape@, a_trans)
        &&& self.n == dim_n(self.bc_b_shape@, b_trans)
        &&& self.c_shape_prefix@ == prefix(self.bc_c_shape@)
        &&& self.a_stride_prefix@ == stride_prefix(self.bc_a_shape@)
        &&& self.b_stride_prefix@ == stride_prefix(self.bc_b_shape@)
        &&& self.c_stride_prefix@ == stride_prefix(self.bc_c_shape@)
    }

    /// The sizes that the geometry holds all fit the machine.
    pub open spec fn sizes_fit(
        a: Seq<usize>,
        b: Seq<usize>,
        a_trans: bool,
        b_trans: bool,
        c_trans: bool,
    ) -> bool {
        &&& shape_fits(bc_a_shape(a, b, a_trans))
        &&& shape_fits(bc_b_shape(a, b, b_trans))
        &&& shape_fits(bc_c_shape(a, b, a_trans, b_trans, c_trans))
    }

    /// Works out the geometry of the product of two operands from their
    /// shapes. Fails as `infer_shapes` does, else with `Overflow` where a
    /// stride is no machine length.
    pub fn new(
        a_shape: &Vec<usize>,
        b_shape: &Vec<usize>,
        a_trans: bool,
        b_trans: bool,
        c_trans: bool,
    ) -> (r: Result<Geo, Error>)
        ensures
            r matches Ok(geo) ==> geo.describes(a_shape@, b_shape@, a_trans, b_trans, c_trans),
            r is Ok <==> shapes_agree(a_shape@, b_shape@, a_trans, b_trans) && Geo::sizes_fit(
                a_shape@,
                b_shape@,
                a_trans,
                b_trans,
                c_trans,
            ),
            r matches Err(e) ==> e == (if shapes_agree(a_shape@, b_shape@, a_trans, b_trans) {
                Error::Overflow
            } else {
                shape_error(a_shape@, b_shape@, a_trans, b_trans)
            }),
    {
        let shapes = infer_shapes(dup_shape(a_shape), dup_shape(b_shape), a_trans, b_trans, c_trans);
        let (bc_a_shape, bc_b_shape, bc_c_shape, final_c_shape) = match shapes {
            Ok(s) => s,
            Err(e) => {
                return Err(e);
            },
        };
        let rank = bc_a_shape.len();
        assert(rank >= 2 && bc_b_shape@.len() == rank && bc_c_shape@.len() == rank);
        let m = if a_trans { bc_a_shape[rank - 1] } else { bc_a_shape[rank - 2] };
        let k = if a_trans { bc_a_shape[rank - 2] } else { bc_a_shape[rank - 1] };
        let n = if b_trans { bc_b_shape[rank - 2] } else { bc_b_shape[rank - 1] };
        let a_stride_prefix = match compute_stride_prefix(&bc_a_shape) {
            Some(s) => s,
            None => {
                return Err(Error::Overflow);
            },
        };
        let b_stride_prefix = match compute_stride_prefix(&bc_b_shape) {
            Some(s) => s,
            None => {
                return Err(Error::Overflow);
            },
        };
        let c_stride_prefix = match compute_stride_prefix(&bc_c_shape) {
            Some(s) => s,
            None => {
                return Err(Error::Overflow);
            },
        };
        let c_shape_prefix = dup_prefix(&bc_c_shape, rank - 2);
        Ok(
            Geo {
                m,
                k,
                n,
                c_shape_prefix,
                bc_a_shape,
                bc_b_shape,
                bc_c_shape,
                final_c_shape,
                a_shape: dup_shape(a_shape),
                b_shape: dup_shape(b_shape),
                a_stride_prefix,
                b_stride_prefix,
                c_stride_prefix,
                a_trans,
                b_trans,
                c_trans,
            },
        )
    }
}

} // verus!
