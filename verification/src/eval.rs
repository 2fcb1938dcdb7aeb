use vstd::prelude::*;
use crate::datum::DatumType;
use crate::dim::product;
use crate::error::Error;
use crate::geo::{stride_prefix, Geo};
use crate::indices::{countable, tile_offset, tile_offsets, tile_offsets_fit};
use crate::matmul::{MatMul, MatMulUnary, QParams};
use crate::phy::{as_stride, eval_kernel, eval_kernel_of, KernelKind};
use crate::shapes::{bc_a_shape, bc_b_shape, bc_c_shape, prefix, shape_error, shapes_agree};
use crate::tensor::Tensor;

verus! {

/// How a batched product is evaluated: the kernel to run, the geometry, the
/// strides to hand to the kernel and to its packers, and for each index of
/// the prefix of the result, in row-major order, the offsets in elements of
/// the tiles of the two operands and of the result. The kernel itself runs
/// outside of this library.
#[derive(Debug)]
pub struct EvalPlan {
    pub kernel: KernelKind,
    pub geo: Geo,
    pub q_params: Option<QParams>,
    pub a_row_stride: isize,
    pub a_col_stride: isize,
    pub b_row_stride: isize,
    pub b_col_stride: isize,
    pub c_row_stride: isize,
    pub c_col_stride: isize,
    pub a_offsets: Vec<usize>,
    pub b_offsets: Vec<usize>,
    pub c_offsets: Vec<usize>,
}

/// The stride between rows of a matrix whose rows are `last` long, or of
/// its transpose.
pub open spec fn row_stride(last: usize, trans: bool) -> int {
    if trans {
        1
    } else {
        last as int
    }
}

/// The stride between columns of a matrix whose rows are `last` long, or of
/// its transpose.
pub open spec fn col_stride(last: usize, trans: bool) -> int {
    if trans {
        last as int
    } else {
        1
    }
}

/// The strides of the leading axes of a row-major array, in the order of
/// the axes, from the strides with the innermost of them first.
pub fn axis_strides(inner_first: &Vec<usize>) -> (r: Vec<usize>)
    ensures
        r@.len() == inner_first@.len(),
        forall|t: int| 0 <= t < r@.len() ==> #[trigger] r@[t] == inner_first@[r@.len() - 1 - t],
{
    let mut out: Vec<usize> = Vec::new();
    let n = inner_first.len();
    let mut t: usize = 0;
    while t < n
        invariant
            t <= n,
            n == inner_first@.len(),
            out@.len() == t,
            forall|u: int| 0 <= u < t ==> #[trigger] out@[u] == inner_first@[n - 1 - u],
        decreases n - t,
    {
        out.push(inner_first[n - 1 - t]);
        t += 1;
    }
    out
}

impl EvalPlan {
    /// The plan is the one for the product of operands of the given shapes
    /// with the given kernel.
    pub open spec fn plans(
        &self,
        a: Seq<usize>,
        b: Seq<usize>,
        a_trans: bool,
        b_trans: bool,
        c_trans: bool,
        q_params: Option<QParams>,
        kernel: KernelKind,
    ) -> bool {
        let bc_a = bc_a_shape(a, b, a_trans);
        let bc_b = bc_b_shape(a, b, b_trans);
        let bc_c = bc_c_shape(a, b, a_trans, b_trans, c_trans);
        let over = prefix(bc_c);
        &&& self.kernel == kernel
        &&& self.q_params == q_params
        &&& self.geo.describes(a, b, a_trans, b_trans, c_trans)
        &&& self.a_row_stride == row_stride(bc_a.last(), a_trans)
        &&& self.a_col_stride == col_stride(bc_a.last(), a_trans)
        &&& self.b_row_stride == row_stride(bc_b.last(), b_trans)
        &&& self.b_col_stride == col_stride(bc_b.last(), b_trans)
        &&& self.c_row_stride == row_stride(bc_c.last(), c_trans)
        &&& self.c_col_stride == col_stride(bc_c.last(), c_trans)
        &&& self.a_offsets@.len() == product(over)
        &&& self.b_offsets@.len() == product(over)
        &&& self.c_offsets@.len() == product(over)
        &&& forall|j: int|
            0 <= j < product(over) ==> #[trigger] self.a_offsets@[j] == tile_offset(bc_a, over, j)
        &&& forall|j: int|
            0 <= j < product(over) ==> #[trigger] self.b_offsets@[j] == tile_offset(bc_b, over, j)
        &&& forall|j: int|
            0 <= j < product(over) ==> #[trigger] self.c_offsets@[j] == tile_offset(bc_c, over, j)
    }

    /// Every size of the plan is a machine integer.
    pub open spec fn fits(
        a: Seq<usize>,
        b: Seq<usize>,
        a_trans: bool,
        b_trans: bool,
        c_trans: bool,
    ) -> bool {
        let bc_a = bc_a_shape(a, b, a_trans);
        let bc_b = bc_b_shape(a, b, b_trans);
        let bc_c = bc_c_shape(a, b, a_trans, b_trans, c_trans);
        let over = prefix(bc_c);
        &&& Geo::sizes_fit(a, b, a_trans, b_trans, c_trans)
        &&& bc_a.last() <= isize::MAX
        &&& bc_b.last() <= isize::MAX
        &&& bc_c.last() <= isize::MAX
        &&& countable(over)
        &&& tile_offsets_fit(bc_a, over)
        &&& tile_offsets_fit(bc_b, over)
        &&& tile_offsets_fit(bc_c, over)
    }
}

/// Plans the evaluation of the product of two tensors with the given
/// kernel: for each index of the prefix of the result, the tile of each
/// operand is read where broadcasting puts it, at the first position along
/// an axis of length one. `TypeMismatch` where an operand has not the
/// element type of the kernel, else as `infer_shapes`, else `Overflow` where
/// a size of the plan is no machine integer.
pub fn eval_t(
    a: &Tensor,
    b: &Tensor,
    a_trans: bool,
    b_trans: bool,
    c_trans: bool,
    q_params: Option<QParams>,
    kernel: KernelKind,
) -> (r:
    Result<EvalPlan, Error>)
    ensures
        r matches Ok(plan) ==> plan.plans(
            a@.shape,
            b@.shape,
            a_trans,
            b_trans,
            c_trans,
            q_params,
            kernel,
        ),
        r is Ok <==> a@.datum_type == kernel.a_type() && b@.datum_type == kernel.b_type()
            && shapes_agree(a@.shape, b@.shape, a_trans, b_trans) && EvalPlan::fits(
            a@.shape,
            b@.shape,
            a_trans,
            b_trans,
            c_trans,
        ),
        r matches Err(e) ==> e == (if a@.datum_type != kernel.a_type() || b@.datum_type
            != kernel.b_type() {
            Error::TypeMismatch
        } else if !shapes_agree(a@.shape, b@.shape, a_trans, b_trans) {
            shape_error(a@.shape, b@.shape, a_trans, b_trans)
        } else {
            Error::Overflow
        }),
{
    if a.datum_type() != kernel.operand_datum_type() || b.datum_type() != kernel.operand_datum_type() {
        return Err(Error::TypeMismatch);
    }
    let geo = match Geo::new(a.shape(), b.shape(), a_trans, b_trans, c_trans) {
        Ok(g) => g,
        Err(e) => {
            return Err(e);
        },
    };
    let rank = geo.bc_a_shape.len();
    assert(rank >= 2 && geo.bc_b_shape@.len() == rank && geo.bc_c_shape@.len() == rank);
    let lasts = (
        as_stride(geo.bc_a_shape[rank - 1]),
        as_stride(geo.bc_b_shape[rank - 1]),
        as_stride(geo.bc_c_shape[rank - 1]),
    );
    let (a_last, b_last, c_last) = match lasts {
        (Some(x), Some(y), Some(z)) => (x, y, z),
        _ => {
            return Err(Error::Overflow);
        },
    };
    let a_offsets = match tile_offsets(&geo.bc_a_shape, &geo.c_shape_prefix) {
        Ok(o) => o,
        Err(e) => {
            return Err(e);
        },
    };
    let b_offsets = match tile_offsets(&geo.bc_b_shape, &geo.c_shape_prefix) {
        Ok(o) => o,
        Err(e) => {
            return Err(e);
        },
    };
    let c_offsets = match tile_offsets(&geo.bc_c_shape, &geo.c_shape_prefix) {
        Ok(o) => o,
        Err(e) => {
            return Err(e);
        },
    };
    Ok(
        EvalPlan {
            kernel,
            geo,
            q_params,
            a_row_stride: if a_trans { 1 } else { a_last },
            a_col_stride: if a_trans { a_last } else { 1 },
            b_row_stride: if b_trans { 1 } else { b_last },
            b_col_stride: if b_trans { b_last } else { 1 },
            c_row_stride: if c_trans { 1 } else { c_last },
            c_col_stride: if c_trans { c_last } else { 1 },
            a_offsets,
            b_offsets,
            c_offsets,
        },
    )
}

/// Plans the evaluation of the product of two tensors with the kernel that
/// the dispatch table has for their types. `Unsupported` where it has none,
/// else as `eval_t`.
pub fn eval(
    a: &Tensor,
    b: &Tensor,
    a_trans: bool,
    b_trans: bool,
    c_trans: bool,
    q_params: Option<QParams>,
) -> (r:
    Result<EvalPlan, Error>)
    ensures
        r matches Ok(plan) ==> eval_kernel_of(a@.datum_type, b@.datum_type, q_params) is Some
            && plan.plans(
            a@.shape,
            b@.shape,
            a_trans,
            b_trans,
            c_trans,
            q_params,
            eval_kernel_of(a@.datum_type, b@.datum_type, q_params).unwrap(),
        ),
        r is Ok <==> eval_kernel_of(a@.datum_type, b@.datum_type, q_params) is Some
            && shapes_agree(a@.shape, b@.shape, a_trans, b_trans) && EvalPlan::fits(
            a@.shape,
            b@.shape,
            a_trans,
            b_trans,
            c_trans,
        ),
        r matches Err(e) ==> e == (if eval_kernel_of(a@.datum_type, b@.datum_type, q_params)
            is None {
            Error::Unsupported
        } else if !shapes_agree(a@.shape, b@.shape, a_trans, b_trans) {
            shape_error(a@.shape, b@.shape, a_trans, b_trans)
        } else {
            Error::Overflow
        }),
{
    let kernel = match eval_kernel(a.datum_type(), b.datum_type(), q_params) {
        Ok(k) => k,
        Err(e) => {
            return Err(e);
        },
    };
    eval_t(a, b, a_trans, b_trans, c_trans, q_params, kernel)
}

impl MatMul {
    /// Plans the evaluation of the product of the two inputs. `Arity` where
    /// there are fewer than two, else as `eval`.
    pub fn eval(&self, inputs: &Vec<Tensor>) -> (r: Result<EvalPlan, Error>)
        ensures
            r matches Ok(plan) ==> inputs@.len() >= 2 && eval_kernel_of(
                inputs@[0]@.datum_type,
                inputs@[1]@.datum_type,
                self.q_params,
            ) is Some && plan.plans(
                inputs@[0]@.shape,
                inputs@[1]@.shape,
                self.a_trans,
                self.b_trans,
                self.c_trans,
                self.q_params,
                eval_kernel_of(inputs@[0]@.datum_type, inputs@[1]@.datum_type, self.q_params).unwrap(),
            ),
            r is Ok <==> inputs@.len() >= 2 && eval_kernel_of(
                inputs@[0]@.datum_type,
                inputs@[1]@.datum_type,
                self.q_params,
            ) is Some && shapes_agree(
                inputs@[0]@.shape,
                inputs@[1]@.shape,
                self.a_trans,
                self.b_trans,
            ) && EvalPlan::fits(
                inputs@[0]@.shape,
                inputs@[1]@.shape,
                self.a_trans,
                self.b_trans,
                self.c_trans,
            ),
            r matches Err(e) ==> e == (if inputs@.len() < 2 {
                Error::Arity
            } else if eval_kernel_of(inputs@[0]@.datum_type, inputs@[1]@.datum_type, self.q_params)
                is None {
                Error::Unsupported
            } else if !shapes_agree(
                inputs@[0]@.shape,
                inputs@[1]@.shape,
                self.a_trans,
                self.b_trans,
            ) {
                shape_error(inputs@[0]@.shape, inputs@[1]@.shape, self.a_trans, self.b_trans)
            } else {
                Error::Overflow
            }),
    {
        if inputs.len() < 2 {
            return Err(Error::Arity);
        }
        eval(&inputs[0], &inputs[1], self.a_trans, self.b_trans, self.c_trans, self.q_params)
    }
}

impl MatMulUnary {
    /// Plans the evaluation of the product of the constant and the input.
    /// `Arity` where there is no input, else as `eval`.
    pub fn eval(&self, inputs: &Vec<Tensor>) -> (r: Result<EvalPlan, Error>)
        ensures
            r matches Ok(plan) ==> inputs@.len() >= 1 && eval_kernel_of(
                self@.a.datum_type,
                inputs@[0]@.datum_type,
                self.q_params,
            ) is Some && plan.plans(
                self@.a.shape,
                inputs@[0]@.shape,
                self.a_trans,
                self.b_trans,
                self.c_trans,
                self.q_params,
                eval_kernel_of(self@.a.datum_type, inputs@[0]@.datum_type, self.q_params).unwrap(),
            ),
            r is Ok <==> inputs@.len() >= 1 && eval_kernel_of(
                self@.a.datum_type,
                inputs@[0]@.datum_type,
                self.q_params,
            ) is Some && shapes_agree(self@.a.shape, inputs@[0]@.shape, self.a_trans, self.b_trans)
                && EvalPlan::fits(
                self@.a.shape,
                inputs@[0]@.shape,
                self.a_trans,
                self.b_trans,
                self.c_trans,
            ),
            r matches Err(e) ==> e == (if inputs@.len() < 1 {
                Error::Arity
            } else if eval_kernel_of(self@.a.datum_type, inputs@[0]@.datum_type, self.q_params)
                is None {
                Error::Unsupported
            } else if !shapes_agree(self@.a.shape, inputs@[0]@.shape, self.a_trans, self.b_trans) {
                shape_error(self@.a.shape, inputs@[0]@.shape, self.a_trans, self.b_trans)
            } else {
                Error::Overflow
            }),
    {
        if inputs.len() < 1 {
            return Err(Error::Arity);
        }
        eval(&self.a, &inputs[0], self.a_trans, self.b_trans, self.c_trans, self.q_params)
    }
}

} // verus!
