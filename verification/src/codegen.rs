use vstd::prelude::*;
use crate::datum::DatumType;
use crate::dim::{
    as_dims, checked_product, dup_prefix, dup_shape, product, shape_fits, to_dims, DimLike,
};
use crate::error::Error;
use crate::eval::{axis_strides, col_stride, row_stride};
use crate::fact::{finite_dims, is_finite, TypedFact, TypedFactView};
use crate::geo::{stride_prefix, Geo};
use crate::indices::{countable, tile_offset, tile_offsets, tile_offsets_fit};
use crate::matmul::{MatMulUnary, QParams};
use crate::model::{
    facts_view, ModelView, NodeView, Op, OpView, OutletId, TypedModel, TypedNode,
};
use crate::name::{join_label, labelled};
use crate::patch::{PatchView, TypedModelPatch};
use crate::phy::{
    as_stride, codegen_kernel, codegen_kernel_of, prefix_view, tensors_view, Kernel, KernelKind,
    MatMatMulPackB, MatMatMulPackBView, MatMatMulUnaryFinite, MatMatMulUnaryFiniteView, Packing,
    Storage,
};
use crate::shapes::{
    bc_a_shape, bc_b_shape, bc_c_shape, dim_k, dim_m, dim_n, final_c_shape, implicit_n,
    lemma_common_rank, operands_admit, prefix, shape_error, shapes_agree,
};
use crate::tensor::{Tensor, TensorView};

verus! {

/// What lowering a product with a constant asks of the kernel library: a
/// kernel of the given kind for the rows, inner dimension and columns of the
/// geometry.
#[derive(Debug)]
pub struct KernelRequest {
    pub kind: KernelKind,
    pub geo: Geo,
    pub b_shape: Vec<usize>,
}

impl MatMulUnary {
    /// Decides whether the product can be lowered to a kernel with the
    /// constant packed ahead of time, and which kernel that takes. Nothing
    /// is lowered while a dim of the wire depends on the stream. `Arity`
    /// unless the node has exactly one input, else `Outlet` where the graph
    /// lacks it, else `Unsupported` where the dispatch table has no kernel
    /// for the types, else as `Geo::new`.
    pub fn codegen(
        &self,
        model: &TypedModel,
        node: &TypedNode,
    ) -> (r: Result<Option<KernelRequest>, Error>)
        ensures
            r is Err <==> node@.inputs.len() != 1 || !model@.has_outlet(node@.inputs[0]) || ({
                let b = model@.fact(node@.inputs[0]);
                let b_shape = finite_dims(b.shape);
                is_finite(b.shape) && (codegen_kernel_of(
                    self@.a.datum_type,
                    b.datum_type,
                    self.q_params,
                ) is None || !shapes_agree(self@.a.shape, b_shape, self.a_trans, self.b_trans)
                    || !Geo::sizes_fit(
                    self@.a.shape,
                    b_shape,
                    self.a_trans,
                    self.b_trans,
                    self.c_trans,
                ))
            }),
            r matches Ok(None) ==> node@.inputs.len() == 1 && model@.has_outlet(node@.inputs[0])
                && !is_finite(model@.fact(node@.inputs[0]).shape),
            r matches Ok(Some(request)) ==> {
                let b = model@.fact(node@.inputs[0]);
                &&& node@.inputs.len() == 1 && model@.has_outlet(node@.inputs[0])
                &&& is_finite(b.shape)
                &&& request.b_shape@ == finite_dims(b.shape)
                &&& Some(request.kind) == codegen_kernel_of(
                    self@.a.datum_type,
                    b.datum_type,
                    self.q_params,
                )
                &&& request.geo.describes(
                    self@.a.shape,
                    request.b_shape@,
                    self.a_trans,
                    self.b_trans,
                    self.c_trans,
                )
            },
            r matches Err(e) ==> e == (if node@.inputs.len() != 1 {
                Error::Arity
            } else if !model@.has_outlet(node@.inputs[0]) {
                Error::Outlet
            } else {
                let b = model@.fact(node@.inputs[0]);
                let b_shape = finite_dims(b.shape);
                if codegen_kernel_of(self@.a.datum_type, b.datum_type, self.q_params) is None {
                    Error::Unsupported
                } else if !shapes_agree(self@.a.shape, b_shape, self.a_trans, self.b_trans) {
                    shape_error(self@.a.shape, b_shape, self.a_trans, self.b_trans)
                } else {
                    Error::Overflow
                }
            }) && (e != Error::Arity && e != Error::Outlet ==> is_finite(
                model@.fact(node@.inputs[0]).shape,
            )),
    {
        if node.inputs.len() != 1 {
            return Err(Error::Arity);
        }
        let b = match model.outlet_fact(node.inputs[0]) {
            Ok(f) => f,
            Err(e) => {
                return Err(e);
            },
        };
        match b.as_finite() {
            Some(b_shape) => {
                let kind = match codegen_kernel(self.a.datum_type(), b.datum_type, self.q_params) {
                    Ok(k) => k,
                    Err(e) => {
                        return Err(e);
                    },
                };
                let geo = match Geo::new(
                    self.a.shape(),
                    &b_shape,
                    self.a_trans,
                    self.b_trans,
                    self.c_trans,
                ) {
                    Ok(g) => g,
                    Err(e) => {
                        return Err(e);
                    },
                };
                Ok(Some(KernelRequest { kind, geo, b_shape }))
            },
            None => Ok(None),
        }
    }
}

/// How the constant of a lowered product is handed to the packer of the
/// kernel: the number of elements of one tile, the strides between the rows
/// and between the columns of a tile, and the offset in elements of the tile
/// for each index of the prefix of the padded constant, in row-major order.
#[derive(Debug)]
pub struct PackPlan {
    pub tile_len: usize,
    pub row_stride: usize,
    pub col_stride: usize,
    pub offsets: Vec<usize>,
}

impl PackPlan {
    /// The plan is the one for a padded constant of the shape `bc_a`.
    pub open spec fn describes(&self, bc_a: Seq<usize>, a_trans: bool) -> bool {
        let rank = bc_a.len();
        let over = prefix(bc_a);
        &&& self.tile_len == bc_a[rank - 2] * bc_a[rank - 1]
        &&& self.row_stride == row_stride(bc_a.last(), a_trans)
        &&& self.col_stride == col_stride(bc_a.last(), a_trans)
        &&& self.offsets@.len() == product(over)
        &&& forall|j: int|
            0 <= j < product(over) ==> #[trigger] self.offsets@[j] == tile_offset(bc_a, over, j)
    }

    /// The sizes of the plan are machine integers.
    pub open spec fn fits(bc_a: Seq<usize>) -> bool {
        let rank = bc_a.len();
        &&& bc_a[rank - 2] * bc_a[rank - 1] <= usize::MAX
        &&& countable(prefix(bc_a))
        &&& tile_offsets_fit(bc_a, prefix(bc_a))
    }
}

/// Plans the packing of the constant of a lowered product: see `PackPlan`.
/// Fails as `Geo::new` does, else with `Overflow` where a size of the plan
/// is no machine integer.
pub fn a_pack_plan(
    a_shape: &Vec<usize>,
    b_shape: &Vec<usize>,
    a_trans: bool,
    b_trans: bool,
    c_trans: bool,
) -> (r: Result<PackPlan, Error>)
    ensures
        r matches Ok(plan) ==> plan.describes(bc_a_shape(a_shape@, b_shape@, a_trans), a_trans),
        r is Ok <==> shapes_agree(a_shape@, b_shape@, a_trans, b_trans) && Geo::sizes_fit(
            a_shape@,
            b_shape@,
            a_trans,
            b_trans,
            c_trans,
        ) && PackPlan::fits(bc_a_shape(a_shape@, b_shape@, a_trans)),
        r matches Err(e) ==> e == (if shapes_agree(a_shape@, b_shape@, a_trans, b_trans) {
            Error::Overflow
        } else {
            shape_error(a_shape@, b_shape@, a_trans, b_trans)
        }),
{
    let geo = match Geo::new(a_shape, b_shape, a_trans, b_trans, c_trans) {
        Ok(g) => g,
        Err(e) => {
            return Err(e);
        },
    };
    let rank = geo.bc_a_shape.len();
    let last = geo.bc_a_shape[rank - 1];
    assert(geo.bc_a_shape@.last() == last);
    let tile_len = match geo.bc_a_shape[rank - 2].checked_mul(last) {
        Some(t) => t,
        None => {
            return Err(Error::Overflow);
        },
    };
    let over = dup_prefix(&geo.bc_a_shape, rank - 2);
    let offsets = match tile_offsets(&geo.bc_a_shape, &over) {
        Ok(o) => o,
        Err(_) => {
            return Err(Error::Overflow);
        },
    };
    Ok(
        PackPlan {
            tile_len,
            row_stride: if a_trans { 1 } else { last },
            col_stride: if a_trans { last } else { 1 },
            offsets,
        },
    )
}

/// Each of the packed tiles is a buffer of elements of the type `dt`.
pub open spec fn packed_typed(packed_as: Seq<TensorView>, dt: DatumType) -> bool {
    forall|i: int| 0 <= i < packed_as.len() ==> (#[trigger] packed_as[i]).datum_type == dt
}

/// Each of the packed tiles is a buffer of `len` elements.
pub open spec fn packed_sized(packed_as: Seq<TensorView>, len: usize) -> bool {
    forall|i: int| 0 <= i < packed_as.len() ==> (#[trigger] packed_as[i]).shape == seq![len]
}

/// Whether each of the packed tiles is a buffer of elements of the type
/// `dt`.
fn are_typed(packed_as: &Vec<Tensor>, dt: DatumType) -> (r: bool)
    ensures
        r == packed_typed(tensors_view(packed_as@), dt),
{
    let mut i: usize = 0;
    while i < packed_as.len()
        invariant
            i <= packed_as.len(),
            forall|j: int| 0 <= j < i ==> (#[trigger] tensors_view(packed_as@)[j]).datum_type == dt,
        decreases packed_as.len() - i,
    {
        assert(tensors_view(packed_as@)[i as int] == packed_as@[i as int]@);
        if packed_as[i].datum_type() != dt {
            return false;
        }
        i += 1;
    }
    true
}

/// Whether each of the packed tiles is a buffer of `len` elements.
fn are_sized(packed_as: &Vec<Tensor>, len: usize) -> (r: bool)
    ensures
        r == packed_sized(tensors_view(packed_as@), len),
{
    let mut i: usize = 0;
    while i < packed_as.len()
        invariant
            i <= packed_as.len(),
            forall|j: int| 0 <= j < i ==> (#[trigger] tensors_view(packed_as@)[j]).shape == seq![len],
        decreases packed_as.len() - i,
    {
        assert(tensors_view(packed_as@)[i as int] == packed_as@[i as int]@);
        let t = &packed_as[i];
        if t.rank() != 1 || t.shape()[0] != len {
            assert(t@.shape != seq![len]) by {
                if t@.shape.len() == 1 {
                    assert(seq![len][0] == len);
                }
            }
            return false;
        }
        assert(t@.shape =~= seq![len]);
        i += 1;
    }
    true
}

/// How the kernel of a lowered product finds its right operand: as a
/// vector where the product has one column, else packed.
pub open spec fn b_storage_of(n: usize, b_last: usize, b_trans: bool) -> Storage {
    if n == 1 {
        Storage::VecStride(row_stride(b_last, b_trans) as isize)
    } else {
        Storage::Packed
    }
}

/// How the kernel of a lowered product writes its result: as a vector
/// where the product has one column, else as a matrix.
pub open spec fn c_storage_of(n: usize, c_last: usize, c_trans: bool) -> Storage {
    if n == 1 {
        Storage::VecStride(row_stride(c_last, c_trans) as isize)
    } else {
        Storage::Strides {
            row: row_stride(c_last, c_trans) as isize,
            col: col_stride(c_last, c_trans) as isize,
        }
    }
}

/// The dims of the prefix of a product and the stride of each of them,
/// where some prefix dim is above one.
pub open spec fn c_prefix_of(bc_c: Seq<usize>) -> Option<(Seq<usize>, Seq<isize>)> {
    let dims = prefix(bc_c);
    if exists|i: int| 0 <= i < dims.len() && #[trigger] dims[i] > 1 {
        Some((dims, Seq::new(dims.len(), |t: int| product(bc_c.skip(t + 1)) as isize)))
    } else {
        None
    }
}

/// The operator that packs the wire for the kernel.
pub open spec fn pack_b_of(
    b_shape: Seq<usize>,
    b_trans: bool,
    b_pack: Packing,
) -> MatMatMulPackBView {
    MatMatMulPackBView {
        pack_b: b_pack,
        col_stride: col_stride(b_shape.last(), b_trans) as isize,
        row_stride: row_stride(b_shape.last(), b_trans) as isize,
        output_shape: prefix(b_shape).push(b_pack.len),
    }
}

/// The operator that multiplies the packed constant with the wire.
pub open spec fn unary_finite_of(
    a: Seq<usize>,
    b: Seq<usize>,
    a_trans: bool,
    b_trans: bool,
    c_trans: bool,
    q_params: Option<QParams>,
    kind: KernelKind,
    a_pack: Packing,
    b_pack: Packing,
    packed_as: Seq<TensorView>,
) -> MatMatMulUnaryFiniteView {
    let bc_a = bc_a_shape(a, b, a_trans);
    let bc_b = bc_b_shape(a, b, b_trans);
    let bc_c = bc_c_shape(a, b, a_trans, b_trans, c_trans);
    let n = dim_n(bc_b, b_trans);
    MatMatMulUnaryFiniteView {
        c_trans,
        bc_c_shape: bc_c,
        c_fact: TypedFactView::dt_shape(
            kind.c_type(),
            as_dims(final_c_shape(a, b, a_trans, b_trans, c_trans)),
        ),
        c_prefix_dim_and_stride: c_prefix_of(bc_c),
        packed_as_shape: prefix(bc_a),
        packed_as,
        mmm: Kernel {
            kind,
            m: dim_m(bc_a, a_trans),
            k: dim_k(bc_a, a_trans),
            n,
            a_pack,
            b_pack,
            b_storage: b_storage_of(n, b.last(), b_trans),
            c_storage: c_storage_of(n, bc_c.last(), c_trans),
            q_params,
        },
    }
}

/// The patch that lowers the product at `node`: the input is tapped; where
/// the product has more than one column a packing node follows; the packed
/// product follows and takes the place of the output of `node`.
pub open spec fn unary_finite_patch(
    model: ModelView<TypedFactView>,
    node: NodeView<TypedFactView>,
    a: Seq<usize>,
    b: Seq<usize>,
    a_trans: bool,
    b_trans: bool,
    c_trans: bool,
    q_params: Option<QParams>,
    kind: KernelKind,
    a_pack: Packing,
    b_pack: Packing,
    packed_as: Seq<TensorView>,
) -> PatchView {
    let input = model.fact(node.inputs[0]);
    let op = unary_finite_of(
        a,
        b,
        a_trans,
        b_trans,
        c_trans,
        q_params,
        kind,
        a_pack,
        b_pack,
        packed_as,
    );
    let tapped = PatchView::empty().tapped(input, node.inputs[0]);
    let packed = if op.mmm.n > 1 {
        tapped.wired(
            labelled(node.name, "pack"@),
            OpView::MatMatMulPackB(pack_b_of(b, b_trans, b_pack)),
            seq![OutletId { node: 0, slot: 0 }],
            seq![
                TypedFactView::dt_shape(input.datum_type, as_dims(prefix(b).push(b_pack.len))),
            ],
        )
    } else {
        tapped
    };
    let last = OutletId { node: (packed.model.nodes.len() - 1) as usize, slot: 0 };
    packed.wired(
        labelled(node.name, "matmatmul"@),
        OpView::MatMatMulUnaryFinite(op),
        seq![last],
        seq![op.c_fact],
    ).shunted(OutletId { node: node.id, slot: 0 }, packed.next_outlet())
}

/// The sizes of the lowered product are machine integers.
pub open spec fn unary_finite_fits(
    a: Seq<usize>,
    b: Seq<usize>,
    a_trans: bool,
    b_trans: bool,
    c_trans: bool,
) -> bool {
    let bc_a = bc_a_shape(a, b, a_trans);
    let bc_c = bc_c_shape(a, b, a_trans, b_trans, c_trans);
    &&& Geo::sizes_fit(a, b, a_trans, b_trans, c_trans)
    &&& shape_fits(prefix(bc_a))
    &&& b.len() > 0 ==> b.last() <= isize::MAX
    &&& forall|t: int| 0 <= t < bc_c.len() - 1 ==> #[trigger] product(bc_c.skip(t + 1)) <= isize::MAX
}

/// Where an operand lacks its column axis, the product has one column.
pub proof fn lemma_implicit_n_is_one(a: Seq<usize>, b: Seq<usize>, a_trans: bool, b_trans: bool)
    requires
        operands_admit(a.len(), b.len(), a_trans, b_trans),
        implicit_n(b),
    ensures
        dim_n(bc_b_shape(a, b, b_trans), b_trans) == 1,
{
    reveal(bc_b_shape);
}

/// The dims and strides of the prefix axes of a product of the full shape
/// `bc_c`, where some prefix dim is above one. `inner_first` holds the
/// strides of the prefix axes with the innermost first. `None` where a
/// stride is too long for one.
fn c_prefix_dim_and_stride(bc_c: &Vec<usize>, inner_first: &Vec<usize>) -> (r: Option<
    Option<(Vec<usize>, Vec<isize>)>,
>)
    requires
        bc_c@.len() >= 2,
        shape_fits(bc_c@),
        inner_first@ == stride_prefix(bc_c@),
    ensures
        r is Some <==> forall|t: int|
            0 <= t < bc_c@.len() - 2 ==> #[trigger] product(bc_c@.skip(t + 1)) <= isize::MAX,
        r matches Some(p) ==> prefix_view(p) == c_prefix_of(bc_c@),
{
    let rank = bc_c.len();
    let in_order = axis_strides(inner_first);
    let dims = dup_prefix(bc_c, rank - 2);
    assert forall|u: int| 0 <= u < rank - 2 implies #[trigger] in_order@[u] == product(
        bc_c@.skip(u + 1),
    ) by {
        assert(in_order@[u] == inner_first@[rank - 3 - u]);
        assert(product(bc_c@.skip(u + 1)) <= usize::MAX);
    }
    let mut strides: Vec<isize> = Vec::new();
    let mut above_one = false;
    let mut t: usize = 0;
    while t < rank - 2
        invariant
            t <= rank - 2,
            rank == bc_c@.len(),
            rank >= 2,
            dims@ == prefix(bc_c@),
            in_order@.len() == rank - 2,
            forall|u: int| 0 <= u < rank - 2 ==> #[trigger] in_order@[u] == product(bc_c@.skip(u + 1)),
            strides@.len() == t,
            forall|u: int| 0 <= u < t ==> #[trigger] strides@[u] == product(bc_c@.skip(u + 1)),
            forall|u: int| 0 <= u < t ==> #[trigger] product(bc_c@.skip(u + 1)) <= isize::MAX,
            above_one <==> exists|i: int| 0 <= i < t && #[trigger] dims@[i] > 1,
        decreases rank - 2 - t,
    {
        match as_stride(in_order[t]) {
            Some(s) => {
                strides.push(s);
            },
            None => {
                assert(product(bc_c@.skip(t + 1)) > isize::MAX);
                return None;
            },
        }
        if dims[t] > 1 {
            above_one = true;
        }
        t += 1;
    }
    if above_one {
        assert(strides@ =~= Seq::new(dims@.len(), |t: int| product(bc_c@.skip(t + 1)) as isize));
        Some(Some((dims, strides)))
    } else {
        Some(None)
    }
}

/// The kernel of a lowered product as it is set up to run.
fn set_up_kernel(
    geo: &Geo,
    kind: KernelKind,
    a_pack: Packing,
    b_pack: Packing,
    q_params: Option<QParams>,
    b_last: usize,
    c_last: usize,
) -> (r: Kernel)
    requires
        b_last <= isize::MAX,
        c_last <= isize::MAX,
    ensures
        r == (Kernel {
            kind,
            m: geo.m,
            k: geo.k,
            n: geo.n,
            a_pack,
            b_pack,
            b_storage: b_storage_of(geo.n, b_last, geo.b_trans),
            c_storage: c_storage_of(geo.n, c_last, geo.c_trans),
            q_params,
        }),
{
    let b_stride = b_last as isize;
    let c_stride = c_last as isize;
    let (b_storage, c_storage) = if geo.n == 1 {
        (
            Storage::VecStride(if geo.b_trans { 1 } else { b_stride }),
            Storage::VecStride(if geo.c_trans { 1 } else { c_stride }),
        )
    } else {
        (
            Storage::Packed,
            Storage::Strides {
                row: if geo.c_trans { 1 } else { c_stride },
                col: if geo.c_trans { c_stride } else { 1 },
            },
        )
    };
    Kernel { kind, m: geo.m, k: geo.k, n: geo.n, a_pack, b_pack, b_storage, c_storage, q_params }
}

/// The operator that packs a wire of the shape `b_shape` for the kernel,
/// and the fact of its output.
fn pack_b_node(b_shape: &Vec<usize>, b_trans: bool, b_pack: Packing, input_type: DatumType) -> (r: (
    MatMatMulPackB,
    Vec<TypedFact>,
))
    requires
        b_shape@.len() >= 2,
        b_shape@.last() <= isize::MAX,
    ensures
        r.0@ == pack_b_of(b_shape@, b_trans, b_pack),
        facts_view(r.1@) == seq![
            TypedFactView::dt_shape(input_type, as_dims(prefix(b_shape@).push(b_pack.len))),
        ],
{
    assert(b_shape@.last() == b_shape@[b_shape@.len() - 1]);
    let b_last = b_shape[b_shape.len() - 1] as isize;
    let mut packed_b_shape = dup_prefix(b_shape, b_shape.len() - 2);
    packed_b_shape.push(b_pack.len);
    let op = MatMatMulPackB {
        pack_b: b_pack,
        col_stride: if b_trans { b_last } else { 1 },
        row_stride: if b_trans { 1 } else { b_last },
        output_shape: dup_shape(&packed_b_shape),
    };
    let mut facts: Vec<TypedFact> = Vec::new();
    facts.push(TypedFact::dt_shape(input_type, &to_dims(&packed_b_shape)));
    assert(facts_view(facts@) =~= seq![
        TypedFactView::dt_shape(input_type, as_dims(prefix(b_shape@).push(b_pack.len))),
    ]);
    (op, facts)
}

/// Builds the patch that lowers the product of the constant `a` and the
/// wire that `node` reads, of shape `b_shape`, to the kernel `kind`, whose
/// packers ask for `a_pack` and `b_pack`. `packed_as` holds the constant as
/// the kernel's packer laid it out, one buffer for each tile of
/// `a_pack_plan`; what the buffers hold is the packer's affair. `Arity`
/// where the node has no input, else `Outlet` where the graph lacks it, else
/// as `infer_shapes`, else `Overflow` where a size is no machine integer,
/// else `Size` where `packed_as` has not one buffer for each tile, else
/// `TypeMismatch` where a buffer has not the operand type of the kernel,
/// else `Size` where a buffer has not the length that the packer asks for.
#[verifier::rlimit(40)]
pub fn new_mat_mul_unary_finite(
    model: &TypedModel,
    node: &TypedNode,
    a: &Tensor,
    b_shape: &Vec<usize>,
    a_trans: bool,
    b_trans: bool,
    c_trans: bool,
    q_params: Option<QParams>,
    kind: KernelKind,
    a_pack: Packing,
    b_pack: Packing,
    packed_as: Vec<Tensor>,
) -> (r: Result<TypedModelPatch, Error>)
    ensures
        r matches Ok(patch) ==> patch.wf() && patch@ == unary_finite_patch(
            model@,
            node@,
            a@.shape,
            b_shape@,
            a_trans,
            b_trans,
            c_trans,
            q_params,
            kind,
            a_pack,
            b_pack,
            tensors_view(packed_as@),
        ),
        r is Ok <==> node@.inputs.len() >= 1 && model@.has_outlet(node@.inputs[0])
            && shapes_agree(a@.shape, b_shape@, a_trans, b_trans) && unary_finite_fits(
            a@.shape,
            b_shape@,
            a_trans,
            b_trans,
            c_trans,
        ) && packed_as@.len() == product(prefix(bc_a_shape(a@.shape, b_shape@, a_trans)))
            && packed_typed(tensors_view(packed_as@), kind.a_type()) && packed_sized(
            tensors_view(packed_as@),
            a_pack.len,
        ),
        r matches Err(e) ==> e == (if node@.inputs.len() < 1 {
            Error::Arity
        } else if !model@.has_outlet(node@.inputs[0]) {
            Error::Outlet
        } else if !shapes_agree(a@.shape, b_shape@, a_trans, b_trans) {
            shape_error(a@.shape, b_shape@, a_trans, b_trans)
        } else if !unary_finite_fits(a@.shape, b_shape@, a_trans, b_trans, c_trans) {
            Error::Overflow
        } else if packed_as@.len() != product(prefix(bc_a_shape(a@.shape, b_shape@, a_trans))) {
            Error::Size
        } else if !packed_typed(tensors_view(packed_as@), kind.a_type()) {
            Error::TypeMismatch
        } else {
            Error::Size
        }),
{
    if node.inputs.len() < 1 {
        return Err(Error::Arity);
    }
    let mut patch = TypedModelPatch::new();
    let tap = match patch.tap_model(model, node.inputs[0]) {
        Ok(w) => w,
        Err(e) => {
            return Err(e);
        },
    };
    let ghost tapped = patch@;
    let input_type = match model.outlet_fact(node.inputs[0]) {
        Ok(f) => f.datum_type,
        Err(e) => {
            return Err(e);
        },
    };
    let geo = match Geo::new(a.shape(), b_shape, a_trans, b_trans, c_trans) {
        Ok(g) => g,
        Err(e) => {
            return Err(e);
        },
    };
    let ghost bc_c = geo.bc_c_shape@;
    let rank = geo.bc_c_shape.len();
    let packed_as_shape = dup_prefix(&geo.bc_a_shape, rank - 2);
    let tiles = match checked_product(&packed_as_shape) {
        Some(t) => t,
        None => {
            return Err(Error::Overflow);
        },
    };
    proof {
        assert(bc_c.skip(rank - 1) =~= seq![bc_c[rank - 1]]);
        crate::indices::lemma_product_single(bc_c[rank - 1]);
        assert(bc_c.last() == bc_c[rank - 1]);
        if b_shape@.len() > 0 {
            assert(b_shape@.last() == b_shape@[b_shape@.len() - 1]);
        }
    }
    let c_last = geo.bc_c_shape[rank - 1];
    if c_last > isize::MAX as usize {
        assert(product(bc_c.skip((rank - 2) + 1)) > isize::MAX);
        return Err(Error::Overflow);
    }
    let b_last = if b_shape.len() > 0 {
        b_shape[b_shape.len() - 1]
    } else {
        1
    };
    if b_last > isize::MAX as usize {
        return Err(Error::Overflow);
    }
    let c_prefix = match c_prefix_dim_and_stride(&geo.bc_c_shape, &geo.c_stride_prefix) {
        Some(p) => p,
        None => {
            return Err(Error::Overflow);
        },
    };
    assert(unary_finite_fits(a@.shape, b_shape@, a_trans, b_trans, c_trans)) by {
        assert forall|t: int| 0 <= t < bc_c.len() - 1 implies #[trigger] product(bc_c.skip(t + 1))
            <= isize::MAX by {
            if t == rank - 2 {
            }
        }
    }
    if packed_as.len() != tiles {
        return Err(Error::Size);
    }
    if !are_typed(&packed_as, kind.operand_datum_type()) {
        return Err(Error::TypeMismatch);
    }
    if !are_sized(&packed_as, a_pack.len) {
        return Err(Error::Size);
    }
    proof {
        if implicit_n(b_shape@) {
            lemma_implicit_n_is_one(a@.shape, b_shape@, a_trans, b_trans);
        }
    }
    let mmm = set_up_kernel(&geo, kind, a_pack, b_pack, q_params, b_last, c_last);
    let ghost spec_op = unary_finite_of(
        a@.shape,
        b_shape@,
        a_trans,
        b_trans,
        c_trans,
        q_params,
        kind,
        a_pack,
        b_pack,
        tensors_view(packed_as@),
    );
    assert(mmm == spec_op.mmm);
    let mut wire = tap;
    if geo.n > 1 {
        let (op, facts) = pack_b_node(b_shape, b_trans, b_pack, input_type);
        assert(facts_view(facts@).len() == 1);
        let mut inputs: Vec<OutletId> = Vec::new();
        inputs.push(wire);
        assert(inputs@ =~= seq![OutletId { node: 0, slot: 0 }]);
        assert(patch@.model.has_outlets(inputs@));
        let name = join_label(node.name.as_str(), "pack");
        match patch.wire_node(name, Op::MatMatMulPackB(op), &inputs, facts) {
            Ok(w) => {
                wire = w[0];
            },
            Err(e) => {
                return Err(e);
            },
        }
    }
    let ghost packed = patch@;
    assert(wire == (OutletId { node: (packed.model.nodes.len() - 1) as usize, slot: 0 }));
    let c_fact = TypedFact::dt_shape(kind.result_datum_type(), &to_dims(&geo.final_c_shape));
    let mut facts: Vec<TypedFact> = Vec::new();
    facts.push(c_fact.dup());
    assert(facts_view(facts@) =~= seq![spec_op.c_fact]);
    assert(facts_view(facts@).len() == 1);
    let op = MatMatMulUnaryFinite {
        c_trans,
        bc_c_shape: dup_shape(&geo.bc_c_shape),
        c_fact,
        c_prefix_dim_and_stride: c_prefix,
        packed_as_shape,
        packed_as,
        mmm,
    };
    assert(op@ == spec_op);
    let mut inputs: Vec<OutletId> = Vec::new();
    inputs.push(wire);
    assert(inputs@ =~= seq![wire]);
    assert(patch@.model.has_outlets(inputs@));
    let name = join_label(node.name.as_str(), "matmatmul");
    let wire = match patch.wire_node(name, Op::MatMatMulUnaryFinite(op), &inputs, facts) {
        Ok(w) => w[0],
        Err(e) => {
            return Err(e);
        },
    };
    patch.shunt_outside(OutletId::new(node.id, 0), wire);
    Ok(patch)
}

} // verus!
