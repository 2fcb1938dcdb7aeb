use vstd::prelude::*;
use crate::axis::{
    AxisChangeConsequence, AxisInfo, AxisInfoView, AxisOp, InOut, infos_view,
    same_change_everywhere,
};
use crate::broadcast::{left_pad, pad_left};
use crate::datum::DatumType;
use crate::dim::{as_dims, dup_shape, lemma_times_is_product, to_dims, DimLike, TDim, ToDim};
use crate::error::Error;
use crate::fact::{PulsedFact, PulsedFactView, TypedFact, TypedFactView};
use crate::model::{facts_view, outlets_of, Op, OpView, OutletId, TypedModel, TypedNode};
use crate::name::{join_label, join_number, labelled, numbered};
use crate::patch::{PatchView, TypedModelPatch};
use crate::pulse::{lookup, mapped, PulsedModel};
use crate::shapes::{
    bc_a_shape, bc_b_shape, bc_c_shape, dim_k, dim_m, dim_n, final_c_shape, flag, infer_shapes,
    prefix, shape_error, shapes_agree,
};
use crate::tensor::{Tensor, TensorView};

verus! {

/// How a quantized product reads its operands and writes its result: the
/// element type of the result, the zero points of the operands and of the
/// result, and the bits of the scale factor.
#[derive(Debug, Clone, Copy)]
pub struct QParams {
    pub c_datum_type: DatumType,
    pub zero_point_a: Option<i32>,
    pub zero_point_b: Option<i32>,
    pub zero_point_c: Option<i32>,
    pub scale_factor_bits: Option<u32>,
}

/// What an operation costs.
#[derive(Debug, Clone, Copy)]
pub enum Cost {
    /// Fused multiply-adds on elements of the given type.
    FMA(DatumType),
}

/// The product of dims, taken from the last one on; `None` where it is no
/// dim.
pub open spec fn dims_product(s: Seq<TDim>) -> Option<TDim>
    decreases s.len(),
{
    if s.len() == 0 {
        Some(TDim::unit())
    } else {
        match dims_product(s.drop_first()) {
            Some(acc) => acc.spec_times(s[0]),
            None => None,
        }
    }
}

/// The product of an optional dim and a dim.
pub open spec fn then_times(acc: Option<TDim>, d: TDim) -> Option<TDim> {
    match acc {
        Some(x) => x.spec_times(d),
        None => None,
    }
}

/// The number of fused multiply-adds of a product: the product of the
/// prefix dims of the result, times the rows, the inner dimension and the
/// columns; `None` where that is no dim.
pub open spec fn fma_count(
    a: Seq<TDim>,
    b: Seq<TDim>,
    a_trans: bool,
    b_trans: bool,
) -> Option<TDim> {
    let bc_a = bc_a_shape(a, b, a_trans);
    let bc_b = bc_b_shape(a, b, b_trans);
    let bc_c = bc_c_shape(a, b, a_trans, b_trans, false);
    then_times(
        then_times(then_times(dims_product(prefix(bc_c)), dim_m(bc_a, a_trans)), dim_k(bc_a, a_trans)),
        dim_n(bc_b, b_trans),
    )
}

/// The product of the values that dims have once the stream has length
/// `t`.
pub open spec fn values_product(s: Seq<TDim>, t: int) -> int
    decreases s.len(),
{
    if s.len() == 0 {
        1
    } else {
        values_product(s.drop_first(), t) * s[0].eval(t)
    }
}

/// The product of dims has, for every length of the stream, the product of
/// their values.
pub proof fn lemma_dims_product_value(s: Seq<TDim>, t: int)
    requires
        dims_product(s) is Some,
    ensures
        dims_product(s).unwrap().eval(t) == values_product(s, t),
    decreases s.len(),
{
    if s.len() > 0 {
        lemma_dims_product_value(s.drop_first(), t);
        lemma_times_is_product(dims_product(s.drop_first()).unwrap(), s[0], t);
    } else {
        assert(TDim::unit().eval(t) == 1) by (nonlinear_arith)
            requires
                TDim::unit().slope == 0,
                TDim::unit().offset == 1,
                TDim::unit().eval(t) == TDim::unit().slope * t + TDim::unit().offset,
        ;
    }
}

/// **The cost of a product.** Where the number of fused multiply-adds of a
/// product is a dim, it has, for every length of the stream, the value of
/// the product of the prefix dims of the result times the rows, the inner
/// dimension and the columns.
pub proof fn lemma_fma_count_value(a: Seq<TDim>, b: Seq<TDim>, a_trans: bool, b_trans: bool, t: int)
    requires
        fma_count(a, b, a_trans, b_trans) is Some,
    ensures
        fma_count(a, b, a_trans, b_trans).unwrap().eval(t) == values_product(
            prefix(bc_c_shape(a, b, a_trans, b_trans, false)),
            t,
        ) * dim_m(bc_a_shape(a, b, a_trans), a_trans).eval(t) * dim_k(
            bc_a_shape(a, b, a_trans),
            a_trans,
        ).eval(t) * dim_n(bc_b_shape(a, b, b_trans), b_trans).eval(t),
{
    let pre = dims_product(prefix(bc_c_shape(a, b, a_trans, b_trans, false)));
    let m = dim_m(bc_a_shape(a, b, a_trans), a_trans);
    let k = dim_k(bc_a_shape(a, b, a_trans), a_trans);
    let n = dim_n(bc_b_shape(a, b, b_trans), b_trans);
    lemma_dims_product_value(prefix(bc_c_shape(a, b, a_trans, b_trans, false)), t);
    lemma_times_is_product(pre.unwrap(), m, t);
    lemma_times_is_product(then_times(pre, m).unwrap(), k, t);
    lemma_times_is_product(then_times(then_times(pre, m), k).unwrap(), n, t);
}

/// The cost of the product of operands of the given shapes: the number of
/// fused multiply-adds on elements of type `dt`. Fails as `infer_shapes`
/// does, else with `Overflow` where the number is no dim.
pub fn cost<A: ToDim, B: ToDim>(
    a: &Vec<A>,
    b: &Vec<B>,
    dt: DatumType,
    a_trans: bool,
    b_trans: bool,
) -> (r:
    Result<Vec<(Cost, TDim)>, Error>)
    ensures
        r is Ok <==> shapes_agree(as_dims(a@), as_dims(b@), a_trans, b_trans) && fma_count(
            as_dims(a@),
            as_dims(b@),
            a_trans,
            b_trans,
        ) is Some,
        r matches Ok(costs) ==> costs@.len() == 1 && costs@[0].0 == Cost::FMA(dt) && Some(
            costs@[0].1,
        ) == fma_count(as_dims(a@), as_dims(b@), a_trans, b_trans),
        r matches Err(e) ==> e == (if shapes_agree(as_dims(a@), as_dims(b@), a_trans, b_trans) {
            Error::Overflow
        } else {
            shape_error(as_dims(a@), as_dims(b@), a_trans, b_trans)
        }),
{
    let shapes = infer_shapes(to_dims(a), to_dims(b), a_trans, b_trans, false);
    let (bc_a_shape, bc_b_shape, bc_c_shape, _c_shape) = match shapes {
        Ok(s) => s,
        Err(e) => {
            return Err(e);
        },
    };
    let rank = bc_a_shape.len();
    assert(rank >= 2 && bc_b_shape@.len() == rank && bc_c_shape@.len() == rank);
    let ghost pre = prefix(bc_c_shape@);
    let mut mul = TDim::one();
    let mut i: usize = rank - 2;
    assert(pre.skip(i as int).len() == 0);
    while i > 0
        invariant
            i <= rank - 2,
            rank == bc_c_shape@.len(),
            pre == prefix(bc_c_shape@),
            Some(mul) == dims_product(pre.skip(i as int)),
            shapes_agree(as_dims(a@), as_dims(b@), a_trans, b_trans),
            bc_c_shape@ == crate::shapes::bc_c_shape(
                as_dims(a@),
                as_dims(b@),
                a_trans,
                b_trans,
                false,
            ),
        decreases i,
    {
        proof {
            assert(pre.skip(i - 1).drop_first() =~= pre.skip(i as int));
            assert(pre.skip(i - 1)[0] == bc_c_shape@[i - 1]);
        }
        mul = match mul.times(&bc_c_shape[i - 1]) {
            Some(p) => p,
            None => {
                proof {
                    lemma_dims_product_fails(pre, i - 1);
                }
                return Err(Error::Overflow);
            },
        };
        i -= 1;
    }
    assert(pre.skip(0) =~= pre);
    let m = if a_trans { bc_a_shape[rank - 1] } else { bc_a_shape[rank - 2] };
    let k = if a_trans { bc_a_shape[rank - 2] } else { bc_a_shape[rank - 1] };
    let n = if b_trans { bc_b_shape[rank - 2] } else { bc_b_shape[rank - 1] };
    let total = match mul.times(&m) {
        Some(x) => match x.times(&k) {
            Some(y) => y.times(&n),
            None => None,
        },
        None => None,
    };
    match total {
        Some(t) => {
            let mut costs: Vec<(Cost, TDim)> = Vec::new();
            costs.push((Cost::FMA(dt), t));
            Ok(costs)
        },
        None => Err(Error::Overflow),
    }
}

/// Once the product of a trailing part of the dims is no dim, the product
/// of all of them is none either.
proof fn lemma_dims_product_fails(s: Seq<TDim>, i: int)
    requires
        0 <= i <= s.len(),
        dims_product(s.skip(i)) is None,
    ensures
        dims_product(s) is None,
    decreases i,
{
    if i == 0 {
        assert(s.skip(0) =~= s);
    } else {
        assert(s.skip(i - 1).drop_first() =~= s.skip(i));
        lemma_dims_product_fails(s, i - 1);
    }
}

/// The matrix product of two wires.
#[derive(Debug, Clone, Copy)]
pub struct MatMul {
    pub a_trans: bool,
    pub b_trans: bool,
    pub c_trans: bool,
    pub q_params: Option<QParams>,
}

impl Default for MatMul {
    fn default() -> (r: MatMul)
        ensures
            !r.a_trans && !r.b_trans && !r.c_trans && r.q_params is None,
    {
        MatMul { a_trans: false, b_trans: false, c_trans: false, q_params: None }
    }
}

/// The element type of a product: the one that the quantization asks for,
/// else the one of the operand.
pub open spec fn product_type(q_params: Option<QParams>, operand: DatumType) -> DatumType {
    match q_params {
        Some(qp) => qp.c_datum_type,
        None => operand,
    }
}

/// The operator that takes the place of a product of which one operand is
/// the constant `konst`: the constant comes first, so a constant right
/// operand swaps the operands and flips every flag.
pub open spec fn unary_for(op: MatMul, konst: TensorView, konst_ix: int) -> MatMulUnaryView {
    if konst_ix == 0 {
        MatMulUnaryView {
            a: konst,
            a_trans: op.a_trans,
            b_trans: op.b_trans,
            c_trans: op.c_trans,
            q_params: op.q_params,
        }
    } else {
        MatMulUnaryView {
            a: konst,
            a_trans: !op.b_trans,
            b_trans: !op.a_trans,
            c_trans: !op.c_trans,
            q_params: op.q_params,
        }
    }
}

impl MatMul {
    pub fn with_a_trans(self, a_trans: bool) -> (r: MatMul)
        ensures
            r == (MatMul { a_trans, ..self }),
    {
        MatMul { a_trans, ..self }
    }

    pub fn with_b_trans(self, b_trans: bool) -> (r: MatMul)
        ensures
            r == (MatMul { b_trans, ..self }),
    {
        MatMul { b_trans, ..self }
    }

    pub fn with_c_trans(self, c_trans: bool) -> (r: MatMul)
        ensures
            r == (MatMul { c_trans, ..self }),
    {
        MatMul { c_trans, ..self }
    }

    pub fn with_q_params(self, q_params: QParams) -> (r: MatMul)
        ensures
            r == (MatMul { q_params: Some(q_params), ..self }),
    {
        MatMul { q_params: Some(q_params), ..self }
    }

    /// The name of the operator.
    pub fn name(&self) -> (r: String)
        ensures
            r@ == "MatMul"@,
    {
        "MatMul".to_owned()
    }

    /// The fact of the product for the facts of its two operands: the type
    /// that the quantization asks for, else the one of the left operand, and
    /// the shape as the caller sees it. `Arity` where there are fewer than
    /// two operands, else as `infer_shapes`.
    pub fn output_facts(&self, inputs: &Vec<&TypedFact>) -> (r: Result<Vec<TypedFact>, Error>)
        ensures
            r is Ok <==> inputs@.len() >= 2 && shapes_agree(
                inputs@[0]@.shape,
                inputs@[1]@.shape,
                self.a_trans,
                self.b_trans,
            ),
            r matches Ok(facts) ==> facts_view(facts@) == seq![
                TypedFactView::dt_shape(
                    product_type(self.q_params, inputs@[0]@.datum_type),
                    final_c_shape(
                        inputs@[0]@.shape,
                        inputs@[1]@.shape,
                        self.a_trans,
                        self.b_trans,
                        self.c_trans,
                    ),
                ),
            ],
            r matches Err(e) ==> e == (if inputs@.len() < 2 {
                Error::Arity
            } else {
                shape_error(inputs@[0]@.shape, inputs@[1]@.shape, self.a_trans, self.b_trans)
            }),
    {
        if inputs.len() < 2 {
            return Err(Error::Arity);
        }
        let dt = match &self.q_params {
            Some(qp) => qp.c_datum_type,
            None => inputs[0].datum_type,
        };
        let shapes = infer_shapes(
            dup_shape(&inputs[0].shape),
            dup_shape(&inputs[1].shape),
            self.a_trans,
            self.b_trans,
            self.c_trans,
        );
        match shapes {
            Ok(s) => {
                let mut facts: Vec<TypedFact> = Vec::new();
                facts.push(TypedFact::dt_shape(dt, &s.3));
                assert(facts_view(facts@) =~= seq![TypedFactView::dt_shape(dt, s.3@)]);
                Ok(facts)
            },
            Err(e) => Err(e),
        }
    }

    /// A product of which one operand is constant becomes a product with a
    /// constant: the patch puts `unary_for` in the place of the node, fed by
    /// the other operand. The left operand is looked at first. A product of
    /// two wires stays. `Arity` where the node has fewer than two inputs,
    /// else `Outlet` where the graph lacks one of them, else as
    /// `MatMulUnary::output_facts` for the new operator.
    pub fn declutter(&self, model: &TypedModel, node: &TypedNode) -> (r: Result<
        Option<TypedModelPatch>,
        Error,
    >)
        ensures
            r matches Err(e) ==> e == (if node@.inputs.len() < 2 {
                Error::Arity
            } else if !model@.has_outlet(node@.inputs[0]) || !model@.has_outlet(node@.inputs[1]) {
                Error::Outlet
            } else {
                let ix = MatMul::konst_ix(model@.fact(node@.inputs[0]), model@.fact(node@.inputs[1]));
                let unary = unary_for(*self, model@.fact(node@.inputs[ix]).konst.unwrap(), ix);
                shape_error(
                    as_dims(unary.a.shape),
                    model@.fact(node@.inputs[1 - ix]).shape,
                    unary.a_trans,
                    unary.b_trans,
                )
            }),
            r is Err <==> node@.inputs.len() < 2 || !model@.has_outlet(node@.inputs[0])
                || !model@.has_outlet(node@.inputs[1]) || ({
                let ix = MatMul::konst_ix(model@.fact(node@.inputs[0]), model@.fact(node@.inputs[1]));
                let konst = model@.fact(node@.inputs[ix]).konst;
                let unary = unary_for(*self, konst.unwrap(), ix);
                konst is Some && !shapes_agree(
                    as_dims(unary.a.shape),
                    model@.fact(node@.inputs[1 - ix]).shape,
                    unary.a_trans,
                    unary.b_trans,
                )
            }),
            r matches Ok(None) ==> node@.inputs.len() >= 2 && model@.has_outlet(node@.inputs[0])
                && model@.has_outlet(node@.inputs[1]) && model@.fact(node@.inputs[0]).konst is None
                && model@.fact(node@.inputs[1]).konst is None,
            r matches Ok(Some(patch)) ==> {
                let ix = MatMul::konst_ix(model@.fact(node@.inputs[0]), model@.fact(node@.inputs[1]));
                let var = model@.fact(node@.inputs[1 - ix]);
                let unary = unary_for(*self, model@.fact(node@.inputs[ix]).konst.unwrap(), ix);
                &&& node@.inputs.len() >= 2
                &&& model@.has_outlet(node@.inputs[0])
                &&& model@.has_outlet(node@.inputs[1])
                &&& model@.fact(node@.inputs[ix]).konst is Some
                &&& shapes_agree(as_dims(unary.a.shape), var.shape, unary.a_trans, unary.b_trans)
                &&& patch.wf()
                &&& patch@ == PatchView::replace_single_op(
                    model@,
                    node@,
                    seq![node@.inputs[1 - ix]],
                    OpView::MatMulUnary(unary),
                    seq![MatMulUnary::output_fact(unary, var)],
                )
            },
    {
        if node.inputs.len() < 2 {
            return Err(Error::Arity);
        }
        let a_fact = match model.outlet_fact(node.inputs[0]) {
            Ok(f) => f,
            Err(e) => {
                return Err(e);
            },
        };
        let b_fact = match model.outlet_fact(node.inputs[1]) {
            Ok(f) => f,
            Err(e) => {
                return Err(e);
            },
        };
        let (konst, var_fact, var_ix, flip) = match (&a_fact.konst, &b_fact.konst) {
            (Some(k), _) => (k, b_fact, 1usize, false),
            (None, Some(k)) => (k, a_fact, 0usize, true),
            (None, None) => {
                return Ok(None);
            },
        };
        let unary = if flip {
            MatMulUnary::new(konst.dup(), !self.b_trans, !self.a_trans, !self.c_trans, self.q_params)
        } else {
            MatMulUnary::new(konst.dup(), self.a_trans, self.b_trans, self.c_trans, self.q_params)
        };
        let mut vars: Vec<&TypedFact> = Vec::new();
        vars.push(var_fact);
        let facts = match unary.output_facts(&vars) {
            Ok(f) => f,
            Err(e) => {
                return Err(e);
            },
        };
        let mut inputs: Vec<OutletId> = Vec::new();
        inputs.push(node.inputs[var_ix]);
        assert(inputs@ =~= seq![node@.inputs[var_ix as int]]);
        assert(model@.has_outlets(inputs@));
        match TypedModelPatch::replace_single_op(model, node, &inputs, Op::MatMulUnary(unary), facts) {
            Ok(p) => Ok(Some(p)),
            Err(e) => Err(e),
        }
    }

    /// Which of the two operands is the constant that the product is built
    /// around: the left one where it is constant, else the right one.
    pub open spec fn konst_ix(a: TypedFactView, b: TypedFactView) -> int {
        if a.konst is Some {
            0
        } else {
            1
        }
    }

    /// The cost of the product for the facts of its two operands. `Arity`
    /// where there are fewer than two operands, else as `cost`.
    pub fn cost(&self, inputs: &Vec<&TypedFact>) -> (r: Result<Vec<(Cost, TDim)>, Error>)
        ensures
            r is Ok <==> inputs@.len() >= 2 && shapes_agree(
                inputs@[0]@.shape,
                inputs@[1]@.shape,
                self.a_trans,
                self.b_trans,
            ) && fma_count(inputs@[0]@.shape, inputs@[1]@.shape, self.a_trans, self.b_trans)
                is Some,
            r matches Ok(costs) ==> costs@.len() == 1 && costs@[0].0 == Cost::FMA(
                inputs@[0]@.datum_type,
            ) && Some(costs@[0].1) == fma_count(
                inputs@[0]@.shape,
                inputs@[1]@.shape,
                self.a_trans,
                self.b_trans,
            ),
            r matches Err(e) ==> e == (if inputs@.len() < 2 {
                Error::Arity
            } else if shapes_agree(inputs@[0]@.shape, inputs@[1]@.shape, self.a_trans, self.b_trans) {
                Error::Overflow
            } else {
                shape_error(inputs@[0]@.shape, inputs@[1]@.shape, self.a_trans, self.b_trans)
            }),
    {
        if inputs.len() < 2 {
            return Err(Error::Arity);
        }
        assert(as_dims(inputs@[0]@.shape) =~= inputs@[0]@.shape);
        assert(as_dims(inputs@[1]@.shape) =~= inputs@[1]@.shape);
        cost(&inputs[0].shape, &inputs[1].shape, inputs[0].datum_type, self.a_trans, self.b_trans)
    }
}

/// The matrix product of a constant and a wire.
#[derive(Debug)]
pub struct MatMulUnary {
    pub a: Tensor,
    pub a_trans: bool,
    pub b_trans: bool,
    pub c_trans: bool,
    pub q_params: Option<QParams>,
}

/// What a product with a constant holds.
pub struct MatMulUnaryView {
    pub a: TensorView,
    pub a_trans: bool,
    pub b_trans: bool,
    pub c_trans: bool,
    pub q_params: Option<QParams>,
}

impl View for MatMulUnary {
    type V = MatMulUnaryView;

    open spec fn view(&self) -> MatMulUnaryView {
        MatMulUnaryView {
            a: self.a@,
            a_trans: self.a_trans,
            b_trans: self.b_trans,
            c_trans: self.c_trans,
            q_params: self.q_params,
        }
    }
}

impl MatMulUnary {
    pub fn new(
        a: Tensor,
        a_trans: bool,
        b_trans: bool,
        c_trans: bool,
        q_params: Option<QParams>,
    ) -> (r:
        MatMulUnary)
        ensures
            r@ == (MatMulUnaryView { a: a@, a_trans, b_trans, c_trans, q_params }),
    {
        MatMulUnary { a, a_trans, b_trans, c_trans, q_params }
    }

    /// A copy of the operator.
    pub fn dup(&self) -> (r: MatMulUnary)
        ensures
            r@ == self@,
    {
        MatMulUnary {
            a: self.a.dup(),
            a_trans: self.a_trans,
            b_trans: self.b_trans,
            c_trans: self.c_trans,
            q_params: self.q_params,
        }
    }

    /// The name of the operator.
    pub fn name(&self) -> (r: String)
        ensures
            r@ == "MatMulUnary"@,
    {
        "MatMulUnary".to_owned()
    }

    /// The fact of the product of the constant of `op` and a wire with the
    /// fact `input`.
    pub open spec fn output_fact(op: MatMulUnaryView, input: TypedFactView) -> TypedFactView {
        TypedFactView::dt_shape(
            product_type(op.q_params, input.datum_type),
            final_c_shape(as_dims(op.a.shape), input.shape, op.a_trans, op.b_trans, op.c_trans),
        )
    }

    /// The fact of the product for the fact of the wire: the type that the
    /// quantization asks for, else the one of the wire, and the shape as the
    /// caller sees it. `Arity` where there is no input, else as
    /// `infer_shapes`.
    pub fn output_facts(&self, inputs: &Vec<&TypedFact>) -> (r: Result<Vec<TypedFact>, Error>)
        ensures
            r is Ok <==> inputs@.len() >= 1 && shapes_agree(
                as_dims(self@.a.shape),
                inputs@[0]@.shape,
                self.a_trans,
                self.b_trans,
            ),
            r matches Ok(facts) ==> facts_view(facts@) == seq![
                MatMulUnary::output_fact(self@, inputs@[0]@),
            ],
            r matches Err(e) ==> e == (if inputs@.len() < 1 {
                Error::Arity
            } else {
                shape_error(as_dims(self@.a.shape), inputs@[0]@.shape, self.a_trans, self.b_trans)
            }),
    {
        if inputs.len() < 1 {
            return Err(Error::Arity);
        }
        let dt = match &self.q_params {
            Some(qp) => qp.c_datum_type,
            None => inputs[0].datum_type,
        };
        let shapes = infer_shapes(
            to_dims(self.a.shape()),
            dup_shape(&inputs[0].shape),
            self.a_trans,
            self.b_trans,
            self.c_trans,
        );
        match shapes {
            Ok(s) => {
                let mut facts: Vec<TypedFact> = Vec::new();
                facts.push(TypedFact::dt_shape(dt, &s.3));
                assert(facts_view(facts@) =~= seq![MatMulUnary::output_fact(self@, inputs@[0]@)]);
                Ok(facts)
            },
            Err(e) => Err(e),
        }
    }

    /// The cost of the product for the fact of the wire, in elements of the
    /// type of the constant. `Arity` where there is no input, else as
    /// `cost`.
    pub fn cost(&self, inputs: &Vec<&TypedFact>) -> (r: Result<Vec<(Cost, TDim)>, Error>)
        ensures
            r is Ok <==> inputs@.len() >= 1 && shapes_agree(
                as_dims(self@.a.shape),
                inputs@[0]@.shape,
                self.a_trans,
                self.b_trans,
            ) && fma_count(as_dims(self@.a.shape), inputs@[0]@.shape, self.a_trans, self.b_trans)
                is Some,
            r matches Ok(costs) ==> costs@.len() == 1 && costs@[0].0 == Cost::FMA(
                self@.a.datum_type,
            ) && Some(costs@[0].1) == fma_count(
                as_dims(self@.a.shape),
                inputs@[0]@.shape,
                self.a_trans,
                self.b_trans,
            ),
            r matches Err(e) ==> e == (if inputs@.len() < 1 {
                Error::Arity
            } else if shapes_agree(
                as_dims(self@.a.shape),
                inputs@[0]@.shape,
                self.a_trans,
                self.b_trans,
            ) {
                Error::Overflow
            } else {
                shape_error(as_dims(self@.a.shape), inputs@[0]@.shape, self.a_trans, self.b_trans)
            }),
    {
        if inputs.len() < 1 {
            return Err(Error::Arity);
        }
        assert(as_dims(inputs@[0]@.shape) =~= inputs@[0]@.shape);
        cost(self.a.shape(), &inputs[0].shape, self.a.datum_type(), self.a_trans, self.b_trans)
    }

    /// The axes that the product passes through when fed a wire of rank
    /// `in_rank`: each prefix axis, with the dim that the constant has there
    /// as its period; the axis before the last where the wire and the result
    /// are both transposed; the last axis where neither is.
    pub open spec fn invariants_of(op: MatMulUnaryView, in_rank: nat) -> Seq<AxisInfoView> {
        let padded = left_pad(op.a.shape, in_rank);
        let prefix_axes = Seq::new(
            (padded.len() - 2) as nat,
            |axis: int| AxisInfoView::through(axis as usize, axis as usize, padded[axis]),
        );
        let rows = if op.b_trans && op.c_trans && in_rank >= 2 {
            seq![AxisInfoView::through((in_rank - 2) as usize, (in_rank - 2) as usize, 1)]
        } else {
            Seq::empty()
        };
        let cols = if !op.b_trans && !op.c_trans {
            seq![AxisInfoView::through((in_rank - 1) as usize, (in_rank - 1) as usize, 1)]
        } else {
            Seq::empty()
        };
        prefix_axes + rows + cols
    }

    /// The ranks on which `invariants_of` is defined: the padded constant
    /// has its two matrix axes, and the wire has a last axis where one is
    /// named.
    pub open spec fn invariants_defined(op: MatMulUnaryView, in_rank: nat) -> bool {
        &&& left_pad(op.a.shape, in_rank).len() >= 2
        &&& op.b_trans || op.c_trans || in_rank >= 1
    }

    /// The axes that the product passes through. None where the rank of the
    /// result differs from the rank of the wire, else `invariants_of`.
    /// `Arity` where the node lacks an input or an output, else `Outlet`
    /// where the graph lacks the input, else `RankMismatch` where
    /// `invariants_of` is not defined.
    pub fn invariants(
        &self,
        model: &TypedModel,
        node: &TypedNode,
    ) -> (r: Result<Vec<AxisInfo>, Error>)
        ensures
            r matches Ok(infos) ==> {
                let in_rank = model@.fact(node@.inputs[0]).shape.len();
                &&& node@.inputs.len() >= 1 && node@.outputs.len() >= 1
                &&& model@.has_outlet(node@.inputs[0])
                &&& infos_view(infos@) == (if in_rank != node@.outputs[0].shape.len() {
                    Seq::empty()
                } else {
                    MatMulUnary::invariants_of(self@, in_rank)
                })
                &&& in_rank == node@.outputs[0].shape.len() ==> MatMulUnary::invariants_defined(
                    self@,
                    in_rank,
                )
            },
            r matches Err(e) ==> e == (if node@.inputs.len() < 1 || node@.outputs.len() < 1 {
                Error::Arity
            } else if !model@.has_outlet(node@.inputs[0]) {
                Error::Outlet
            } else {
                Error::RankMismatch
            }) && (e == Error::RankMismatch ==> model@.fact(node@.inputs[0]).shape.len()
                == node@.outputs[0].shape.len() && !MatMulUnary::invariants_defined(
                self@,
                model@.fact(node@.inputs[0]).shape.len(),
            )),
    {
        if node.inputs.len() < 1 || node.outputs.len() < 1 {
            return Err(Error::Arity);
        }
        let in_rank = match model.outlet_fact(node.inputs[0]) {
            Ok(f) => f.shape.len(),
            Err(e) => {
                return Err(e);
            },
        };
        assert(node@.outputs[0].shape.len() == node.outputs@[0].shape@.len());
        let mut invars: Vec<AxisInfo> = Vec::new();
        if in_rank != node.outputs[0].shape.len() {
            assert(infos_view(invars@) =~= Seq::empty());
            return Ok(invars);
        }
        let padded = pad_left(self.a.shape(), in_rank);
        if padded.len() < 2 || (!self.b_trans && !self.c_trans && in_rank < 1) {
            return Err(Error::RankMismatch);
        }
        let ghost prefix_axes = Seq::new(
            (padded@.len() - 2) as nat,
            |axis: int| AxisInfoView::through(axis as usize, axis as usize, padded@[axis]),
        );
        let mut axis: usize = 0;
        while axis < padded.len() - 2
            invariant
                padded@.len() >= 2,
                axis <= padded@.len() - 2,
                infos_view(invars@) == prefix_axes.take(axis as int),
                prefix_axes == Seq::new(
                    (padded@.len() - 2) as nat,
                    |axis: int| AxisInfoView::through(axis as usize, axis as usize, padded@[axis]),
                ),
            decreases padded.len() - 2 - axis,
        {
            let ghost before = infos_view(invars@);
            invars.push(AxisInfo::simple(axis).with_period(padded[axis]));
            assert(infos_view(invars@) =~= before.push(
                AxisInfoView::through(axis, axis, padded@[axis as int]),
            ));
            assert(infos_view(invars@) =~= prefix_axes.take(axis + 1));
            axis += 1;
        }
        assert(prefix_axes.take(prefix_axes.len() as int) =~= prefix_axes);
        if self.b_trans && self.c_trans && in_rank >= 2 {
            let ghost before = infos_view(invars@);
            invars.push(AxisInfo::simple(in_rank - 2));
            assert(infos_view(invars@) =~= before.push(
                AxisInfoView::through((in_rank - 2) as usize, (in_rank - 2) as usize, 1),
            ));
        }
        if !self.b_trans && !self.c_trans {
            let ghost before = infos_view(invars@);
            invars.push(AxisInfo::simple(in_rank - 1));
            assert(infos_view(invars@) =~= before.push(
                AxisInfoView::through((in_rank - 1) as usize, (in_rank - 1) as usize, 1),
            ));
        }
        assert(infos_view(invars@) =~= MatMulUnary::invariants_of(self@, in_rank as nat));
        Ok(invars)
    }

    /// The removal of `axis` is accepted where it lies before the two matrix
    /// axes of the wire and the constant has no more axes than the wire.
    pub open spec fn accepts_removal(op: MatMulUnaryView, b_rank: nat, axis: usize) -> bool {
        b_rank > axis + 2 && op.a.shape.len() <= b_rank
    }

    /// The constant loses an axis too where `axis` is one of the axes of the
    /// wire that the axes of the constant are aligned with, from the right.
    pub open spec fn constant_changes(op: MatMulUnaryView, b_rank: nat, axis: usize) -> bool {
        axis >= b_rank - op.a.shape.len()
    }

    /// The axis of the constant that is aligned with the axis `axis` of the
    /// wire.
    pub open spec fn constant_axis(op: MatMulUnaryView, b_rank: nat, axis: usize) -> int {
        axis - (b_rank - op.a.shape.len())
    }

    /// The constant can follow the removal of `axis`: it has no axis
    /// there, or one of length one.
    pub open spec fn constant_follows(op: MatMulUnaryView, b_rank: nat, axis: usize) -> bool {
        MatMulUnary::constant_changes(op, b_rank, axis) ==> op.a.shape[MatMulUnary::constant_axis(
            op,
            b_rank,
            axis,
        )] == 1
    }

    /// Answers the removal of an axis from a wire of the product. A removal
    /// is refused unless it is accepted and the constant can follow it. One
    /// that is not refused is handed on to every wire; where the constant
    /// changes, the operator with the constant without its aligned axis takes
    /// the place of the operator. `Arity` where the node has no input, else
    /// `Outlet` where the graph lacks it.
    pub fn change_axes(
        &self,
        model: &TypedModel,
        node: &TypedNode,
        _io: InOut,
        change: &AxisOp,
    ) -> (r: Result<Option<AxisChangeConsequence>, Error>)
        ensures
            r is Ok <==> node@.inputs.len() >= 1 && model@.has_outlet(node@.inputs[0]),
            r matches Err(e) ==> e == (if node@.inputs.len() < 1 {
                Error::Arity
            } else {
                Error::Outlet
            }),
            r matches Ok(answer) ==> {
                let b_rank = model@.fact(node@.inputs[0]).shape.len();
                let axis = change->0;
                answer is Some <==> MatMulUnary::accepts_removal(self@, b_rank, axis)
                    && MatMulUnary::constant_follows(self@, b_rank, axis)
            },
            r matches Ok(Some(c)) ==> {
                let b_rank = model@.fact(node@.inputs[0]).shape.len();
                let axis = change->0;
                &&& c@.wire_changes == same_change_everywhere(
                    node@.outputs.len(),
                    node@.inputs.len(),
                    *change,
                )
                &&& c@.substitute_op == (if MatMulUnary::constant_changes(self@, b_rank, axis) {
                    Some(
                        OpView::MatMulUnary(
                            MatMulUnaryView {
                                a: self@.a.without_axis(
                                    MatMulUnary::constant_axis(self@, b_rank, axis),
                                ),
                                ..self@
                            },
                        ),
                    )
                } else {
                    None
                })
            },
    {
        if node.inputs.len() < 1 {
            return Err(Error::Arity);
        }
        match change {
            AxisOp::Rm(axis) => {
                let axis = *axis;
                let b_rank = match model.outlet_fact(node.inputs[0]) {
                    Ok(b) => b.rank(),
                    Err(e) => {
                        return Err(e);
                    },
                };
                if b_rank >= 2 && axis < b_rank - 2 && self.a.rank() <= b_rank {
                    let ahead = b_rank - self.a.rank();
                    let op = if axis >= ahead {
                        let mut a = self.a.dup();
                        match a.remove_axis(axis - ahead) {
                            Ok(()) => {},
                            Err(_) => {
                                return Ok(None);
                            },
                        }
                        Some(
                            Op::MatMulUnary(
                                MatMulUnary {
                                    a,
                                    a_trans: self.a_trans,
                                    b_trans: self.b_trans,
                                    c_trans: self.c_trans,
                                    q_params: self.q_params,
                                },
                            ),
                        )
                    } else {
                        None
                    };
                    Ok(Some(AxisChangeConsequence::new(node.outputs.len(), node.inputs.len(), op, change)))
                } else {
                    Ok(None)
                }
            },
        }
    }

    /// The axis of a wire of rank `rank` that the product sums over: the
    /// axis before the last, or the last where the wire is transposed; the
    /// only axis of a wire with one axis.
    pub open spec fn k_axis(rank: nat, b_trans: bool) -> Option<int> {
        if rank >= 2 {
            Some(rank - 2 + flag(b_trans))
        } else if rank == 1 {
            Some(0)
        } else {
            None
        }
    }

    /// The pulsed fact behind the product.
    pub open spec fn pulsed_fact(op: MatMulUnaryView, input: PulsedFactView) -> PulsedFactView {
        PulsedFactView {
            shape: bc_c_shape(op.a.shape, input.shape, op.a_trans, op.b_trans, op.c_trans),
            ..input
        }
    }

    /// The fact of the output of the product in a streaming graph: the fact
    /// of the wire with the full shape of the product, both matrix axes
    /// present, in the place of its own. `Arity` where there is no input,
    /// else as `infer_shapes`.
    pub fn pulsed_output_facts(
        &self,
        inputs: &Vec<&PulsedFact>,
    ) -> (r: Result<Vec<PulsedFact>, Error>)
        ensures
            r is Ok <==> inputs@.len() >= 1 && shapes_agree(
                self@.a.shape,
                inputs@[0]@.shape,
                self.a_trans,
                self.b_trans,
            ),
            r matches Ok(facts) ==> facts_view(facts@) == seq![
                MatMulUnary::pulsed_fact(self@, inputs@[0]@),
            ],
            r matches Err(e) ==> e == (if inputs@.len() < 1 {
                Error::Arity
            } else {
                shape_error(self@.a.shape, inputs@[0]@.shape, self.a_trans, self.b_trans)
            }),
    {
        if inputs.len() < 1 {
            return Err(Error::Arity);
        }
        let input = inputs[0];
        let shapes = infer_shapes(
            dup_shape(self.a.shape()),
            dup_shape(&input.shape),
            self.a_trans,
            self.b_trans,
            self.c_trans,
        );
        match shapes {
            Ok(s) => {
                let fact = PulsedFact {
                    datum_type: input.datum_type,
                    shape: s.2,
                    axis: input.axis,
                    dim: input.dim,
                    delay: input.delay,
                };
                let mut facts: Vec<PulsedFact> = Vec::new();
                facts.push(fact);
                assert(facts_view(facts@) =~= seq![MatMulUnary::pulsed_fact(self@, input@)]);
                Ok(facts)
            },
            Err(e) => Err(e),
        }
    }

    /// Puts the product into the streaming graph `target`, behind the
    /// outlet that stands there for its input. Fails with `Arity` where the
    /// node has no input, else with `Outlet` where the input is not mapped or
    /// `target` lacks the outlet, else with `PulseOnReducedAxis` where the
    /// streaming axis is the axis that the product sums over, else as
    /// `pulsed_output_facts`; the target is then left as it was.
    pub fn pulsify(
        &self,
        _source: &TypedModel,
        node: &TypedNode,
        target: &mut PulsedModel,
        mapping: &Vec<(OutletId, OutletId)>,
        _pulse: usize,
    ) -> (r: Result<Vec<OutletId>, Error>)
        requires
            old(target).wf(),
        ensures
            final(target).wf(),
            r is Ok <==> {
                let input = mapped(mapping@, node@.inputs[0]).unwrap();
                let fact = old(target)@.fact(input);
                &&& node@.inputs.len() >= 1
                &&& mapped(mapping@, node@.inputs[0]) is Some
                &&& old(target)@.has_outlet(input)
                &&& MatMulUnary::k_axis(fact.shape.len(), self.b_trans) != Some(fact.axis as int)
                &&& shapes_agree(self@.a.shape, fact.shape, self.a_trans, self.b_trans)
            },
            r matches Ok(wires) ==> {
                let input = mapped(mapping@, node@.inputs[0]).unwrap();
                let fact = old(target)@.fact(input);
                &&& node@.inputs.len() >= 1
                &&& mapped(mapping@, node@.inputs[0]) is Some
                &&& old(target)@.has_outlet(input)
                &&& MatMulUnary::k_axis(fact.shape.len(), self.b_trans) != Some(fact.axis as int)
                &&& shapes_agree(self@.a.shape, fact.shape, self.a_trans, self.b_trans)
                &&& wires@ == outlets_of(old(target)@.nodes.len() as usize, 1)
                &&& final(target)@ == old(target)@.with_node(
                    node@.name,
                    OpView::MatMulUnary(self@),
                    seq![input],
                    seq![MatMulUnary::pulsed_fact(self@, fact)],
                )
            },
            r matches Err(e) ==> final(target)@ == old(target)@ && e == (if node@.inputs.len() < 1 {
                Error::Arity
            } else if mapped(mapping@, node@.inputs[0]) is None || !old(target)@.has_outlet(
                mapped(mapping@, node@.inputs[0]).unwrap(),
            ) {
                Error::Outlet
            } else {
                let fact = old(target)@.fact(mapped(mapping@, node@.inputs[0]).unwrap());
                if MatMulUnary::k_axis(fact.shape.len(), self.b_trans) == Some(fact.axis as int) {
                    Error::PulseOnReducedAxis
                } else {
                    shape_error(self@.a.shape, fact.shape, self.a_trans, self.b_trans)
                }
            }),
    {
        if node.inputs.len() < 1 {
            return Err(Error::Arity);
        }
        let input = match lookup(mapping, node.inputs[0]) {
            Some(i) => i,
            None => {
                return Err(Error::Outlet);
            },
        };
        let facts = {
            let fact = match target.outlet_fact(input) {
                Ok(f) => f,
                Err(e) => {
                    return Err(e);
                },
            };
            let rank = fact.shape.len();
            let on_k = if rank >= 2 {
                fact.axis == (if self.b_trans { rank - 1 } else { rank - 2 })
            } else {
                rank == 1 && fact.axis == 0
            };
            if on_k {
                return Err(Error::PulseOnReducedAxis);
            }
            let mut facts: Vec<&PulsedFact> = Vec::new();
            facts.push(fact);
            match self.pulsed_output_facts(&facts) {
                Ok(f) => f,
                Err(e) => {
                    return Err(e);
                },
            }
        };
        let mut inputs: Vec<OutletId> = Vec::new();
        inputs.push(input);
        assert(inputs@ =~= seq![input]);
        assert(target@.has_outlets(inputs@));
        assert(facts_view(facts@).len() == 1);
        target.wire_node(node.name.clone(), Op::MatMulUnary(self.dup()), &inputs, facts)
    }
}

} // verus!
