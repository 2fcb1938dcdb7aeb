use vstd::prelude::*;
use crate::broadcast::{broadcast, broadcast_shape, compatible};
use crate::concat::{NormConcat, NormConcatSlice, NormConcatView, slice_view, lemma_offset_error};
use crate::datum::DatumType;
use crate::dim::{as_dims, dup_shape, TDim};
use crate::error::Error;
use crate::fact::{TypedFact, TypedFactView};
use crate::matmul::{MatMulUnary, MatMulUnaryView};
use crate::model::{facts_view, ModelView, NodeView, Op, OpView, OutletId, TypedModel, TypedNode};
use crate::name::{join_label, join_number, labelled, numbered};
use crate::patch::{PatchView, TypedModelPatch};
use crate::shapes::{final_c_shape, flag, shape_error, shapes_agree};
use crate::tensor::{Tensor, TensorView};

verus! {

/// The shape without its leading axes of length one.
pub open spec fn strip_ones(shape: Seq<usize>) -> Seq<usize>
    decreases shape.len(),
{
    if shape.len() > 0 && shape[0] == 1 {
        strip_ones(shape.drop_first())
    } else {
        shape
    }
}

/// The tensor without its leading axes of length one.
pub fn strip_leading_ones(t: Tensor) -> (r: Tensor)
    ensures
        r@ == t@.reshaped(strip_ones(t@.shape)),
        t.wf() ==> r.wf(),
{
    let mut a = t;
    while a.rank() > 0 && a.shape()[0] == 1
        invariant
            a@.datum_type == t@.datum_type,
            a@.data == t@.data,
            strip_ones(a@.shape) == strip_ones(t@.shape),
            t.wf() ==> a.wf(),
        decreases a@.shape.len(),
    {
        proof {
            assert(a@.shape.remove(0) =~= a@.shape.drop_first());
        }
        let removed = a.remove_axis(0);
    }
    a
}

/// What a dim says as a length: `Symbolic` where it depends on the stream,
/// `Overflow` where it is no machine length.
pub open spec fn usize_of(d: TDim) -> Result<usize, Error> {
    if d.slope != 0 {
        Err(Error::Symbolic)
    } else if 0 <= d.offset <= usize::MAX {
        Ok(d.offset as usize)
    } else {
        Err(Error::Overflow)
    }
}

/// The starts of the first `upto` parts of a concatenation as lengths; the
/// first error among them.
pub open spec fn finite_offsets(
    concat: NormConcatView,
    inputs: Seq<TypedFactView>,
    upto: nat,
) -> Result<
    Seq<usize>,
    Error,
>
    decreases upto,
{
    if upto == 0 {
        Ok(Seq::empty())
    } else {
        match finite_offsets(concat, inputs, (upto - 1) as nat) {
            Err(e) => Err(e),
            Ok(s) => match usize_of(concat.offset(inputs, (upto - 1) as nat).unwrap()) {
                Ok(o) => Ok(s.push(o)),
                Err(e) => Err(e),
            },
        }
    }
}

/// Where each part of a concatenation starts and where the last one ends,
/// as lengths: the first error among the starts, else the first error among
/// the lengths.
pub open spec fn k_offsets(concat: NormConcatView, inputs: Seq<TypedFactView>) -> Result<
    Seq<usize>,
    Error,
> {
    match concat.offset(inputs, concat.slices.len()) {
        Err(e) => Err(e),
        Ok(_) => finite_offsets(concat, inputs, (concat.slices.len() + 1) as nat),
    }
}

/// What a result that holds a list of lengths says.
pub open spec fn lengths_view(r: Result<Vec<usize>, Error>) -> Result<Seq<usize>, Error> {
    match r {
        Ok(v) => Ok(v@),
        Err(e) => Err(e),
    }
}

/// Once the lengths of the first parts are an error, those of more parts
/// are that error.
proof fn lemma_finite_offsets_error(
    concat: NormConcatView,
    inputs: Seq<TypedFactView>,
    at: nat,
    later: nat,
)
    requires
        at <= later,
        finite_offsets(concat, inputs, at) is Err,
    ensures
        finite_offsets(concat, inputs, later) == finite_offsets(concat, inputs, at),
    decreases later,
{
    if at < later {
        lemma_finite_offsets_error(concat, inputs, at, (later - 1) as nat);
    }
}

/// Computes `k_offsets`.
fn offsets_of(concat: &NormConcat, inputs: &Vec<&TypedFact>) -> (r: Result<Vec<usize>, Error>)
    ensures
        lengths_view(r) == k_offsets(concat@, facts_view(inputs@)),
        r matches Ok(v) ==> v@.len() == concat@.slices.len() + 1,
{
    let ghost facts = facts_view(inputs@);
    let dims = match concat.offsets(inputs) {
        Ok(d) => d,
        Err(e) => {
            return Err(e);
        },
    };
    let ghost n = concat@.slices.len();
    let mut out: Vec<usize> = Vec::new();
    let mut i: usize = 0;
    assert(Ok::<TDim, Error>(dims@[n as int]) == concat@.offset(facts, n));
    while i < dims.len()
        invariant
            i <= dims.len(),
            dims@.len() == n + 1,
            n == concat@.slices.len(),
            facts == facts_view(inputs@),
            concat@.offset(facts, n) is Ok,
            forall|j: int|
                0 <= j <= n ==> Ok::<TDim, Error>(#[trigger] dims@[j]) == concat@.offset(
                    facts,
                    j as nat,
                ),
            Ok::<Seq<usize>, Error>(out@) == finite_offsets(concat@, facts, i as nat),
            out@.len() == i,
        decreases dims.len() - i,
    {
        assert(Ok::<TDim, Error>(dims@[i as int]) == concat@.offset(facts, i as nat));
        match dims[i].to_usize() {
            Ok(o) => {
                out.push(o);
            },
            Err(e) => {
                proof {
                    lemma_finite_offsets_error(concat@, facts, (i + 1) as nat, (n + 1) as nat);
                }
                return Err(e);
            },
        }
        i += 1;
    }
    Ok(out)
}

impl MatMulUnaryView {
    /// The axis of the constant that the product sums over.
    pub open spec fn k_axis(self) -> int {
        self.a.shape.len() - 1 - flag(self.a_trans)
    }

    /// The product with the part `from..to` of the constant along the axis
    /// that the product sums over, without its leading axes of length one.
    pub open spec fn k_part(self, from: usize, to: usize) -> MatMulUnaryView {
        let part = self.a.sliced(self.k_axis(), from as int, to as int);
        MatMulUnaryView { a: part.reshaped(strip_ones(part.shape)), ..self }
    }

    /// The positions `from..to` lie in the axis that the product sums over.
    pub open spec fn has_k_part(self, from: usize, to: usize) -> bool {
        self.k_axis() >= 0 && from <= to <= self.a.shape[self.k_axis()]
    }

    /// The product with the part `start..end` of the constant along its
    /// row axis.
    pub open spec fn m_part(self, start: usize, end: usize) -> MatMulUnaryView {
        MatMulUnaryView { a: self.a.sliced(self.m_axis(), start as int, end as int), ..self }
    }

    /// The axis of the constant that gives the rows of the product.
    pub open spec fn m_axis(self) -> int {
        self.a.shape.len() - 1 - flag(!self.a_trans)
    }

    /// The positions `start..end` lie in the row axis of the constant.
    pub open spec fn has_m_part(self, start: usize, end: usize) -> bool {
        self.m_axis() >= 0 && start <= end <= self.a.shape[self.m_axis()]
    }
}

/// What has been built of a split so far: the patch, the outlets of the
/// partial products and their facts.
pub struct SplitView {
    pub patch: PatchView,
    pub wires: Seq<OutletId>,
    pub facts: Seq<TypedFactView>,
}

/// The name of the constant that feeds the part `ix`.
pub open spec fn const_name(node: Seq<char>, ix: int) -> Seq<char> {
    numbered(labelled(node, "const"@), ix as nat)
}

/// The name of the product with the part `from..to`.
pub open spec fn part_name(node: Seq<char>, from: usize, to: usize) -> Seq<char> {
    numbered(numbered(labelled(node, "k"@), from as nat), to as nat)
}

/// The name of the sum number `ix`.
pub open spec fn sum_name(node: Seq<char>, ix: int) -> Seq<char> {
    numbered(labelled(node, "k-add"@), ix as nat)
}

/// The split with the part `ix` added: its source, a new constant or a tap
/// of the input of the concatenation that it is, and behind it the product
/// with the matching part of the constant. `Arity` where the concatenation
/// node lacks the input, `Outlet` where the graph lacks it, `Range` where
/// the part does not lie in the constant, else as `infer_shapes` for the
/// partial product.
pub open spec fn split_step(
    state: SplitView,
    model: ModelView<TypedFactView>,
    node: NodeView<TypedFactView>,
    concat_node: NodeView<TypedFactView>,
    concat: NormConcatView,
    op: MatMulUnaryView,
    offsets: Seq<usize>,
    ix: int,
) -> Result<SplitView, Error> {
    let v = concat.vars_before(ix) as int;
    let from = offsets[ix];
    let to = offsets[ix + 1];
    let part = op.k_part(from, to);
    let source_fact = match concat.slices[ix] {
        Some(t) => TypedFactView::of_tensor(t),
        None => model.fact(concat_node.inputs[v]),
    };
    let source = match concat.slices[ix] {
        Some(t) => state.patch.with_const(const_name(node.name, ix), t),
        None => state.patch.tapped(source_fact, concat_node.inputs[v]),
    };
    if concat.slices[ix] is None && v >= concat_node.inputs.len() {
        Err(Error::Arity)
    } else if concat.slices[ix] is None && !model.has_outlet(concat_node.inputs[v]) {
        Err(Error::Outlet)
    } else if !op.has_k_part(from, to) {
        Err(Error::Range)
    } else if !shapes_agree(as_dims(part.a.shape), source_fact.shape, part.a_trans, part.b_trans) {
        Err(shape_error(as_dims(part.a.shape), source_fact.shape, part.a_trans, part.b_trans))
    } else {
        let fact = MatMulUnary::output_fact(part, source_fact);
        Ok(
            SplitView {
                patch: source.wired(
                    part_name(node.name, from, to),
                    OpView::MatMulUnary(part),
                    seq![state.patch.next_outlet()],
                    seq![fact],
                ),
                wires: state.wires.push(source.next_outlet()),
                facts: state.facts.push(fact),
            },
        )
    }
}

/// The split with the first `upto` parts; the first error among them.
pub open spec fn split_parts(
    model: ModelView<TypedFactView>,
    node: NodeView<TypedFactView>,
    concat_node: NodeView<TypedFactView>,
    concat: NormConcatView,
    op: MatMulUnaryView,
    offsets: Seq<usize>,
    upto: nat,
) -> Result<SplitView, Error>
    decreases upto,
{
    if upto == 0 {
        Ok(SplitView { patch: PatchView::empty(), wires: Seq::empty(), facts: Seq::empty() })
    } else {
        match split_parts(model, node, concat_node, concat, op, offsets, (upto - 1) as nat) {
            Err(e) => Err(e),
            Ok(state) => split_step(state, model, node, concat_node, concat, op, offsets, upto - 1),
        }
    }
}

/// What has been built of a sum so far: the patch, the outlet of the sum
/// and its fact.
pub struct SumView {
    pub patch: PatchView,
    pub wire: OutletId,
    pub fact: TypedFactView,
}

/// The fact of the sum of two wires: the type of the first and the
/// broadcast of the shapes; `Broadcast` where they do not broadcast.
pub open spec fn sum_fact(a: TypedFactView, b: TypedFactView) -> Result<TypedFactView, Error> {
    if compatible(a.shape, b.shape) {
        Ok(TypedFactView::dt_shape(a.datum_type, broadcast_shape(a.shape, b.shape)))
    } else {
        Err(Error::Broadcast)
    }
}

/// The partial products added up from the left: the sum of the first
/// `upto + 1` of them; the first error among the sums.
pub open spec fn sum_parts(split: SplitView, node: Seq<char>, upto: nat) -> Result<SumView, Error>
    decreases upto,
{
    if upto == 0 {
        Ok(SumView { patch: split.patch, wire: split.wires[0], fact: split.facts[0] })
    } else {
        match sum_parts(split, node, (upto - 1) as nat) {
            Err(e) => Err(e),
            Ok(sum) => match sum_fact(sum.fact, split.facts[upto as int]) {
                Err(e) => Err(e),
                Ok(fact) => Ok(
                    SumView {
                        patch: sum.patch.wired(
                            sum_name(node, upto - 1),
                            OpView::Add,
                            seq![sum.wire, split.wires[upto as int]],
                            seq![fact],
                        ),
                        wire: sum.patch.next_outlet(),
                        fact,
                    },
                ),
            },
        }
    }
}

/// The facts that a graph has for the given outlets.
pub open spec fn facts_of(
    model: ModelView<TypedFactView>,
    outlets: Seq<OutletId>,
) -> Seq<TypedFactView> {
    Seq::new(outlets.len(), |i: int| model.fact(outlets[i]))
}

/// The patch that splits the product at `node`, which reads the
/// concatenation at `concat_node`, into the sum of one product for each part
/// of the concatenation.
pub open spec fn k_split_patch(
    model: ModelView<TypedFactView>,
    node: NodeView<TypedFactView>,
    concat_node: NodeView<TypedFactView>,
    concat: NormConcatView,
    op: MatMulUnaryView,
) -> Result<PatchView, Error> {
    let inputs = facts_of(model, concat_node.inputs);
    let parts = concat.slices.len();
    if op.k_axis() < 0 {
        Err(Error::AxisOutOfRange)
    } else if !model.has_outlets(concat_node.inputs) {
        Err(Error::Outlet)
    } else if k_offsets(concat, inputs) is Err {
        Err(k_offsets(concat, inputs)->Err_0)
    } else if parts == 0 {
        Err(Error::Arity)
    } else {
        let offsets = k_offsets(concat, inputs)->Ok_0;
        match split_parts(model, node, concat_node, concat, op, offsets, parts) {
            Err(e) => Err(e),
            Ok(split) => match sum_parts(split, node.name, (parts - 1) as nat) {
                Err(e) => Err(e),
                Ok(sum) => Ok(sum.patch.shunted(OutletId { node: node.id, slot: 0 }, sum.wire)),
            },
        }
    }
}

/// The rewrite of the product at `node`: where its input is a
/// concatenation along the axis of the wire that the product sums over, the
/// last axis of a transposed wire and the axis before the last of any other,
/// the patch of `k_split_patch`; else nothing.
pub open spec fn k_split(
    model: ModelView<TypedFactView>,
    node: NodeView<TypedFactView>,
    op: MatMulUnaryView,
) -> Result<Option<PatchView>, Error> {
    if node.inputs.len() < 1 {
        Err(Error::Arity)
    } else if !model.has_outlet(node.inputs[0]) {
        Err(Error::Outlet)
    } else {
        let input = node.inputs[0];
        let producer = model.nodes[input.node as int];
        let rank = model.fact(input).shape.len();
        match producer.op {
            OpView::NormConcat(concat) => if MatMulUnary::k_axis(rank, op.b_trans) == Some(
                concat.axis as int,
            ) {
                match k_split_patch(model, node, producer, concat, op) {
                    Ok(p) => Ok(Some(p)),
                    Err(e) => Err(e),
                }
            } else {
                Ok(None)
            },
            _ => Ok(None),
        }
    }
}

impl MatMulUnary {
    /// The product with the part `from..to` of the constant along the axis
    /// that the product sums over, without its leading axes of length one.
    /// `AxisOutOfRange` where the constant has no such axis, else `Range`
    /// where the positions do not lie in it.
    pub fn k_part(&self, from: usize, to: usize) -> (r: Result<MatMulUnary, Error>)
        ensures
            r is Ok <==> self@.has_k_part(from, to),
            r matches Ok(part) ==> part@ == self@.k_part(from, to),
            r matches Err(e) ==> e == (if self@.k_axis() < 0 {
                Error::AxisOutOfRange
            } else {
                Error::Range
            }),
    {
        let below = if self.a_trans { 2usize } else { 1usize };
        if self.a.rank() < below {
            return Err(Error::AxisOutOfRange);
        }
        let k_axis = self.a.rank() - below;
        match self.a.slice(k_axis, from, to) {
            Ok(part) => Ok(
                MatMulUnary {
                    a: strip_leading_ones(part),
                    a_trans: self.a_trans,
                    b_trans: self.b_trans,
                    c_trans: self.c_trans,
                    q_params: self.q_params,
                },
            ),
            Err(e) => Err(e),
        }
    }
}

/// A patch that gets one more node keeps its outlets.
proof fn lemma_wired_keeps_outlets(
    patch: PatchView,
    name: Seq<char>,
    op: OpView,
    inputs: Seq<OutletId>,
    outputs: Seq<TypedFactView>,
    outlets: Seq<OutletId>,
)
    requires
        patch.model.has_outlets(outlets),
    ensures
        patch.wired(name, op, inputs, outputs).model.has_outlets(outlets),
{
    let after = patch.wired(name, op, inputs, outputs);
    assert forall|i: int| 0 <= i < outlets.len() implies after.model.has_outlet(
        #[trigger] outlets[i],
    ) by {
        let o = outlets[i];
        assert(patch.model.has_outlet(o));
        assert(after.model.nodes[o.node as int] == patch.model.nodes[o.node as int]);
    }
}

/// A patch that gets one more source node keeps its outlets.
proof fn lemma_tapped_keeps_outlets(
    patch: PatchView,
    fact: TypedFactView,
    outlet: OutletId,
    outlets: Seq<OutletId>,
)
    requires
        patch.model.has_outlets(outlets),
    ensures
        patch.tapped(fact, outlet).model.has_outlets(outlets),
{
    let after = patch.tapped(fact, outlet);
    assert forall|i: int| 0 <= i < outlets.len() implies after.model.has_outlet(
        #[trigger] outlets[i],
    ) by {
        let o = outlets[i];
        assert(patch.model.has_outlet(o));
        assert(after.model.nodes[o.node as int] == patch.model.nodes[o.node as int]);
    }
}

/// Adds one part to a split: see `split_step`.
fn add_part(
    patch: &mut TypedModelPatch,
    wires: &mut Vec<OutletId>,
    facts: &mut Vec<TypedFact>,
    model: &TypedModel,
    node: &TypedNode,
    concat_node: &TypedNode,
    concat: &NormConcat,
    op: &MatMulUnary,
    offsets: &Vec<usize>,
    ix: usize,
    v: usize,
) -> (r: Result<(), Error>)
    requires
        old(patch).wf(),
        old(patch)@.model.has_outlets(old(wires)@),
        ix < concat@.slices.len(),
        offsets@.len() == concat@.slices.len() + 1,
        v == concat@.vars_before(ix as int),
        op@.k_axis() >= 0,
    ensures
        ({
            let before = SplitView {
                patch: old(patch)@,
                wires: old(wires)@,
                facts: facts_view(old(facts)@),
            };
            let after = SplitView {
                patch: final(patch)@,
                wires: final(wires)@,
                facts: facts_view(final(facts)@),
            };
            let step = split_step(before, model@, node@, concat_node@, concat@, op@, offsets@, ix as int);
            &&& r is Ok ==> step == Ok::<SplitView, Error>(after)
            &&& r is Ok ==> final(patch).wf()
            &&& r is Ok ==> final(patch)@.model.has_outlets(final(wires)@)
            &&& r is Ok ==> final(wires)@.len() == old(wires)@.len() + 1
            &&& r is Ok ==> final(facts)@.len() == old(facts)@.len() + 1
            &&& r matches Err(e) ==> step == Err::<SplitView, Error>(e)
        }),
{
    let ghost before = SplitView { patch: patch@, wires: wires@, facts: facts_view(facts@) };
    let count = offsets.len();
    let from = offsets[ix];
    let to = offsets[ix + 1];
    assert(concat@.slices[ix as int] == slice_view(concat.slices@[ix as int]));
    let wire: OutletId;
    let source_fact: TypedFact;
    let existing = patch.model.nodes.len();
    assert(patch@.model.nodes.len() == existing);
    match &concat.slices[ix] {
        NormConcatSlice::Const(t) => {
            let name = join_number(join_label(node.name.as_str(), "const").as_str(), ix);
            proof {
                lemma_wired_keeps_outlets(
                    patch@,
                    name@,
                    OpView::Const(t@),
                    Seq::empty(),
                    seq![TypedFactView::of_tensor(t@)],
                    wires@,
                );
            }
            wire = patch.add_const(name, t.dup());
            source_fact = TypedFact::of_tensor(t);
            assert(patch@.model.nodes[wire.node as int].outputs.len() == 1);
            assert(patch@.model.has_outlets(wires@));
        },
        NormConcatSlice::Var => {
            if v >= concat_node.inputs.len() {
                return Err(Error::Arity);
            }
            let outlet = concat_node.inputs[v];
            let fact = match model.outlet_fact(outlet) {
                Ok(f) => f.dup(),
                Err(e) => {
                    return Err(e);
                },
            };
            proof {
                lemma_tapped_keeps_outlets(patch@, fact@, outlet, wires@);
            }
            match patch.tap_model(model, outlet) {
                Ok(w) => {
                    wire = w;
                    source_fact = fact;
                },
                Err(e) => {
                    return Err(e);
                },
            }
            assert(patch@.model.nodes[wire.node as int].outputs.len() == 1);
            assert(patch@.model.has_outlets(wires@));
        },
    }
    let ghost source = patch@;
    assert(source.model.has_outlet(wire));
    assert(wire == before.patch.next_outlet());
    let ghost spec_fact = match concat@.slices[ix as int] {
        Some(t) => TypedFactView::of_tensor(t),
        None => model@.fact(concat_node@.inputs[v as int]),
    };
    let ghost spec_source = match concat@.slices[ix as int] {
        Some(t) => before.patch.with_const(const_name(node@.name, ix as int), t),
        None => before.patch.tapped(spec_fact, concat_node@.inputs[v as int]),
    };
    assert(source_fact@ == spec_fact);
    assert(source == spec_source);
    let part = match op.k_part(from, to) {
        Ok(p) => p,
        Err(e) => {
            return Err(e);
        },
    };
    let mut sources: Vec<&TypedFact> = Vec::new();
    sources.push(&source_fact);
    let out_facts = match part.output_facts(&sources) {
        Ok(f) => f,
        Err(e) => {
            return Err(e);
        },
    };
    assert(facts_view(out_facts@).len() == 1);
    let fact = out_facts[0].dup();
    assert(fact@ == MatMulUnary::output_fact(part@, source_fact@)) by {
        assert(facts_view(out_facts@)[0] == out_facts@[0]@);
        assert(sources@[0]@ == source_fact@);
    }
    let name = join_number(
        join_number(join_label(node.name.as_str(), "k").as_str(), from).as_str(),
        to,
    );
    let mut inputs: Vec<OutletId> = Vec::new();
    inputs.push(wire);
    assert(inputs@ =~= seq![before.patch.next_outlet()]);
    assert(source.model.has_outlets(inputs@));
    assert(facts_view(out_facts@) =~= seq![fact@]);
    proof {
        lemma_wired_keeps_outlets(
            source,
            name@,
            OpView::MatMulUnary(part@),
            inputs@,
            facts_view(out_facts@),
            wires@,
        );
    }
    let grown = patch.model.nodes.len();
    assert(source.model.nodes.len() == grown);
    let wired = match patch.wire_node(name, Op::MatMulUnary(part), &inputs, out_facts) {
        Ok(w) => w,
        Err(e) => {
            return Err(e);
        },
    };
    assert(patch@.model.has_outlets(before.wires));
    assert(wired@[0] == source.next_outlet());
    assert(patch@.model.has_outlet(wired@[0])) by {
        assert(patch@.model.nodes[grown as int].outputs.len() == 1);
    }
    assert(patch@ == spec_source.wired(
        part_name(node@.name, from, to),
        OpView::MatMulUnary(op@.k_part(from, to)),
        seq![before.patch.next_outlet()],
        seq![MatMulUnary::output_fact(op@.k_part(from, to), spec_fact)],
    ));
    let ghost old_facts = facts_view(facts@);
    wires.push(wired[0]);
    facts.push(fact);
    proof {
        assert(facts_view(facts@) =~= old_facts.push(fact@));
        assert(wires@ =~= before.wires.push(spec_source.next_outlet()));
        assert(fact@ == MatMulUnary::output_fact(op@.k_part(from, to), spec_fact));
        assert(op@.has_k_part(from, to));
        assert(shapes_agree(
            as_dims(op@.k_part(from, to).a.shape),
            spec_fact.shape,
            op@.a_trans,
            op@.b_trans,
        ));
        assert forall|i: int| 0 <= i < wires@.len() implies patch@.model.has_outlet(
            #[trigger] wires@[i],
        ) by {
            if i < before.wires.len() {
                assert(wires@[i] == before.wires[i]);
                assert(patch@.model.has_outlet(before.wires[i]));
            }
        }
    }
    Ok(())
}

/// The fact of the sum of two wires.
fn add_facts(a: &TypedFact, b: &TypedFact) -> (r: Result<TypedFact, Error>)
    ensures
        r matches Ok(f) ==> sum_fact(a@, b@) == Ok::<TypedFactView, Error>(f@),
        r matches Err(e) ==> sum_fact(a@, b@) == Err::<TypedFactView, Error>(e),
{
    match broadcast(&a.shape, &b.shape) {
        Some(shape) => Ok(TypedFact::dt_shape(a.datum_type, &shape)),
        None => Err(Error::Broadcast),
    }
}

/// Once the first parts of a split are an error, more parts are that
/// error.
proof fn lemma_split_error(
    model: ModelView<TypedFactView>,
    node: NodeView<TypedFactView>,
    concat_node: NodeView<TypedFactView>,
    concat: NormConcatView,
    op: MatMulUnaryView,
    offsets: Seq<usize>,
    at: nat,
    later: nat,
)
    requires
        at <= later,
        split_parts(model, node, concat_node, concat, op, offsets, at) is Err,
    ensures
        split_parts(model, node, concat_node, concat, op, offsets, later) == split_parts(
            model,
            node,
            concat_node,
            concat,
            op,
            offsets,
            at,
        ),
    decreases later,
{
    if at < later {
        lemma_split_error(model, node, concat_node, concat, op, offsets, at, (later - 1) as nat);
    }
}

/// Once the first sums are an error, more sums are that error.
proof fn lemma_sum_error(split: SplitView, node: Seq<char>, at: nat, later: nat)
    requires
        at <= later,
        sum_parts(split, node, at) is Err,
    ensures
        sum_parts(split, node, later) == sum_parts(split, node, at),
    decreases later,
{
    if at < later {
        lemma_sum_error(split, node, at, (later - 1) as nat);
    }
}

/// What a result that holds a patch says.
pub open spec fn patch_result_view(r: Result<TypedModelPatch, Error>) -> Result<PatchView, Error> {
    match r {
        Ok(p) => Ok(p@),
        Err(e) => Err(e),
    }
}

/// What a result that holds an optional patch says.
pub open spec fn rewrite_view(r: Result<Option<TypedModelPatch>, Error>) -> Result<
    Option<PatchView>,
    Error,
> {
    match r {
        Ok(Some(p)) => Ok(Some(p@)),
        Ok(None) => Ok(None),
        Err(e) => Err(e),
    }
}

/// Builds the patch of `k_split_patch`.
fn split_on_k(
    model: &TypedModel,
    node: &TypedNode,
    concat_node: &TypedNode,
    concat: &NormConcat,
    op: &MatMulUnary,
) -> (r: Result<TypedModelPatch, Error>)
    ensures
        patch_result_view(r) == k_split_patch(model@, node@, concat_node@, concat@, op@),
        r matches Ok(p) ==> p.wf(),
{
    let below = if op.a_trans { 2usize } else { 1usize };
    if op.a.rank() < below {
        return Err(Error::AxisOutOfRange);
    }
    let mut inputs: Vec<&TypedFact> = Vec::new();
    let mut i: usize = 0;
    while i < concat_node.inputs.len()
        invariant
            i <= concat_node.inputs.len(),
            inputs@.len() == i,
            op@.k_axis() >= 0,
            forall|j: int| 0 <= j < i ==> model@.has_outlet(#[trigger] concat_node@.inputs[j]),
            forall|j: int|
                0 <= j < i ==> (#[trigger] inputs@[j])@ == model@.fact(concat_node@.inputs[j]),
        decreases concat_node.inputs.len() - i,
    {
        match model.outlet_fact(concat_node.inputs[i]) {
            Ok(f) => {
                inputs.push(f);
            },
            Err(e) => {
                return Err(e);
            },
        }
        i += 1;
    }
    assert(facts_view(inputs@) =~= facts_of(model@, concat_node@.inputs));
    let offsets = match offsets_of(concat, &inputs) {
        Ok(o) => o,
        Err(e) => {
            return Err(e);
        },
    };
    let parts = concat.slices.len();
    assert(concat@.slices.len() == parts);
    if parts == 0 {
        return Err(Error::Arity);
    }
    let mut patch = TypedModelPatch::new();
    let mut wires: Vec<OutletId> = Vec::new();
    let mut facts: Vec<TypedFact> = Vec::new();
    let mut v: usize = 0;
    let mut ix: usize = 0;
    assert(facts_view(facts@) =~= Seq::empty());
    while ix < parts
        invariant
            ix <= parts,
            parts == concat@.slices.len(),
            parts > 0,
            offsets@.len() == parts + 1,
            op@.k_axis() >= 0,
            model@.has_outlets(concat_node@.inputs),
            k_offsets(concat@, facts_of(model@, concat_node@.inputs)) == Ok::<Seq<usize>, Error>(
                offsets@,
            ),
            patch.wf(),
            patch@.model.has_outlets(wires@),
            v == concat@.vars_before(ix as int),
            v <= ix,
            wires@.len() == ix,
            facts@.len() == ix,
            split_parts(model@, node@, concat_node@, concat@, op@, offsets@, ix as nat) == Ok::<
                SplitView,
                Error,
            >(SplitView { patch: patch@, wires: wires@, facts: facts_view(facts@) }),
        decreases parts - ix,
    {
        match add_part(
            &mut patch,
            &mut wires,
            &mut facts,
            model,
            node,
            concat_node,
            concat,
            op,
            &offsets,
            ix,
            v,
        ) {
            Ok(()) => {},
            Err(e) => {
                proof {
                    lemma_split_error(
                        model@,
                        node@,
                        concat_node@,
                        concat@,
                        op@,
                        offsets@,
                        (ix + 1) as nat,
                        parts as nat,
                    );
                }
                return Err(e);
            },
        }
        assert(concat@.slices[ix as int] == slice_view(concat.slices@[ix as int]));
        match &concat.slices[ix] {
            NormConcatSlice::Var => {
                v += 1;
            },
            NormConcatSlice::Const(_) => {},
        }
        ix += 1;
    }
    let ghost split = SplitView { patch: patch@, wires: wires@, facts: facts_view(facts@) };
    assert(patch@.model.has_outlet(wires@[0]));
    let mut wire = wires[0];
    let mut fact = facts[0].dup();
    let mut j: usize = 1;
    while j < parts
        invariant
            1 <= j <= parts,
            parts == concat@.slices.len(),
            op@.k_axis() >= 0,
            model@.has_outlets(concat_node@.inputs),
            k_offsets(concat@, facts_of(model@, concat_node@.inputs)) == Ok::<Seq<usize>, Error>(
                offsets@,
            ),
            split_parts(model@, node@, concat_node@, concat@, op@, offsets@, parts as nat) == Ok::<
                SplitView,
                Error,
            >(split),
            wires@.len() == parts,
            facts@.len() == parts,
            split.wires == wires@,
            split.facts == facts_view(facts@),
            patch.wf(),
            patch@.model.has_outlets(wires@),
            patch@.model.has_outlet(wire),
            sum_parts(split, node@.name, (j - 1) as nat) == Ok::<SumView, Error>(
                SumView { patch: patch@, wire, fact: fact@ },
            ),
        decreases parts - j,
    {
        assert(split.facts[j as int] == facts@[j as int]@);
        let sum = match add_facts(&fact, &facts[j]) {
            Ok(f) => f,
            Err(e) => {
                proof {
                    lemma_sum_error(split, node@.name, j as nat, (parts - 1) as nat);
                }
                return Err(e);
            },
        };
        let name = join_number(join_label(node.name.as_str(), "k-add").as_str(), j - 1);
        let mut inputs: Vec<OutletId> = Vec::new();
        inputs.push(wire);
        inputs.push(wires[j]);
        assert(inputs@ =~= seq![wire, wires@[j as int]]);
        assert(patch@.model.has_outlet(wires@[j as int]));
        assert(patch@.model.has_outlets(inputs@));
        let mut out_facts: Vec<TypedFact> = Vec::new();
        out_facts.push(sum.dup());
        assert(facts_view(out_facts@) =~= seq![sum@]);
        proof {
            lemma_wired_keeps_outlets(
                patch@,
                name@,
                OpView::Add,
                inputs@,
                facts_view(out_facts@),
                wires@,
            );
        }
        let grown = patch.model.nodes.len();
        assert(patch@.model.nodes.len() == grown);
        let wired = match patch.wire_node(name, Op::Add, &inputs, out_facts) {
            Ok(w) => w,
            Err(e) => {
                return Err(e);
            },
        };
        wire = wired[0];
        fact = sum;
        assert(patch@.model.has_outlet(wire)) by {
            assert(patch@.model.nodes[grown as int].outputs.len() == 1);
        }
        j += 1;
    }
    patch.shunt_outside(OutletId::new(node.id, 0), wire);
    Ok(patch)
}

impl MatMulUnary {
    /// Where the input of the product is a concatenation along the axis
    /// that the product sums over, the product becomes a sum of products,
    /// one for each part of the concatenation, each with the matching part
    /// of the constant; the products are added up from the left. Any other
    /// product stays. See `k_split` for the patch and for the errors.
    pub fn declutter(&self, model: &TypedModel, node: &TypedNode) -> (r: Result<
        Option<TypedModelPatch>,
        Error,
    >)
        ensures
            rewrite_view(r) == k_split(model@, node@, self@),
            r matches Ok(Some(p)) ==> p.wf(),
    {
        if node.inputs.len() < 1 {
            return Err(Error::Arity);
        }
        let input = node.inputs[0];
        let rank = match model.outlet_fact(input) {
            Ok(f) => f.shape.len(),
            Err(e) => {
                return Err(e);
            },
        };
        let concat_node = model.node(input.node);
        match &concat_node.op {
            Op::NormConcat(concat) => {
                let on_k = if rank >= 2 {
                    concat.axis == (if self.b_trans { rank - 1 } else { rank - 2 })
                } else {
                    rank == 1 && concat.axis == 0
                };
                if on_k {
                    match split_on_k(model, node, concat_node, concat, self) {
                        Ok(p) => Ok(Some(p)),
                        Err(e) => Err(e),
                    }
                } else {
                    Ok(None)
                }
            },
            _ => Ok(None),
        }
    }
}

/// The name of the product with the rows `start..end`.
pub open spec fn rows_name(node: Seq<char>, start: usize, end: usize) -> Seq<char> {
    numbered(numbered(labelled(node, "sliced-m"@), start as nat), end as nat)
}

/// What is asked for when the positions `start..end` along `axis` of the
/// output of the product at `node` are wanted alone: nothing, unless the
/// result is transposed and `axis` is its last axis; then the product with
/// the matching rows of the constant, behind a tap of the input.
pub open spec fn rows_slice(
    before: PatchView,
    model: ModelView<TypedFactView>,
    node: NodeView<TypedFactView>,
    op: MatMulUnaryView,
    axis: usize,
    start: usize,
    end: usize,
) -> Result<Option<PatchView>, Error> {
    if node.inputs.len() < 1 {
        Err(Error::Arity)
    } else if !model.has_outlet(node.inputs[0]) {
        Err(Error::Outlet)
    } else {
        let input = node.inputs[0];
        let b = model.fact(input);
        let part = op.m_part(start, end);
        if !shapes_agree(as_dims(op.a.shape), b.shape, op.a_trans, op.b_trans) {
            Err(shape_error(as_dims(op.a.shape), b.shape, op.a_trans, op.b_trans))
        } else if axis + flag(op.c_trans) != final_c_shape(
            as_dims(op.a.shape),
            b.shape,
            op.a_trans,
            op.b_trans,
            op.c_trans,
        ).len() {
            Ok(None)
        } else if op.m_axis() < 0 {
            Err(Error::AxisOutOfRange)
        } else if !op.has_m_part(start, end) {
            Err(Error::Range)
        } else if !shapes_agree(as_dims(part.a.shape), b.shape, op.a_trans, op.b_trans) {
            Err(shape_error(as_dims(part.a.shape), b.shape, op.a_trans, op.b_trans))
        } else {
            Ok(
                Some(
                    before.tapped(b, input).wired(
                        rows_name(node.name, start, end),
                        OpView::MatMulUnary(part),
                        seq![before.next_outlet()],
                        seq![MatMulUnary::output_fact(part, b)],
                    ),
                ),
            )
        }
    }
}

impl MatMulUnary {
    /// Adds to `patch` what gives the positions `start..end` along `axis` of
    /// the output of the product at `node`, and returns its outlet: see
    /// `rows_slice`. Where nothing is added or the call fails, the patch is
    /// left as it was.
    pub fn slice_output(
        &self,
        model: &TypedModel,
        node: &TypedNode,
        patch: &mut TypedModelPatch,
        _output_slot: usize,
        axis: usize,
        start: usize,
        end: usize,
    ) -> (r: Result<Option<OutletId>, Error>)
        requires
            old(patch).wf(),
        ensures
            final(patch).wf(),
            ({
                let spec = rows_slice(old(patch)@, model@, node@, self@, axis, start, end);
                &&& r matches Ok(Some(wire)) ==> spec == Ok::<Option<PatchView>, Error>(
                    Some(final(patch)@),
                ) && wire == (OutletId {
                    node: (old(patch)@.model.nodes.len() + 1) as usize,
                    slot: 0,
                })
                &&& r matches Ok(None) ==> spec == Ok::<Option<PatchView>, Error>(None)
                &&& r matches Err(e) ==> spec == Err::<Option<PatchView>, Error>(e)
                &&& !(r matches Ok(Some(_))) ==> final(patch)@ == old(patch)@
            }),
    {
        if node.inputs.len() < 1 {
            return Err(Error::Arity);
        }
        let input = node.inputs[0];
        let b_fact = match model.outlet_fact(input) {
            Ok(f) => f,
            Err(e) => {
                return Err(e);
            },
        };
        let mut inputs: Vec<&TypedFact> = Vec::new();
        inputs.push(b_fact);
        let c_rank = match self.output_facts(&inputs) {
            Ok(facts) => {
                assert(facts_view(facts@).len() == 1);
                assert(facts_view(facts@)[0] == facts@[0]@);
                facts[0].shape.len()
            },
            Err(e) => {
                return Err(e);
            },
        };
        let wanted = if self.c_trans { axis.checked_add(1) } else { Some(axis) };
        if wanted != Some(c_rank) {
            return Ok(None);
        }
        let below = if self.a_trans { 1usize } else { 2usize };
        if self.a.rank() < below {
            return Err(Error::AxisOutOfRange);
        }
        let a_split_axis = self.a.rank() - below;
        let a = match self.a.slice(a_split_axis, start, end) {
            Ok(a) => a,
            Err(e) => {
                return Err(e);
            },
        };
        let part = MatMulUnary {
            a,
            a_trans: self.a_trans,
            b_trans: self.b_trans,
            c_trans: self.c_trans,
            q_params: self.q_params,
        };
        assert(part@ == self@.m_part(start, end));
        let facts = match part.output_facts(&inputs) {
            Ok(f) => f,
            Err(e) => {
                return Err(e);
            },
        };
        assert(facts_view(facts@).len() == 1);
        let existing = patch.model.nodes.len();
        assert(patch@.model.nodes.len() == existing);
        let ghost before = patch@;
        let wire = match patch.tap_model(model, input) {
            Ok(w) => w,
            Err(e) => {
                return Err(e);
            },
        };
        let name = join_number(
            join_number(join_label(node.name.as_str(), "sliced-m").as_str(), start).as_str(),
            end,
        );
        let mut taps: Vec<OutletId> = Vec::new();
        taps.push(wire);
        assert(taps@ =~= seq![before.next_outlet()]);
        assert(patch@.model.has_outlets(taps@)) by {
            assert(patch@.model.nodes[existing as int].outputs.len() == 1);
        }
        let grown = patch.model.nodes.len();
        match patch.wire_node(name, Op::MatMulUnary(part), &taps, facts) {
            Ok(w) => Ok(Some(w[0])),
            Err(e) => Err(e),
        }
    }
}

} // verus!
