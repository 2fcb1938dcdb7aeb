use vstd::prelude::*;
use crate::add_dims::{
    contains_axis, count_axes_below, count_axes_up_to, count_below, kept_axes, remove_axis, rm_axis,
};
use crate::axis::{AxisChangeConsequence, AxisInfo, AxisInfoView, AxisOp, InOut, infos_view};
use crate::dim::{dup_shape, product, DimLike};
use crate::error::Error;
use crate::fact::{PulsedFact, PulsedFactView, TypedFact, TypedFactView};
use crate::model::{facts_view, outlets_of, Op, OpView, OutletId, TypedModel, TypedNode};
use crate::patch::{PatchView, TypedModelPatch};
use crate::pulse::{lookup, mapped, PulsedModel};
use crate::tensor::Tensor;

verus! {

/// The operator that takes the axes at the places `axes` out of a shape.
#[derive(Debug, Clone)]
pub struct RmDims {
    pub axes: Vec<usize>,
}

/// The shape without the axes at the places `axes`.
pub open spec fn rm_axes<D>(shape: Seq<D>, axes: Seq<usize>) -> Seq<D>
    decreases shape.len(),
{
    if shape.len() == 0 {
        shape
    } else {
        let rest = rm_axes(shape.drop_last(), axes);
        if axes.contains((shape.len() - 1) as usize) {
            rest
        } else {
            rest.push(shape.last())
        }
    }
}

/// The evidence that each of `kept`, in turn, is the next axis of the
/// output.
pub open spec fn passed_on(kept: Seq<usize>) -> Seq<AxisInfoView> {
    Seq::new(kept.len(), |j: int| AxisInfoView::through(kept[j], j as usize, 1))
}

/// The number of entries of `axes` below `bound`, each place counted
/// once.
pub open spec fn distinct_below(axes: Seq<usize>, bound: int) -> nat
    decreases axes.len(),
{
    if axes.len() == 0 {
        0
    } else {
        distinct_below(axes.drop_last(), bound) + if axes.last() < bound
            && !axes.drop_last().contains(axes.last()) {
            1nat
        } else {
            0nat
        }
    }
}

/// The place in the input of the axis of the output at the place `x`: the
/// place number `x` among the places that are not among `axes`.
pub open spec fn in_place(axes: Seq<usize>, x: int) -> int {
    kept_axes(axes, (x + axes.len() + 1) as nat)[x] as int
}

/// No more places lie below a bound than there are axes, and a value is in
/// a list where it is its last entry or is in the rest.
proof fn lemma_distinct_below_step(axes: Seq<usize>, p: usize)
    ensures
        distinct_below(axes, p + 1) == distinct_below(axes, p as int) + if axes.contains(p) {
            1nat
        } else {
            0nat
        },
        distinct_below(axes, 0) == 0,
        distinct_below(axes, p as int) <= axes.len(),
    decreases axes.len(),
{
    if axes.len() > 0 {
        let init = axes.drop_last();
        lemma_distinct_below_step(init, p);
        if axes.contains(p) {
            let i = choose|i: int| 0 <= i < axes.len() && axes[i] == p;
            if i < axes.len() - 1 {
                assert(init[i] == p);
            }
        }
        if init.contains(p) {
            let i = choose|i: int| 0 <= i < init.len() && init[i] == p;
            assert(axes[i] == p);
        }
        if axes.last() == p {
            assert(axes[axes.len() - 1] == p);
        }
    }
}

/// The places below a bound are the places among the axes and the places
/// that are kept.
pub proof fn lemma_distinct_and_kept(axes: Seq<usize>, p: usize)
    ensures
        distinct_below(axes, p as int) + kept_axes(axes, p as nat).len() == p,
    decreases p,
{
    lemma_distinct_below_step(axes, p);
    if p > 0 {
        lemma_distinct_and_kept(axes, (p - 1) as usize);
        lemma_distinct_below_step(axes, (p - 1) as usize);
    }
}

/// The kept places below a bound are the first of the kept places below a
/// higher bound; each of them lies below the bound, is none of the axes, and
/// has as many kept places below it as its number says.
pub proof fn lemma_kept_axes_grow(axes: Seq<usize>, n: nat, m: nat)
    requires
        n <= m <= usize::MAX,
    ensures
        kept_axes(axes, n).len() <= kept_axes(axes, m).len(),
        kept_axes(axes, m).take(kept_axes(axes, n).len() as int) == kept_axes(axes, n),
        forall|j: int|
            0 <= j < kept_axes(axes, m).len() ==> {
                let place = #[trigger] kept_axes(axes, m)[j];
                place < m && !axes.contains(place) && kept_axes(axes, place as nat).len() == j
            },
    decreases m,
{
    if m == 0 {
        assert(kept_axes(axes, m).take(0) =~= kept_axes(axes, n));
    } else {
        let less = (m - 1) as nat;
        let before = kept_axes(axes, less);
        let all = kept_axes(axes, m);
        if n <= less {
            lemma_kept_axes_grow(axes, n, less);
            assert(all.take(kept_axes(axes, n).len() as int) =~= before.take(
                kept_axes(axes, n).len() as int,
            ));
        } else {
            lemma_kept_axes_grow(axes, less, less);
            assert(all.take(all.len() as int) =~= all);
        }
        assert forall|j: int| 0 <= j < all.len() implies {
            let place = #[trigger] all[j];
            place < m && !axes.contains(place) && kept_axes(axes, place as nat).len() == j
        } by {
            if j < before.len() {
                assert(all[j] == before[j]);
            }
        }
    }
}

/// The number of the places below `axis` that are not among `axes`.
pub fn kept_before(axes: &Vec<usize>, axis: usize) -> (r: usize)
    ensures
        r == kept_axes(axes@, axis as nat).len(),
{
    let mut taken: usize = 0;
    let mut i: usize = 0;
    assert(axes@.take(0) =~= Seq::<usize>::empty());
    while i < axes.len()
        invariant
            i <= axes.len(),
            taken <= i,
            taken == distinct_below(axes@.take(i as int), axis as int),
        decreases axes.len() - i,
    {
        proof {
            assert(axes@.take(i + 1).drop_last() =~= axes@.take(i as int));
            assert(axes@.take(i + 1).last() == axes@[i as int]);
        }
        let a = axes[i];
        let mut seen = false;
        let mut j: usize = 0;
        while j < i
            invariant
                j <= i < axes.len(),
                a == axes@[i as int],
                seen <==> exists|t: int| 0 <= t < j && axes@[t] == a,
            decreases i - j,
        {
            if axes[j] == a {
                seen = true;
            }
            j += 1;
        }
        proof {
            let init = axes@.take(i as int);
            if seen {
                let t = choose|t: int| 0 <= t < i && axes@[t] == a;
                assert(init[t] == a);
            }
            if init.contains(a) {
                let t = choose|t: int| 0 <= t < init.len() && init[t] == a;
                assert(axes@[t] == a);
            }
        }
        if a < axis && !seen {
            taken += 1;
        }
        i += 1;
    }
    proof {
        assert(axes@.take(axes@.len() as int) =~= axes@);
        lemma_distinct_and_kept(axes@, axis);
    }
    axis - taken
}

/// The place in the input of the axis of the output at the place `x`;
/// `None` where the places up to it cannot be counted in machine integers.
pub fn find_kept(axes: &Vec<usize>, x: usize) -> (r: Option<usize>)
    ensures
        r is Some <==> x + axes@.len() + 1 <= usize::MAX,
        r matches Some(place) ==> place == in_place(axes@, x as int),
{
    let bound = match x.checked_add(axes.len()) {
        Some(b) => match b.checked_add(1) {
            Some(c) => c,
            None => {
                return None;
            },
        },
        None => {
            return None;
        },
    };
    let mut kept: usize = 0;
    let mut p: usize = 0;
    while p < bound
        invariant
            p <= bound,
            bound == x + axes@.len() + 1,
            kept == kept_axes(axes@, p as nat).len(),
            kept <= x,
        decreases bound - p,
    {
        if !contains_axis(axes, p) {
            if kept == x {
                proof {
                    lemma_kept_axes_grow(axes@, (p + 1) as nat, bound as nat);
                    let found = kept_axes(axes@, (p + 1) as nat);
                    assert(found[x as int] == p);
                    assert(kept_axes(axes@, bound as nat).take(found.len() as int)[x as int]
                        == kept_axes(axes@, bound as nat)[x as int]);
                }
                return Some(p);
            }
            kept += 1;
        }
        p += 1;
    }
    proof {
        lemma_distinct_and_kept(axes@, bound);
        lemma_distinct_below_step(axes@, bound);
    }
    None
}

impl RmDims {
    pub fn new(axes: Vec<usize>) -> (r: RmDims)
        ensures
            r.axes == axes,
    {
        RmDims { axes }
    }

    /// A copy of the operator.
    pub fn dup(&self) -> (r: RmDims)
        ensures
            r.axes@ == self.axes@,
    {
        RmDims { axes: dup_shape(&self.axes) }
    }

    /// The shape of the output for the shape of the input.
    pub fn compute_shape<D: DimLike>(&self, input: &Vec<D>) -> (r: Vec<D>)
        ensures
            r@ == rm_axes(input@, self.axes@),
    {
        let mut shape: Vec<D> = Vec::new();
        let mut ix: usize = 0;
        while ix < input.len()
            invariant
                ix <= input.len(),
                shape@ == rm_axes(input@.take(ix as int), self.axes@),
            decreases input.len() - ix,
        {
            proof {
                assert(input@.take(ix + 1).drop_last() =~= input@.take(ix as int));
            }
            if !contains_axis(&self.axes, ix) {
                shape.push(input[ix].dup());
            }
            ix += 1;
        }
        assert(input@.take(input@.len() as int) =~= input@);
        shape
    }

    /// The same elements under the output shape. `Size` where the output
    /// shape asks for another number of elements than the input holds, which
    /// is so where an axis to take out is longer than one and no axis is
    /// empty.
    pub fn eval_t(&self, input: Tensor) -> (r: Result<Vec<Tensor>, Error>)
        requires
            input.wf(),
        ensures
            r is Ok <==> product(rm_axes(input@.shape, self.axes@)) == product(input@.shape),
            r matches Ok(out) ==> out@.len() == 1 && out@[0].wf() && out@[0]@ == input@.reshaped(
                rm_axes(input@.shape, self.axes@),
            ),
            r matches Err(e) ==> e == Error::Size,
    {
        let shape = self.compute_shape(input.shape());
        match input.into_shape(&shape) {
            Ok(t) => {
                let mut out: Vec<Tensor> = Vec::new();
                out.push(t);
                Ok(out)
            },
            Err(e) => Err(e),
        }
    }

    /// The name of the operator.
    pub fn name(&self) -> (r: String)
        ensures
            r@ == "RmDims"@,
    {
        "RmDims".to_owned()
    }

    /// Applies the operator to its one input. `Arity` unless there is
    /// exactly one input, else as `eval_t`.
    pub fn eval(&self, inputs: Vec<Tensor>) -> (r: Result<Vec<Tensor>, Error>)
        requires
            forall|i: int| 0 <= i < inputs@.len() ==> (#[trigger] inputs@[i]).wf(),
        ensures
            r is Ok <==> inputs@.len() == 1 && product(rm_axes(inputs@[0]@.shape, self.axes@))
                == product(inputs@[0]@.shape),
            r matches Ok(out) ==> out@.len() == 1 && out@[0].wf() && out@[0]@ == inputs@[0]@.reshaped(
                rm_axes(inputs@[0]@.shape, self.axes@),
            ),
            r matches Err(e) ==> e == (if inputs@.len() != 1 {
                Error::Arity
            } else {
                Error::Size
            }),
    {
        let mut inputs = inputs;
        if inputs.len() != 1 {
            return Err(Error::Arity);
        }
        let input = inputs.remove(0);
        self.eval_t(input)
    }

    /// The fact of the output for the fact of the input: the same element
    /// type and the output shape. `Arity` where there is no input.
    pub fn output_facts(&self, inputs: &Vec<&TypedFact>) -> (r: Result<Vec<TypedFact>, Error>)
        ensures
            r is Ok <==> inputs@.len() > 0,
            r matches Ok(facts) ==> facts_view(facts@) == seq![
                TypedFactView::dt_shape(
                    inputs@[0]@.datum_type,
                    rm_axes(inputs@[0]@.shape, self.axes@),
                ),
            ],
            r matches Err(e) ==> e == Error::Arity,
    {
        if inputs.len() < 1 {
            return Err(Error::Arity);
        }
        let input = inputs[0];
        let shape = self.compute_shape(&input.shape);
        let mut facts: Vec<TypedFact> = Vec::new();
        facts.push(TypedFact::dt_shape(input.datum_type, &shape));
        assert(facts_view(facts@) =~= seq![
            TypedFactView::dt_shape(input@.datum_type, rm_axes(input@.shape, self.axes@)),
        ]);
        Ok(facts)
    }

    /// The axes that the operator passes through: each axis of the input
    /// that it does not take out is the next axis of the output. `Arity`
    /// where the node has no input, else `Outlet` where the graph lacks it.
    pub fn invariants(
        &self,
        model: &TypedModel,
        node: &TypedNode,
    ) -> (r: Result<Vec<AxisInfo>, Error>)
        ensures
            r is Ok <==> node@.inputs.len() > 0 && model@.has_outlet(node@.inputs[0]),
            r matches Ok(infos) ==> infos_view(infos@) == passed_on(
                kept_axes(self.axes@, model@.fact(node@.inputs[0]).shape.len()),
            ),
            r matches Err(e) ==> e == (if node@.inputs.len() < 1 {
                Error::Arity
            } else {
                Error::Outlet
            }),
    {
        if node.inputs.len() < 1 {
            return Err(Error::Arity);
        }
        let rank = match model.outlet_fact(node.inputs[0]) {
            Ok(f) => f.shape.len(),
            Err(e) => {
                return Err(e);
            },
        };
        let mut out: usize = 0;
        let mut axes: Vec<AxisInfo> = Vec::new();
        let mut in_: usize = 0;
        while in_ < rank
            invariant
                in_ <= rank,
                out <= in_,
                out == kept_axes(self.axes@, in_ as nat).len(),
                infos_view(axes@) == passed_on(kept_axes(self.axes@, in_ as nat)),
            decreases rank - in_,
        {
            if !contains_axis(&self.axes, in_) {
                let ghost before = infos_view(axes@);
                axes.push(AxisInfo::through(in_, out));
                assert(infos_view(axes@) =~= before.push(AxisInfoView::through(in_, out, 1)));
                assert(infos_view(axes@) =~= passed_on(kept_axes(self.axes@, (in_ + 1) as nat)));
                out += 1;
            }
            in_ += 1;
        }
        Ok(axes)
    }

    /// The wire changes with which the operator answers the removal of
    /// `axis` from the wire `io`: none where the input loses an axis that
    /// the operator takes out; else the output loses the axis that the input
    /// axis went to, which has as many places before it as places before the
    /// input axis are kept; an output that loses an axis makes the input lose
    /// the axis that it came from.
    pub open spec fn wire_changes(
        axes: Seq<usize>,
        io: InOut,
        axis: usize,
    ) -> Seq<(InOut, AxisOp)> {
        match io {
            InOut::In(_) => if axes.contains(axis) {
                Seq::empty()
            } else {
                seq![(InOut::Out(0), AxisOp::Rm(kept_axes(axes, axis as nat).len() as usize))]
            },
            InOut::Out(_) => seq![
                (InOut::In(0), AxisOp::Rm(in_place(axes, axis as int) as usize)),
            ],
        }
    }

    /// The axes of the operator that takes the place of the operator: the
    /// axes without the axis that the input loses, and with the axes behind
    /// it moved down.
    pub open spec fn changed_axes(axes: Seq<usize>, io: InOut, axis: usize) -> Seq<usize> {
        match io {
            InOut::In(_) => rm_axis(axes, axis),
            InOut::Out(_) => rm_axis(axes, in_place(axes, axis as int) as usize),
        }
    }

    /// The places up to the one that the wire changes name can be counted
    /// in machine integers.
    pub open spec fn change_fits(axes: Seq<usize>, io: InOut, axis: usize) -> bool {
        match io {
            InOut::In(_) => true,
            InOut::Out(_) => axis + axes.len() + 1 <= usize::MAX,
        }
    }

    /// Answers the removal of an axis from one of the wires of the
    /// operator: the operator with the axes of `changed_axes` takes its
    /// place, and the other wire changes as `wire_changes` says. `Overflow`
    /// where the places up to the one that the wire changes would name
    /// cannot be counted.
    pub fn change_axes(
        &self,
        _model: &TypedModel,
        _node: &TypedNode,
        io: InOut,
        change: &AxisOp,
    ) -> (r: Result<Option<AxisChangeConsequence>, Error>)
        ensures
            r is Ok <==> RmDims::change_fits(self.axes@, io, change->0),
            r matches Ok(answer) ==> answer matches Some(c) && c@.substitute_op == Some(
                OpView::RmDims(RmDims::changed_axes(self.axes@, io, change->0)),
            ) && c@.wire_changes == RmDims::wire_changes(self.axes@, io, change->0),
            r matches Err(e) ==> e == Error::Overflow,
    {
        match change {
            AxisOp::Rm(axis) => {
                let axis = *axis;
                let mut wire_changes: Vec<(InOut, AxisOp)> = Vec::new();
                let lost = match io {
                    InOut::In(_) => {
                        if !contains_axis(&self.axes, axis) {
                            wire_changes.push(
                                (InOut::Out(0), AxisOp::Rm(kept_before(&self.axes, axis))),
                            );
                        }
                        axis
                    },
                    InOut::Out(_) => {
                        match find_kept(&self.axes, axis) {
                            Some(place) => {
                                wire_changes.push((InOut::In(0), AxisOp::Rm(place)));
                                place
                            },
                            None => {
                                return Err(Error::Overflow);
                            },
                        }
                    },
                };
                let substitute = Op::RmDims(RmDims::new(remove_axis(&self.axes, lost)));
                let c = AxisChangeConsequence { substitute_op: Some(substitute), wire_changes };
                assert(c@.wire_changes =~= RmDims::wire_changes(self.axes@, io, axis));
                Ok(Some(c))
            },
        }
    }

    /// An operator that takes no axis out is elided: the patch replaces the
    /// output of `node` by its input. Any other operator stays. `Arity`
    /// where the node to elide has no input, else `Outlet` where the graph
    /// lacks it.
    pub fn declutter(&self, model: &TypedModel, node: &TypedNode) -> (r: Result<
        Option<TypedModelPatch>,
        Error,
    >)
        ensures
            self.axes@.len() > 0 ==> r matches Ok(None),
            self.axes@.len() == 0 ==> (r is Ok <==> node@.inputs.len() > 0 && model@.has_outlet(
                node@.inputs[0],
            )),
            self.axes@.len() == 0 ==> (r matches Ok(p) ==> p matches Some(patch) && patch.wf()
                && patch@ == PatchView::shunt_one_op(model@, node@)),
            r matches Err(e) ==> e == (if node@.inputs.len() < 1 {
                Error::Arity
            } else {
                Error::Outlet
            }),
    {
        if self.axes.len() == 0 && node.inputs.len() < 1 {
            return Err(Error::Arity);
        }
        if self.axes.len() == 0 {
            return match TypedModelPatch::shunt_one_op(model, node) {
                Ok(p) => Ok(Some(p)),
                Err(e) => Err(e),
            };
        }
        Ok(None)
    }

    /// Where the streaming axis lies behind the operator.
    pub open spec fn pulsed_axis(axes: Seq<usize>, axis: usize) -> int {
        axis - count_below(axes, axis + 1)
    }

    /// The pulsed fact behind the operator.
    pub open spec fn pulsed_fact(axes: Seq<usize>, input: PulsedFactView) -> PulsedFactView {
        PulsedFactView {
            shape: rm_axes(input.shape, axes),
            axis: RmDims::pulsed_axis(axes, input.axis) as usize,
            ..input
        }
    }

    /// The fact of the output of the operator in a streaming graph: the
    /// output shape of one pulse, and the streaming axis moved down by the
    /// number of axes that are taken out at or before it. `Arity` where
    /// there is no input, else `Overflow` where more axes are taken out there
    /// than lie before the streaming axis.
    pub fn pulsed_output_facts(
        &self,
        inputs: &Vec<&PulsedFact>,
    ) -> (r: Result<Vec<PulsedFact>, Error>)
        ensures
            r is Ok <==> inputs@.len() > 0 && RmDims::pulsed_axis(self.axes@, inputs@[0]@.axis)
                >= 0,
            r matches Ok(facts) ==> facts_view(facts@) == seq![
                RmDims::pulsed_fact(self.axes@, inputs@[0]@),
            ],
            r matches Err(e) ==> e == (if inputs@.len() < 1 {
                Error::Arity
            } else {
                Error::Overflow
            }),
    {
        if inputs.len() < 1 {
            return Err(Error::Arity);
        }
        let input = inputs[0];
        let shape = self.compute_shape(&input.shape);
        let moved = count_axes_up_to(&self.axes, input.axis);
        let axis = match input.axis.checked_sub(moved) {
            Some(a) => a,
            None => {
                return Err(Error::Overflow);
            },
        };
        let fact = PulsedFact {
            datum_type: input.datum_type,
            shape,
            axis,
            dim: input.dim,
            delay: input.delay,
        };
        let mut facts: Vec<PulsedFact> = Vec::new();
        facts.push(fact);
        assert(facts_view(facts@) =~= seq![RmDims::pulsed_fact(self.axes@, input@)]);
        Ok(facts)
    }

    /// Puts the operator into the streaming graph `target`, behind the
    /// outlet that stands there for its input. Fails with `Arity` where the
    /// node has no input, else with `Outlet` where the input is not mapped or
    /// `target` has no such outlet, else as `pulsed_output_facts` does; the
    /// target is then left as it was.
    pub fn pulsify(
        &self,
        _source: &TypedModel,
        node: &TypedNode,
        target: &mut PulsedModel,
        mapping: &Vec<(OutletId, OutletId)>,
        _pulse: usize,
    ) -> (r: Result<Vec<OutletId>, Error>)
        requires
            old(target).wf(),
        ensures
            final(target).wf(),
            ({
                let input = mapped(mapping@, node@.inputs[0]).unwrap();
                let fact = old(target)@.fact(input);
                let reachable = node@.inputs.len() > 0 && mapped(mapping@, node@.inputs[0]) is Some
                    && old(target)@.has_outlet(input);
                &&& r is Ok <==> reachable && RmDims::pulsed_axis(self.axes@, fact.axis) >= 0
                &&& r matches Ok(wires) ==> wires@ == outlets_of(
                    old(target)@.nodes.len() as usize,
                    1,
                ) && final(target)@ == old(target)@.with_node(
                    node@.name,
                    OpView::RmDims(self.axes@),
                    seq![input],
                    seq![RmDims::pulsed_fact(self.axes@, fact)],
                )
                &&& r matches Err(e) ==> final(target)@ == old(target)@ && e == (if node@.inputs.len()
                    < 1 {
                    Error::Arity
                } else if !reachable {
                    Error::Outlet
                } else {
                    Error::Overflow
                })
            }),
    {
        if node.inputs.len() < 1 {
            return Err(Error::Arity);
        }
        let input = match lookup(mapping, node.inputs[0]) {
            Some(i) => i,
            None => {
                return Err(Error::Outlet);
            },
        };
        let facts = {
            let fact = match target.outlet_fact(input) {
                Ok(f) => f,
                Err(e) => {
                    return Err(e);
                },
            };
            let mut facts: Vec<&PulsedFact> = Vec::new();
            facts.push(fact);
            match self.pulsed_output_facts(&facts) {
                Ok(f) => f,
                Err(e) => {
                    return Err(e);
                },
            }
        };
        let mut inputs: Vec<OutletId> = Vec::new();
        inputs.push(input);
        assert(inputs@ =~= seq![input]);
        assert(target@.has_outlets(inputs@));
        assert(facts_view(facts@).len() == 1);
        target.wire_node(node.name.clone(), Op::RmDims(self.dup()), &inputs, facts)
    }
}

} // verus!
