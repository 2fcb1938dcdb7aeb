use vstd::prelude::*;
use crate::axis::{AxisChangeConsequence, AxisInfo, AxisInfoView, AxisOp, InOut, infos_view};
use crate::dim::{dup_shape, lemma_product_skip, product, DimLike};
use crate::error::Error;
use crate::fact::{PulsedFact, PulsedFactView, TypedFact, TypedFactView};
use crate::model::{facts_view, outlets_of, Model, Op, OpView, OutletId, TypedModel, TypedNode};
use crate::patch::{PatchView, TypedModelPatch};
use crate::pulse::{lookup, mapped, PulsedModel};
use crate::tensor::{Tensor, TensorView};

verus! {

/// The operator that puts axes of length one into a shape: at each of
/// `axes` in turn, counted in the shape as it stands by then.
#[derive(Debug, Clone)]
pub struct AddDims {
    pub axes: Vec<usize>,
}

/// The shape with an axis of length one put in at each of `axes` in turn.
pub open spec fn add_axes<D: DimLike>(shape: Seq<D>, axes: Seq<usize>) -> Seq<D>
    decreases axes.len(),
{
    if axes.len() == 0 {
        shape
    } else {
        add_axes(shape, axes.drop_last()).insert(axes.last() as int, D::unit())
    }
}

/// Each of `axes` is a place in the shape when its turn comes.
pub open spec fn can_add(rank: nat, axes: Seq<usize>) -> bool {
    forall|i: int| 0 <= i < axes.len() ==> #[trigger] axes[i] <= rank + i
}

/// `axes` without `axis`, and with the axes behind `axis` moved down by one.
pub open spec fn rm_axis(axes: Seq<usize>, axis: usize) -> Seq<usize>
    decreases axes.len(),
{
    if axes.len() == 0 {
        axes
    } else {
        let rest = rm_axis(axes.drop_last(), axis);
        let a = axes.last();
        if a == axis {
            rest
        } else if a > axis {
            rest.push((a - 1) as usize)
        } else {
            rest.push(a)
        }
    }
}

/// The number of entries of `axes` below `bound`.
pub open spec fn count_below(axes: Seq<usize>, bound: int) -> nat
    decreases axes.len(),
{
    if axes.len() == 0 {
        0
    } else {
        count_below(axes.drop_last(), bound) + if axes.last() < bound {
            1nat
        } else {
            0nat
        }
    }
}

/// The places below `rank` that are not among `axes`, in rising order.
pub open spec fn kept_axes(axes: Seq<usize>, rank: nat) -> Seq<usize>
    decreases rank,
{
    if rank == 0 {
        Seq::empty()
    } else {
        let rest = kept_axes(axes, (rank - 1) as nat);
        if axes.contains((rank - 1) as usize) {
            rest
        } else {
            rest.push((rank - 1) as usize)
        }
    }
}

/// The length of a shape grows by one with each axis put in.
pub proof fn lemma_add_axes_len<D: DimLike>(shape: Seq<D>, axes: Seq<usize>)
    requires
        can_add(shape.len(), axes),
    ensures
        add_axes(shape, axes).len() == shape.len() + axes.len(),
    decreases axes.len(),
{
    if axes.len() > 0 {
        let init = axes.drop_last();
        assert forall|i: int| 0 <= i < init.len() implies #[trigger] init[i] <= shape.len() + i by {
            assert(init[i] == axes[i]);
        }
        lemma_add_axes_len(shape, init);
        assert(axes.last() == axes[axes.len() - 1]);
    }
}

/// Whether `axis` is among `axes`.
pub fn contains_axis(axes: &Vec<usize>, axis: usize) -> (r: bool)
    ensures
        r == axes@.contains(axis),
{
    let mut i: usize = 0;
    while i < axes.len()
        invariant
            i <= axes.len(),
            forall|j: int| 0 <= j < i ==> axes@[j] != axis,
        decreases axes.len() - i,
    {
        if axes[i] == axis {
            return true;
        }
        i += 1;
    }
    false
}

/// The number of entries of `axes` below `bound`.
pub fn count_axes_below(axes: &Vec<usize>, bound: usize) -> (r: usize)
    ensures
        r == count_below(axes@, bound as int),
        r <= axes@.len(),
{
    let mut count: usize = 0;
    let mut i: usize = 0;
    while i < axes.len()
        invariant
            i <= axes.len(),
            count <= i,
            count == count_below(axes@.take(i as int), bound as int),
        decreases axes.len() - i,
    {
        proof {
            assert(axes@.take(i + 1).drop_last() =~= axes@.take(i as int));
        }
        if axes[i] < bound {
            count += 1;
        }
        i += 1;
    }
    assert(axes@.take(axes@.len() as int) =~= axes@);
    count
}

/// The number of entries of `axes` at or below `bound`.
pub fn count_axes_up_to(axes: &Vec<usize>, bound: usize) -> (r: usize)
    ensures
        r == count_below(axes@, bound + 1),
        r <= axes@.len(),
{
    let mut count: usize = 0;
    let mut i: usize = 0;
    while i < axes.len()
        invariant
            i <= axes.len(),
            count <= i,
            count == count_below(axes@.take(i as int), bound + 1),
        decreases axes.len() - i,
    {
        proof {
            assert(axes@.take(i + 1).drop_last() =~= axes@.take(i as int));
        }
        if axes[i] <= bound {
            count += 1;
        }
        i += 1;
    }
    assert(axes@.take(axes@.len() as int) =~= axes@);
    count
}

/// `axes` without `axis`, and with the axes behind `axis` moved down by one.
pub fn remove_axis(axes: &Vec<usize>, axis: usize) -> (r: Vec<usize>)
    ensures
        r@ == rm_axis(axes@, axis),
{
    let mut out: Vec<usize> = Vec::new();
    let mut i: usize = 0;
    while i < axes.len()
        invariant
            i <= axes.len(),
            out@ == rm_axis(axes@.take(i as int), axis),
        decreases axes.len() - i,
    {
        proof {
            assert(axes@.take(i + 1).drop_last() =~= axes@.take(i as int));
        }
        let a = axes[i];
        if a != axis {
            out.push(if a > axis { a - 1 } else { a });
        }
        i += 1;
    }
    assert(axes@.take(axes@.len() as int) =~= axes@);
    out
}

/// Each entry is above the one before it: the axes are the places that the
/// added axes have in the output.
pub open spec fn ascending(axes: Seq<usize>) -> bool {
    forall|i: int, j: int| 0 <= i < j < axes.len() ==> axes[i] < axes[j]
}

/// Whether each entry is above the one before it.
pub fn is_rising(axes: &Vec<usize>) -> (r: bool)
    ensures
        r == ascending(axes@),
{
    let mut k: usize = 1;
    while k < axes.len()
        invariant
            1 <= k,
            forall|i: int, j: int| 0 <= i < j < k && j < axes@.len() ==> axes@[i] < axes@[j],
        decreases axes.len() - k,
    {
        if axes[k - 1] >= axes[k] {
            return false;
        }
        assert forall|i: int, j: int| 0 <= i < j < k + 1 && j < axes@.len() implies axes@[i]
            < axes@[j] by {
            if j == k && i < k - 1 {
                assert(axes@[i] < axes@[k - 1]);
            }
        }
        k += 1;
    }
    true
}

/// Rising axes lie at or above their numbers, and no more of them lie below
/// a place than the number of the place.
pub proof fn lemma_rising_count(axes: Seq<usize>, bound: int)
    requires
        ascending(axes),
        0 <= bound,
    ensures
        count_below(axes, bound) <= bound,
        count_below(axes, bound) <= axes.len(),
        forall|i: int| 0 <= i < axes.len() ==> #[trigger] axes[i] >= i,
    decreases axes.len(),
{
    if axes.len() > 0 {
        let init = axes.drop_last();
        assert forall|i: int, j: int| 0 <= i < j < init.len() implies init[i] < init[j] by {
            assert(init[i] == axes[i] && init[j] == axes[j]);
        }
        lemma_rising_count(init, bound);
        let n = axes.len() - 1;
        assert forall|i: int| 0 <= i < axes.len() implies #[trigger] axes[i] >= i by {
            if i < n {
                assert(axes[i] == init[i]);
            } else if n > 0 {
                assert(init[n - 1] >= n - 1);
                assert(axes[n - 1] < axes[n]);
            }
        }
        assert(axes.last() == axes[n]);
    }
}

/// The place in the output of the axis of the input at the place `x`:
/// each axis that is put in at or before the place that the axis has by
/// then moves it up by one.
pub open spec fn out_place(axes: Seq<usize>, x: int) -> int
    decreases axes.len(),
{
    if axes.len() == 0 {
        x
    } else {
        let p = out_place(axes.drop_last(), x);
        if axes.last() <= p {
            p + 1
        } else {
            p
        }
    }
}

/// The axes that put the same axes into the input without its axis at the
/// place `x`: an axis that is put in behind the place that the lost axis has
/// by then moves down by one.
pub open spec fn axes_around(axes: Seq<usize>, x: int) -> Seq<usize>
    decreases axes.len(),
{
    if axes.len() == 0 {
        axes
    } else {
        let p = out_place(axes.drop_last(), x);
        let rest = axes_around(axes.drop_last(), x);
        if axes.last() <= p {
            rest.push(axes.last())
        } else {
            rest.push((axes.last() - 1) as usize)
        }
    }
}

/// The place of an axis in the output does not fall as more axes are put
/// in.
pub proof fn lemma_out_place_grows(axes: Seq<usize>, x: int, i: int)
    requires
        0 <= i <= axes.len(),
    ensures
        x <= out_place(axes.take(i), x) <= out_place(axes, x) <= x + axes.len(),
    decreases axes.len() - i,
{
    if i < axes.len() {
        assert(axes.take(i + 1).drop_last() =~= axes.take(i));
        lemma_out_place_grows(axes, x, i + 1);
        lemma_out_place_from(axes.take(i), x);
    } else {
        assert(axes.take(i) =~= axes);
        lemma_out_place_from(axes, x);
    }
}

/// An axis of the input lies in the output at its own place or further on,
/// by no more places than axes are put in.
pub proof fn lemma_out_place_from(axes: Seq<usize>, x: int)
    ensures
        x <= out_place(axes, x) <= x + axes.len(),
    decreases axes.len(),
{
    if axes.len() > 0 {
        lemma_out_place_from(axes.drop_last(), x);
    }
}

/// The place in the output of the axis of the input at the place `x`, and
/// the axes that put the same axes into the input without that axis; `None`
/// where the place is no machine integer.
pub fn follow_input(axes: &Vec<usize>, x: usize) -> (r: Option<(usize, Vec<usize>)>)
    ensures
        r is Some <==> out_place(axes@, x as int) <= usize::MAX,
        r matches Some((place, around)) ==> place == out_place(axes@, x as int) && around@
            == axes_around(axes@, x as int),
{
    let mut place = x;
    let mut around: Vec<usize> = Vec::new();
    let mut i: usize = 0;
    assert(axes@.take(0) =~= Seq::<usize>::empty());
    while i < axes.len()
        invariant
            i <= axes.len(),
            place == out_place(axes@.take(i as int), x as int),
            around@ == axes_around(axes@.take(i as int), x as int),
        decreases axes.len() - i,
    {
        proof {
            assert(axes@.take(i + 1).drop_last() =~= axes@.take(i as int));
            assert(axes@.take(i + 1).last() == axes@[i as int]);
            lemma_out_place_grows(axes@, x as int, i + 1);
        }
        let a = axes[i];
        if a <= place {
            around.push(a);
            if place == usize::MAX {
                return None;
            }
            place += 1;
        } else {
            around.push(a - 1);
        }
        i += 1;
    }
    assert(axes@.take(axes@.len() as int) =~= axes@);
    Some((place, around))
}

impl AddDims {
    pub fn new(axes: Vec<usize>) -> (r: AddDims)
        ensures
            r.axes == axes,
    {
        AddDims { axes }
    }

    /// A copy of the operator.
    pub fn dup(&self) -> (r: AddDims)
        ensures
            r.axes@ == self.axes@,
    {
        AddDims { axes: dup_shape(&self.axes) }
    }

    /// Whether the operator can be applied to a shape of the given rank.
    pub fn admits_rank(&self, rank: usize) -> (r: bool)
        ensures
            r == can_add(rank as nat, self.axes@),
    {
        let mut i: usize = 0;
        while i < self.axes.len()
            invariant
                i <= self.axes.len(),
                forall|j: int| 0 <= j < i ==> #[trigger] self.axes@[j] <= rank + j,
            decreases self.axes.len() - i,
        {
            let a = self.axes[i];
            if a > rank && a - rank > i {
                return false;
            }
            i += 1;
        }
        true
    }

    /// The shape of the output for the shape of the input.
    pub fn compute_shape<D: DimLike>(&self, input: &Vec<D>) -> (r: Vec<D>)
        requires
            can_add(input@.len(), self.axes@),
        ensures
            r@ == add_axes(input@, self.axes@),
    {
        let mut shape = dup_shape(input);
        let mut i: usize = 0;
        while i < self.axes.len()
            invariant
                i <= self.axes.len(),
                can_add(input@.len(), self.axes@),
                shape@ == add_axes(input@, self.axes@.take(i as int)),
                shape@.len() == input@.len() + i,
            decreases self.axes.len() - i,
        {
            proof {
                assert(self.axes@.take(i + 1).drop_last() =~= self.axes@.take(i as int));
            }
            shape.insert(self.axes[i], D::one());
            i += 1;
        }
        assert(self.axes@.take(self.axes@.len() as int) =~= self.axes@);
        shape
    }

    /// The name of the operator.
    pub fn name(&self) -> (r: String)
        ensures
            r@ == "AddDims"@,
    {
        "AddDims".to_owned()
    }

    /// Applies the operator to its one input: the same elements under the
    /// output shape. `Arity` unless there is exactly one input, else
    /// `AxisOutOfRange` where the operator cannot be applied to its rank.
    pub fn eval(&self, inputs: Vec<Tensor>) -> (r: Result<Vec<Tensor>, Error>)
        requires
            forall|i: int| 0 <= i < inputs@.len() ==> (#[trigger] inputs@[i]).wf(),
        ensures
            r matches Ok(out) ==> out@.len() == 1 && out@[0].wf() && out@[0]@ == inputs@[0]@.reshaped(
                add_axes(inputs@[0]@.shape, self.axes@),
            ),
            r is Ok <==> inputs@.len() == 1 && can_add(inputs@[0]@.shape.len(), self.axes@),
            r matches Err(e) ==> e == (if inputs@.len() != 1 {
                Error::Arity
            } else {
                Error::AxisOutOfRange
            }),
    {
        let mut inputs = inputs;
        if inputs.len() != 1 {
            return Err(Error::Arity);
        }
        let input = inputs.remove(0);
        if !self.admits_rank(input.rank()) {
            return Err(Error::AxisOutOfRange);
        }
        let shape = self.compute_shape(input.shape());
        proof {
            lemma_add_axes_product(input@.shape, self.axes@);
        }
        let reshaped = input.into_shape(&shape);
        match reshaped {
            Ok(t) => {
                let mut out: Vec<Tensor> = Vec::new();
                out.push(t);
                Ok(out)
            },
            Err(e) => Err(e),
        }
    }

    /// The fact of the output for the fact of the input: the same element
    /// type and the output shape. `Arity` where there is no input, else
    /// `AxisOutOfRange` where the operator cannot be applied to the rank of
    /// the input.
    pub fn output_facts(&self, inputs: &Vec<&TypedFact>) -> (r: Result<Vec<TypedFact>, Error>)
        ensures
            r is Ok <==> inputs@.len() > 0 && can_add(inputs@[0]@.shape.len(), self.axes@),
            r matches Ok(facts) ==> facts_view(facts@) == seq![
                TypedFactView::dt_shape(
                    inputs@[0]@.datum_type,
                    add_axes(inputs@[0]@.shape, self.axes@),
                ),
            ],
            r matches Err(e) ==> e == (if inputs@.len() < 1 {
                Error::Arity
            } else {
                Error::AxisOutOfRange
            }),
    {
        if inputs.len() < 1 {
            return Err(Error::Arity);
        }
        let input = inputs[0];
        if !self.admits_rank(input.rank()) {
            return Err(Error::AxisOutOfRange);
        }
        let shape = self.compute_shape(&input.shape);
        let mut facts: Vec<TypedFact> = Vec::new();
        facts.push(TypedFact::dt_shape(input.datum_type, &shape));
        assert(facts_view(facts@) =~= seq![
            TypedFactView::dt_shape(input@.datum_type, add_axes(input@.shape, self.axes@)),
        ]);
        Ok(facts)
    }

    /// An operator that adds no axis is elided: the patch replaces the
    /// output of `node` by its input. Any other operator stays. `Arity`
    /// where the node to elide has no input, else `Outlet` where the graph
    /// lacks it.
    pub fn declutter(&self, model: &TypedModel, node: &TypedNode) -> (r: Result<
        Option<TypedModelPatch>,
        Error,
    >)
        ensures
            self.axes@.len() > 0 ==> r matches Ok(None),
            self.axes@.len() == 0 ==> (r is Ok <==> node@.inputs.len() > 0 && model@.has_outlet(
                node@.inputs[0],
            )),
            self.axes@.len() == 0 ==> (r matches Ok(p) ==> p matches Some(patch) && patch.wf()
                && patch@ == PatchView::shunt_one_op(model@, node@)),
            r matches Err(e) ==> e == (if node@.inputs.len() < 1 {
                Error::Arity
            } else {
                Error::Outlet
            }),
    {
        if self.axes.len() == 0 && node.inputs.len() < 1 {
            return Err(Error::Arity);
        }
        if self.axes.len() == 0 {
            match TypedModelPatch::shunt_one_op(model, node) {
                Ok(p) => Ok(Some(p)),
                Err(e) => Err(e),
            }
        } else {
            Ok(None)
        }
    }

    /// The axes that the operator passes through: each axis of the output
    /// that it did not add is the next axis of the input. `Arity` where the
    /// node has no output.
    pub fn invariants(
        &self,
        _model: &TypedModel,
        node: &TypedNode,
    ) -> (r: Result<Vec<AxisInfo>, Error>)
        ensures
            r is Ok <==> node@.outputs.len() > 0,
            r matches Ok(infos) ==> infos_view(infos@) == passed_through(
                kept_axes(self.axes@, node@.outputs[0].shape.len()),
            ),
            r matches Err(e) ==> e == Error::Arity,
    {
        if node.outputs.len() < 1 {
            return Err(Error::Arity);
        }
        let rank = node.outputs[0].shape.len();
        assert(node@.outputs[0].shape.len() == rank);
        let mut i: usize = 0;
        let mut axes: Vec<AxisInfo> = Vec::new();
        let mut out: usize = 0;
        while out < rank
            invariant
                out <= rank,
                i <= out,
                i == kept_axes(self.axes@, out as nat).len(),
                infos_view(axes@) == passed_through(kept_axes(self.axes@, out as nat)),
            decreases rank - out,
        {
            if !contains_axis(&self.axes, out) {
                let ghost before = infos_view(axes@);
                axes.push(AxisInfo::through(i, out));
                assert(infos_view(axes@) =~= before.push(AxisInfoView::through(i, out, 1)));
                assert(infos_view(axes@) =~= passed_through(
                    kept_axes(self.axes@, (out + 1) as nat),
                ));
                i += 1;
            }
            out += 1;
        }
        Ok(axes)
    }

    /// The changes that would make the operator vanish: each axis that it
    /// adds could be removed again.
    pub fn suggested_axis_changes(&self) -> (r: Result<Vec<(InOut, AxisOp)>, Error>)
        ensures
            r matches Ok(changes) && changes@ == Seq::new(
                self.axes@.len(),
                |ix: int| (InOut::Out(ix as usize), AxisOp::Rm(self.axes@[ix])),
            ),
    {
        let mut changes: Vec<(InOut, AxisOp)> = Vec::new();
        let mut ix: usize = 0;
        while ix < self.axes.len()
            invariant
                ix <= self.axes.len(),
                changes@.len() == ix,
                forall|j: int|
                    0 <= j < ix ==> #[trigger] changes@[j] == (
                        InOut::Out(j as usize),
                        AxisOp::Rm(self.axes@[j]),
                    ),
            decreases self.axes.len() - ix,
        {
            changes.push((InOut::Out(ix), AxisOp::Rm(self.axes[ix])));
            ix += 1;
        }
        assert(changes@ =~= Seq::new(
            self.axes@.len(),
            |ix: int| (InOut::Out(ix as usize), AxisOp::Rm(self.axes@[ix])),
        ));
        Ok(changes)
    }

    /// The wire changes with which the operator answers the removal of
    /// `axis` from the wire `io`: none where an output loses an axis that
    /// the operator added; else the input loses the axis that the output
    /// axis came from; an input that loses an axis makes the output lose the
    /// axis at the place that the axis has there.
    pub open spec fn wire_changes(
        axes: Seq<usize>,
        io: InOut,
        axis: usize,
    ) -> Seq<(InOut, AxisOp)> {
        let before = count_below(axes, axis as int);
        match io {
            InOut::Out(_) => if axes.contains(axis) {
                Seq::empty()
            } else {
                seq![(InOut::In(0), AxisOp::Rm((axis - before) as usize))]
            },
            InOut::In(_) => seq![
                (InOut::Out(0), AxisOp::Rm(out_place(axes, axis as int) as usize)),
            ],
        }
    }

    /// The axes of the operator that takes the place of the operator: for
    /// an output that loses an axis, the axes without that axis and with the
    /// axes behind it moved down; for an input that loses an axis, the axes
    /// that put the same axes into the shorter input.
    pub open spec fn changed_axes(axes: Seq<usize>, io: InOut, axis: usize) -> Seq<usize> {
        match io {
            InOut::Out(_) => rm_axis(axes, axis),
            InOut::In(_) => axes_around(axes, axis as int),
        }
    }

    /// The places that the wire changes name are machine integers.
    pub open spec fn change_fits(axes: Seq<usize>, io: InOut, axis: usize) -> bool {
        match io {
            InOut::Out(_) => true,
            InOut::In(_) => out_place(axes, axis as int) <= usize::MAX,
        }
    }

    /// The operator answers the change: an input can always lose an axis;
    /// an output only where the axes rise, so that they are the places of the
    /// added axes in the output.
    pub open spec fn answers(axes: Seq<usize>, io: InOut) -> bool {
        io is In || ascending(axes)
    }

    /// Answers the removal of an axis from one of the wires of the
    /// operator: the operator with the axes of `changed_axes` takes its
    /// place, and the other wire changes as `wire_changes` says. The removal
    /// of an axis from the output is refused where the axes do not rise.
    /// `Overflow` where a place that the wire changes would name is no
    /// machine integer.
    pub fn change_axes(
        &self,
        _model: &TypedModel,
        _node: &TypedNode,
        io: InOut,
        change: &AxisOp,
    ) -> (r: Result<Option<AxisChangeConsequence>, Error>)
        ensures
            r is Ok <==> AddDims::change_fits(self.axes@, io, change->0),
            r matches Ok(answer) ==> (answer is Some <==> AddDims::answers(self.axes@, io)),
            r matches Ok(Some(c)) ==> c@.substitute_op == Some(
                OpView::AddDims(AddDims::changed_axes(self.axes@, io, change->0)),
            ) && c@.wire_changes == AddDims::wire_changes(self.axes@, io, change->0),
            r matches Err(e) ==> e == Error::Overflow,
    {
        match change {
            AxisOp::Rm(axis) => {
                let axis = *axis;
                let mut wire_changes: Vec<(InOut, AxisOp)> = Vec::new();
                let axes = match io {
                    InOut::Out(_) => {
                        if !is_rising(&self.axes) {
                            return Ok(None);
                        }
                        if !contains_axis(&self.axes, axis) {
                            let before = count_axes_below(&self.axes, axis);
                            proof {
                                lemma_rising_count(self.axes@, axis as int);
                            }
                            wire_changes.push((InOut::In(0), AxisOp::Rm(axis - before)));
                        }
                        remove_axis(&self.axes, axis)
                    },
                    InOut::In(_) => {
                        match follow_input(&self.axes, axis) {
                            Some((place, around)) => {
                                wire_changes.push((InOut::Out(0), AxisOp::Rm(place)));
                                around
                            },
                            None => {
                                return Err(Error::Overflow);
                            },
                        }
                    },
                };
                let c = AxisChangeConsequence {
                    substitute_op: Some(Op::AddDims(AddDims::new(axes))),
                    wire_changes,
                };
                assert(c@.wire_changes =~= AddDims::wire_changes(self.axes@, io, axis));
                Ok(Some(c))
            },
        }
    }

    /// The fact of the output of the operator in a streaming graph: the
    /// output shape of one pulse, and the streaming axis moved up by the
    /// number of axes that were added at or before it. `Arity` where there
    /// is no input, else `AxisOutOfRange` where the operator cannot be
    /// applied to the rank of the input, else `Overflow` where the new place
    /// of the streaming axis is no machine integer.
    pub fn pulsed_output_facts(
        &self,
        inputs: &Vec<&PulsedFact>,
    ) -> (r: Result<Vec<PulsedFact>, Error>)
        ensures
            r is Ok <==> inputs@.len() > 0 && can_add(inputs@[0]@.shape.len(), self.axes@)
                && AddDims::pulsed_axis(self.axes@, inputs@[0]@.axis) <= usize::MAX,
            r matches Ok(facts) ==> facts_view(facts@) == seq![
                AddDims::pulsed_fact(self.axes@, inputs@[0]@),
            ],
            r matches Err(e) ==> e == (if inputs@.len() < 1 {
                Error::Arity
            } else if can_add(inputs@[0]@.shape.len(), self.axes@) {
                Error::Overflow
            } else {
                Error::AxisOutOfRange
            }),
    {
        if inputs.len() < 1 {
            return Err(Error::Arity);
        }
        let input = inputs[0];
        if !self.admits_rank(input.shape.len()) {
            return Err(Error::AxisOutOfRange);
        }
        let shape = self.compute_shape(&input.shape);
        let moved = count_axes_up_to(&self.axes, input.axis);
        let axis = match input.axis.checked_add(moved) {
            Some(a) => a,
            None => {
                return Err(Error::Overflow);
            },
        };
        let fact = PulsedFact {
            datum_type: input.datum_type,
            shape,
            axis,
            dim: input.dim,
            delay: input.delay,
        };
        let mut facts: Vec<PulsedFact> = Vec::new();
        facts.push(fact);
        assert(facts_view(facts@) =~= seq![AddDims::pulsed_fact(self.axes@, input@)]);
        Ok(facts)
    }

    /// Where the streaming axis lies behind the operator.
    pub open spec fn pulsed_axis(axes: Seq<usize>, axis: usize) -> int {
        axis + count_below(axes, axis + 1)
    }

    /// The pulsed fact behind the operator.
    pub open spec fn pulsed_fact(axes: Seq<usize>, input: PulsedFactView) -> PulsedFactView {
        PulsedFactView {
            shape: add_axes(input.shape, axes),
            axis: AddDims::pulsed_axis(axes, input.axis) as usize,
            ..input
        }
    }

    /// Puts the operator into the streaming graph `target`, behind the
    /// outlet that stands there for its input. Fails with `Arity` where the
    /// node has no input, else with `Outlet` where the input is not mapped or
    /// `target` has no such outlet, else as `pulsed_output_facts` does; the
    /// target is then left as it was.
    pub fn pulsify(
        &self,
        _source: &TypedModel,
        node: &TypedNode,
        target: &mut PulsedModel,
        mapping: &Vec<(OutletId, OutletId)>,
        _pulse: usize,
    ) -> (r: Result<Vec<OutletId>, Error>)
        requires
            old(target).wf(),
        ensures
            final(target).wf(),
            ({
                let input = mapped(mapping@, node@.inputs[0]).unwrap();
                let fact = old(target)@.fact(input);
                let reachable = node@.inputs.len() > 0 && mapped(mapping@, node@.inputs[0]) is Some
                    && old(target)@.has_outlet(input);
                &&& r is Ok <==> reachable && can_add(fact.shape.len(), self.axes@) && AddDims::pulsed_axis(
                    self.axes@,
                    fact.axis,
                ) <= usize::MAX
                &&& r matches Ok(wires) ==> wires@ == outlets_of(
                    old(target)@.nodes.len() as usize,
                    1,
                ) && final(target)@ == old(target)@.with_node(
                    node@.name,
                    OpView::AddDims(self.axes@),
                    seq![input],
                    seq![AddDims::pulsed_fact(self.axes@, fact)],
                )
                &&& r matches Err(e) ==> final(target)@ == old(target)@ && e == (if node@.inputs.len()
                    < 1 {
                    Error::Arity
                } else if !reachable {
                    Error::Outlet
                } else if can_add(fact.shape.len(), self.axes@) {
                    Error::Overflow
                } else {
                    Error::AxisOutOfRange
                })
            }),
    {
        if node.inputs.len() < 1 {
            return Err(Error::Arity);
        }
        let input = match lookup(mapping, node.inputs[0]) {
            Some(i) => i,
            None => {
                return Err(Error::Outlet);
            },
        };
        let facts = {
            let fact = match target.outlet_fact(input) {
                Ok(f) => f,
                Err(e) => {
                    return Err(e);
                },
            };
            let mut facts: Vec<&PulsedFact> = Vec::new();
            facts.push(fact);
            match self.pulsed_output_facts(&facts) {
                Ok(f) => f,
                Err(e) => {
                    return Err(e);
                },
            }
        };
        let mut inputs: Vec<OutletId> = Vec::new();
        inputs.push(input);
        assert(inputs@ =~= seq![input]);
        assert(target@.has_outlets(inputs@));
        assert(facts_view(facts@).len() == 1);
        target.wire_node(node.name.clone(), Op::AddDims(self.dup()), &inputs, facts)
    }
}

/// The evidence that each of `kept`, in turn, is the next axis of the input.
pub open spec fn passed_through(kept: Seq<usize>) -> Seq<AxisInfoView> {
    Seq::new(kept.len(), |j: int| AxisInfoView::through(j as usize, kept[j], 1))
}

/// An axis of length one put into a shape leaves the product of the shape
/// as it was.
pub proof fn lemma_insert_one_product(shape: Seq<usize>, at: int)
    requires
        0 <= at <= shape.len(),
    ensures
        product(shape.insert(at, 1)) == product(shape),
    decreases at,
{
    let bigger = shape.insert(at, 1);
    assert(bigger.len() == shape.len() + 1);
    if at == 0 {
        assert(bigger[0] == 1);
        assert(bigger.drop_first() =~= shape);
        assert(product(bigger) == 1 * product(shape));
    } else {
        assert(bigger[0] == shape[0]);
        assert(bigger.drop_first() =~= shape.drop_first().insert(at - 1, 1));
        lemma_insert_one_product(shape.drop_first(), at - 1);
    }
}

/// Axes of length one put into a shape leave the product of the shape as
/// it was.
pub proof fn lemma_add_axes_product(shape: Seq<usize>, axes: Seq<usize>)
    requires
        can_add(shape.len(), axes),
    ensures
        product(add_axes(shape, axes)) == product(shape),
    decreases axes.len(),
{
    if axes.len() > 0 {
        let init = axes.drop_last();
        assert forall|i: int| 0 <= i < init.len() implies #[trigger] init[i] <= shape.len() + i by {
            assert(init[i] == axes[i]);
        }
        lemma_add_axes_product(shape, init);
        lemma_add_axes_len(shape, init);
        assert(axes.last() == axes[axes.len() - 1]);
        lemma_insert_one_product(add_axes(shape, init), axes.last() as int);
    }
}

} // verus!
