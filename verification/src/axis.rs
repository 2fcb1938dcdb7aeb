use vstd::prelude::*;
use crate::model::{Op, OpView};

verus! {

/// A wire of a node: one of its inputs or one of its outputs.
#[derive(Clone, Copy, Debug, PartialEq, Eq, Structural)]
pub enum InOut {
    In(usize),
    Out(usize),
}

/// An edit of the axes of a wire.
#[derive(Clone, Copy, Debug, PartialEq, Eq, Structural)]
pub enum AxisOp {
    /// Removes the axis, which has length one.
    Rm(usize),
}

/// Evidence that an operator passes an axis through untouched: the axis of
/// each input and of each output that it is, the period in which its
/// positions group, and whether it may be removed where its length is one.
#[derive(Debug)]
pub struct AxisInfo {
    pub inputs: Vec<Option<usize>>,
    pub outputs: Vec<Option<usize>>,
    pub period: usize,
    pub disposable: bool,
}

/// What an axis info holds.
pub struct AxisInfoView {
    pub inputs: Seq<Option<usize>>,
    pub outputs: Seq<Option<usize>>,
    pub period: usize,
    pub disposable: bool,
}

impl View for AxisInfo {
    type V = AxisInfoView;

    open spec fn view(&self) -> AxisInfoView {
        AxisInfoView {
            inputs: self.inputs@,
            outputs: self.outputs@,
            period: self.period,
            disposable: self.disposable,
        }
    }
}

impl AxisInfoView {
    /// An axis that one input and one output share.
    pub open spec fn through(input: usize, output: usize, period: usize) -> AxisInfoView {
        AxisInfoView {
            inputs: seq![Some(input)],
            outputs: seq![Some(output)],
            period,
            disposable: true,
        }
    }
}

impl AxisInfo {
    /// The axis `axis` of the one input is the axis `axis` of the one output.
    pub fn simple(axis: usize) -> (r: AxisInfo)
        ensures
            r@ == AxisInfoView::through(axis, axis, 1),
    {
        AxisInfo::through(axis, axis)
    }

    /// The axis `input` of the one input is the axis `output` of the one
    /// output.
    pub fn through(input: usize, output: usize) -> (r: AxisInfo)
        ensures
            r@ == AxisInfoView::through(input, output, 1),
    {
        let mut inputs: Vec<Option<usize>> = Vec::new();
        inputs.push(Some(input));
        let mut outputs: Vec<Option<usize>> = Vec::new();
        outputs.push(Some(output));
        let r = AxisInfo { inputs, outputs, period: 1, disposable: true };
        assert(r@.inputs =~= seq![Some(input)]);
        assert(r@.outputs =~= seq![Some(output)]);
        r
    }

    /// The same evidence with another period.
    pub fn with_period(self, period: usize) -> (r: AxisInfo)
        ensures
            r@ == (AxisInfoView { period, ..self@ }),
    {
        AxisInfo { period, ..self }
    }
}

/// What a list of axis infos holds.
pub open spec fn infos_view(infos: Seq<AxisInfo>) -> Seq<AxisInfoView> {
    Seq::new(infos.len(), |i: int| infos[i]@)
}

/// How an operator answers a change of the axes of one of its wires: the
/// operator to put in its place, if it has to change, and the changes that
/// its other wires must undergo.
#[derive(Debug)]
pub struct AxisChangeConsequence {
    pub substitute_op: Option<Op>,
    pub wire_changes: Vec<(InOut, AxisOp)>,
}

/// What an answer to an axis change holds.
pub struct AxisChangeConsequenceView {
    pub substitute_op: Option<OpView>,
    pub wire_changes: Seq<(InOut, AxisOp)>,
}

impl View for AxisChangeConsequence {
    type V = AxisChangeConsequenceView;

    open spec fn view(&self) -> AxisChangeConsequenceView {
        AxisChangeConsequenceView {
            substitute_op: match self.substitute_op {
                Some(op) => Some(op@),
                None => None,
            },
            wire_changes: self.wire_changes@,
        }
    }
}

/// The same change on every output, then on every input.
pub open spec fn same_change_everywhere(outputs: nat, inputs: nat, change: AxisOp) -> Seq<
    (InOut, AxisOp),
> {
    Seq::new(
        outputs + inputs,
        |i: int|
            if i < outputs {
                (InOut::Out(i as usize), change)
            } else {
                (InOut::In((i - outputs) as usize), change)
            },
    )
}

impl AxisChangeConsequence {
    /// The answer of an operator that hands the change on to every one of
    /// its wires: each output, then each input, undergoes `change`.
    pub fn new(outputs: usize, inputs: usize, op: Option<Op>, change: &AxisOp) -> (r:
        AxisChangeConsequence)
        ensures
            r.substitute_op == op,
            r@.wire_changes == same_change_everywhere(outputs as nat, inputs as nat, *change),
    {
        let mut wire_changes: Vec<(InOut, AxisOp)> = Vec::new();
        let mut i: usize = 0;
        while i < outputs
            invariant
                i <= outputs,
                wire_changes@.len() == i,
                forall|j: int| 0 <= j < i ==> #[trigger] wire_changes@[j] == (InOut::Out(j as usize), *change),
            decreases outputs - i,
        {
            wire_changes.push((InOut::Out(i), *change));
            i += 1;
        }
        let mut k: usize = 0;
        while k < inputs
            invariant
                k <= inputs,
                wire_changes@.len() == outputs + k,
                forall|j: int|
                    0 <= j < outputs ==> #[trigger] wire_changes@[j] == (InOut::Out(j as usize), *change),
                forall|j: int|
                    outputs <= j < outputs + k ==> #[trigger] wire_changes@[j] == (
                        InOut::In((j - outputs) as usize),
                        *change,
                    ),
            decreases inputs - k,
        {
            wire_changes.push((InOut::In(k), *change));
            k += 1;
        }
        assert(wire_changes@ =~= same_change_everywhere(outputs as nat, inputs as nat, *change));
        AxisChangeConsequence { substitute_op: op, wire_changes }
    }
}

} // verus!
