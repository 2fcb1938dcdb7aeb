use vstd::prelude::*;
use crate::error::Error;
use crate::fact::{TypedFact, TypedFactView};
use crate::model::{
    facts_view, outlets_of, Model, ModelView, NodeView, Op, OpView, OutletId, TypedModel,
    TypedNode,
};
use crate::name::{join_number, numbered};
use crate::tensor::{Tensor, TensorView};

verus! {

/// A staged edit of a graph: a small graph of its own, the outlets of the
/// edited graph that its source nodes stand for, and the outlets of the
/// edited graph that outlets of the small graph are to replace.
#[derive(Debug)]
pub struct TypedModelPatch {
    pub model: TypedModel,
    /// Pairs of an outlet of the patch and the outlet of the graph that it
    /// stands for, in the order in which they were tapped.
    pub incoming: Vec<(OutletId, OutletId)>,
    /// Pairs of an outlet of the graph and the outlet of the patch that
    /// replaces it, in the order in which they were stated.
    pub shunt_outlet_by: Vec<(OutletId, OutletId)>,
}

/// What a patch holds.
pub struct PatchView {
    pub model: ModelView<TypedFactView>,
    pub incoming: Seq<(OutletId, OutletId)>,
    pub shunt_outlet_by: Seq<(OutletId, OutletId)>,
}

impl View for TypedModelPatch {
    type V = PatchView;

    open spec fn view(&self) -> PatchView {
        PatchView {
            model: self.model@,
            incoming: self.incoming@,
            shunt_outlet_by: self.shunt_outlet_by@,
        }
    }
}

impl PatchView {
    /// The patch that changes nothing.
    pub open spec fn empty() -> PatchView {
        PatchView {
            model: ModelView::empty(),
            incoming: Seq::empty(),
            shunt_outlet_by: Seq::empty(),
        }
    }

    /// The first outlet of the node that the patch gets next.
    pub open spec fn next_outlet(self) -> OutletId {
        OutletId { node: self.model.nodes.len() as usize, slot: 0 }
    }

    /// The name of the source node that stands for an outlet of the graph.
    pub open spec fn tap_name(outlet: OutletId) -> Seq<char> {
        numbered(numbered("incoming"@, outlet.node as nat), outlet.slot as nat)
    }

    /// The patch with one more source node, which stands for `outlet`.
    pub open spec fn tapped(self, fact: TypedFactView, outlet: OutletId) -> PatchView {
        PatchView {
            model: self.model.with_source(PatchView::tap_name(outlet), fact),
            incoming: self.incoming.push((self.next_outlet(), outlet)),
            ..self
        }
    }

    /// The patch with source nodes for each of `outlets` in turn.
    pub open spec fn tapped_all(
        self,
        model: ModelView<TypedFactView>,
        outlets: Seq<OutletId>,
    ) -> PatchView
        decreases outlets.len(),
    {
        if outlets.len() == 0 {
            self
        } else {
            self.tapped_all(model, outlets.drop_last()).tapped(
                model.fact(outlets.last()),
                outlets.last(),
            )
        }
    }

    /// The patch with one more node that gives out the constant `t`.
    pub open spec fn with_const(self, name: Seq<char>, t: TensorView) -> PatchView {
        self.wired(name, OpView::Const(t), Seq::empty(), seq![TypedFactView::of_tensor(t)])
    }

    /// The patch with one more node.
    pub open spec fn wired(
        self,
        name: Seq<char>,
        op: OpView,
        inputs: Seq<OutletId>,
        outputs: Seq<TypedFactView>,
    ) -> PatchView {
        PatchView { model: self.model.with_node(name, op, inputs, outputs), ..self }
    }

    /// The patch that also replaces `outlet` of the graph by its own `by`.
    pub open spec fn shunted(self, outlet: OutletId, by: OutletId) -> PatchView {
        PatchView { shunt_outlet_by: self.shunt_outlet_by.push((outlet, by)), ..self }
    }

    /// The patch that also replaces the first `wires.len()` outputs of the
    /// node `node` of the graph by `wires`.
    pub open spec fn shunted_all(self, node: usize, wires: Seq<OutletId>) -> PatchView
        decreases wires.len(),
    {
        if wires.len() == 0 {
            self
        } else {
            self.shunted_all(node, wires.drop_last()).shunted(
                OutletId { node, slot: (wires.len() - 1) as usize },
                wires.last(),
            )
        }
    }

    /// The patch that elides a node: its first output is replaced by its
    /// first input.
    pub open spec fn shunt_one_op(
        model: ModelView<TypedFactView>,
        node: NodeView<TypedFactView>,
    ) -> PatchView {
        PatchView::empty().tapped(model.fact(node.inputs[0]), node.inputs[0]).shunted(
            OutletId { node: node.id, slot: 0 },
            OutletId { node: 0, slot: 0 },
        )
    }

    /// The patch that puts one node with the operator `op` in the place of
    /// `node`: it reads `inputs` and replaces the outputs of `node`.
    pub open spec fn replace_single_op(
        model: ModelView<TypedFactView>,
        node: NodeView<TypedFactView>,
        inputs: Seq<OutletId>,
        op: OpView,
        outputs: Seq<TypedFactView>,
    ) -> PatchView {
        PatchView::empty().tapped_all(model, inputs).wired(
            node.name,
            op,
            outlets_of(0, inputs.len()).map_values(|o: OutletId| OutletId { node: o.slot, slot: 0 }),
            outputs,
        ).shunted_all(node.id, outlets_of(inputs.len() as usize, outputs.len()))
    }
}

impl TypedModelPatch {
    /// The small graph of the patch is acyclic and its outlets exist.
    pub open spec fn wf(&self) -> bool {
        self.model.wf()
    }

    /// The patch that changes nothing.
    pub fn new() -> (r: TypedModelPatch)
        ensures
            r@ == PatchView::empty(),
            r.wf(),
    {
        TypedModelPatch { model: Model::new(), incoming: Vec::new(), shunt_outlet_by: Vec::new() }
    }

    /// Adds a source node that stands for `outlet` of `model`, with the fact
    /// that `model` has for it, and returns the outlet of that node.
    /// `Outlet` where `model` has no such outlet; the patch is then left as
    /// it was.
    pub fn tap_model(
        &mut self,
        model: &TypedModel,
        outlet: OutletId,
    ) -> (r: Result<OutletId, Error>)
        requires
            old(self).wf(),
        ensures
            final(self).wf(),
            r is Ok <==> model@.has_outlet(outlet),
            r matches Ok(tap) ==> tap == old(self)@.next_outlet() && final(self)@ == old(
                self,
            )@.tapped(model@.fact(outlet), outlet),
            r matches Err(e) ==> e == Error::Outlet && final(self)@ == old(self)@,
    {
        let fact = match model.outlet_fact(outlet) {
            Ok(f) => f.dup(),
            Err(e) => {
                return Err(e);
            },
        };
        let name = join_number(join_number("incoming", outlet.node).as_str(), outlet.slot);
        let tap = self.model.add_source(name, fact);
        self.incoming.push((tap, outlet));
        Ok(tap)
    }

    /// Adds a node that gives out the constant `t` and returns its outlet.
    pub fn add_const(&mut self, name: String, t: Tensor) -> (r: OutletId)
        requires
            old(self).wf(),
        ensures
            final(self).wf(),
            final(self)@ == old(self)@.with_const(name@, t@),
            r == old(self)@.next_outlet(),
    {
        self.model.add_const(name, t)
    }

    /// Adds a node behind outlets of the patch and returns its outlets.
    /// `Outlet` where the patch lacks one of the outlets to read; the patch
    /// is then left as it was.
    pub fn wire_node(
        &mut self,
        name: String,
        op: Op,
        inputs: &Vec<OutletId>,
        outputs: Vec<TypedFact>,
    ) -> (r: Result<Vec<OutletId>, Error>)
        requires
            old(self).wf(),
        ensures
            final(self).wf(),
            r is Ok <==> old(self)@.model.has_outlets(inputs@),
            r matches Ok(wires) ==> {
                &&& final(self)@ == old(self)@.wired(name@, op@, inputs@, facts_view(outputs@))
                &&& wires@ == outlets_of(old(self)@.model.nodes.len() as usize, outputs@.len())
            },
            r matches Err(e) ==> e == Error::Outlet && final(self)@ == old(self)@,
    {
        self.model.wire_node(name, op, inputs, outputs)
    }

    /// States that `outlet` of the graph is to be replaced by `by` of the
    /// patch.
    pub fn shunt_outside(&mut self, outlet: OutletId, by: OutletId)
        requires
            old(self).wf(),
        ensures
            final(self).wf(),
            final(self)@ == old(self)@.shunted(outlet, by),
    {
        self.shunt_outlet_by.push((outlet, by));
    }

    /// The patch that elides `node`: its first output is replaced by its
    /// first input. `Outlet` where `model` lacks that input.
    pub fn shunt_one_op(model: &TypedModel, node: &TypedNode) -> (r: Result<TypedModelPatch, Error>)
        requires
            node@.inputs.len() > 0,
        ensures
            r is Ok <==> model@.has_outlet(node@.inputs[0]),
            r matches Ok(p) ==> p.wf() && p@ == PatchView::shunt_one_op(model@, node@),
            r matches Err(e) ==> e == Error::Outlet,
    {
        let mut patch = TypedModelPatch::new();
        let tap = match patch.tap_model(model, node.inputs[0]) {
            Ok(t) => t,
            Err(e) => {
                return Err(e);
            },
        };
        patch.shunt_outside(OutletId::new(node.id, 0), tap);
        Ok(patch)
    }

    /// The patch that puts one node with the operator `op` and the output
    /// facts `outputs` in the place of `node`. `Outlet` where `model` lacks
    /// one of `inputs`.
    pub fn replace_single_op(
        model: &TypedModel,
        node: &TypedNode,
        inputs: &Vec<OutletId>,
        op: Op,
        outputs: Vec<TypedFact>,
    ) -> (r: Result<TypedModelPatch, Error>)
        ensures
            r is Ok <==> model@.has_outlets(inputs@),
            r matches Ok(p) ==> p.wf() && p@ == PatchView::replace_single_op(
                model@,
                node@,
                inputs@,
                op@,
                facts_view(outputs@),
            ),
            r matches Err(e) ==> e == Error::Outlet,
    {
        let mut patch = TypedModelPatch::new();
        let mut taps: Vec<OutletId> = Vec::new();
        let mut i: usize = 0;
        while i < inputs.len()
            invariant
                i <= inputs.len(),
                patch.wf(),
                patch@ == PatchView::empty().tapped_all(model@, inputs@.take(i as int)),
                patch@.model.nodes.len() == i,
                forall|j: int| 0 <= j < i ==> model@.has_outlet(#[trigger] inputs@[j]),
                taps@.len() == i,
                forall|j: int| 0 <= j < i ==> #[trigger] taps@[j] == (OutletId { node: j as usize, slot: 0 }),
                forall|j: int| 0 <= j < i ==> patch@.model.has_outlet(#[trigger] taps@[j]),
            decreases inputs.len() - i,
        {
            let ghost before = patch@;
            let tap = match patch.tap_model(model, inputs[i]) {
                Ok(t) => t,
                Err(e) => {
                    return Err(e);
                },
            };
            taps.push(tap);
            proof {
                assert(inputs@.take(i + 1).drop_last() =~= inputs@.take(i as int));
                assert(inputs@.take(i + 1).last() == inputs@[i as int]);
                assert forall|j: int| 0 <= j < i + 1 implies patch@.model.has_outlet(
                    #[trigger] taps@[j],
                ) by {
                    if j < i {
                        assert(before.model.has_outlet(taps@[j]));
                        assert(patch@.model.nodes[j] == before.model.nodes[j]);
                    }
                }
            }
            i += 1;
        }
        assert(inputs@.take(inputs@.len() as int) =~= inputs@);
        assert(taps@ =~= outlets_of(0, inputs@.len()).map_values(
            |o: OutletId| OutletId { node: o.slot, slot: 0 },
        ));
        let name = node.name.clone();
        let ghost count = outputs@.len();
        let wires = match patch.wire_node(name, op, &taps, outputs) {
            Ok(w) => w,
            Err(e) => {
                return Err(e);
            },
        };
        let ghost wired = patch@;
        let mut ix: usize = 0;
        while ix < wires.len()
            invariant
                ix <= wires.len(),
                patch.wf(),
                patch@ == wired.shunted_all(node.id, wires@.take(ix as int)),
            decreases wires.len() - ix,
        {
            patch.shunt_outside(OutletId::new(node.id, ix), wires[ix]);
            proof {
                assert(wires@.take(ix + 1).drop_last() =~= wires@.take(ix as int));
            }
            ix += 1;
        }
        assert(wires@.take(wires@.len() as int) =~= wires@);
        Ok(patch)
    }
}

} // verus!
