use vstd::prelude::*;
use crate::add_dims::AddDims;
use crate::concat::{NormConcat, NormConcatView};
use crate::dim::dup_shape;
use crate::error::Error;
use crate::fact::{TypedFact, TypedFactView};
use crate::matmul::{MatMul, MatMulUnary, MatMulUnaryView};
use crate::phy::{
    MatMatMulPackB, MatMatMulPackBView, MatMatMulUnaryFinite, MatMatMulUnaryFiniteView,
};
use crate::rm_dims::RmDims;
use crate::tensor::{Tensor, TensorView};

verus! {

/// An output of a node: the node's id and the slot among its outputs.
#[derive(Clone, Copy, Debug, PartialEq, Eq, Structural)]
pub struct OutletId {
    pub node: usize,
    pub slot: usize,
}

impl OutletId {
    pub fn new(node: usize, slot: usize) -> (r: OutletId)
        ensures
            r == (OutletId { node, slot }),
    {
        OutletId { node, slot }
    }
}

/// The operators that a graph can hold.
#[derive(Debug)]
pub enum Op {
    /// A declared input of the graph.
    Source,
    /// A constant.
    Const(Tensor),
    /// The element-wise sum of two wires, with broadcasting.
    Add,
    AddDims(AddDims),
    RmDims(RmDims),
    MatMul(MatMul),
    MatMulUnary(MatMulUnary),
    NormConcat(NormConcat),
    MatMatMulPackB(MatMatMulPackB),
    MatMatMulUnaryFinite(MatMatMulUnaryFinite),
}

/// What an operator holds.
pub enum OpView {
    Source,
    Const(TensorView),
    Add,
    AddDims(Seq<usize>),
    RmDims(Seq<usize>),
    MatMul(MatMul),
    MatMulUnary(MatMulUnaryView),
    NormConcat(NormConcatView),
    MatMatMulPackB(MatMatMulPackBView),
    MatMatMulUnaryFinite(MatMatMulUnaryFiniteView),
}

impl View for Op {
    type V = OpView;

    open spec fn view(&self) -> OpView {
        match self {
            Op::Source => OpView::Source,
            Op::Const(t) => OpView::Const(t@),
            Op::Add => OpView::Add,
            Op::AddDims(op) => OpView::AddDims(op.axes@),
            Op::RmDims(op) => OpView::RmDims(op.axes@),
            Op::MatMul(op) => OpView::MatMul(*op),
            Op::MatMulUnary(op) => OpView::MatMulUnary(op@),
            Op::NormConcat(op) => OpView::NormConcat(op@),
            Op::MatMatMulPackB(op) => OpView::MatMatMulPackB(op@),
            Op::MatMatMulUnaryFinite(op) => OpView::MatMatMulUnaryFinite(op@),
        }
    }
}

impl Op {
    /// A copy of the operator.
    pub fn dup(&self) -> (r: Op)
        ensures
            r@ == self@,
    {
        match self {
            Op::Source => Op::Source,
            Op::Const(t) => Op::Const(t.dup()),
            Op::Add => Op::Add,
            Op::AddDims(op) => Op::AddDims(AddDims { axes: dup_shape(&op.axes) }),
            Op::RmDims(op) => Op::RmDims(RmDims { axes: dup_shape(&op.axes) }),
            Op::MatMul(op) => Op::MatMul(*op),
            Op::MatMulUnary(op) => Op::MatMulUnary(op.dup()),
            Op::NormConcat(op) => Op::NormConcat(op.dup()),
            Op::MatMatMulPackB(op) => Op::MatMatMulPackB(op.dup()),
            Op::MatMatMulUnaryFinite(op) => Op::MatMatMulUnaryFinite(op.dup()),
        }
    }
}

/// A node of a graph: its id, its name, its operator, the outlets that it
/// reads, and the facts of its outputs.
#[derive(Debug)]
pub struct Node<F> {
    pub id: usize,
    pub name: String,
    pub op: Op,
    pub inputs: Vec<OutletId>,
    pub outputs: Vec<F>,
}

/// What a node holds.
pub struct NodeView<FV> {
    pub id: usize,
    pub name: Seq<char>,
    pub op: OpView,
    pub inputs: Seq<OutletId>,
    pub outputs: Seq<FV>,
}

/// What a list of facts holds.
pub open spec fn facts_view<F: View>(facts: Seq<F>) -> Seq<F::V> {
    Seq::new(facts.len(), |i: int| facts[i]@)
}

impl<F: View> View for Node<F> {
    type V = NodeView<F::V>;

    open spec fn view(&self) -> NodeView<F::V> {
        NodeView {
            id: self.id,
            name: self.name@,
            op: self.op@,
            inputs: self.inputs@,
            outputs: facts_view(self.outputs@),
        }
    }
}

/// A graph: its nodes in the order of their ids, and the outlets that are
/// declared as its inputs and as its outputs.
#[derive(Debug)]
pub struct Model<F> {
    pub nodes: Vec<Node<F>>,
    pub inputs: Vec<OutletId>,
    pub outputs: Vec<OutletId>,
}

/// What a graph holds.
pub struct ModelView<FV> {
    pub nodes: Seq<NodeView<FV>>,
    pub inputs: Seq<OutletId>,
    pub outputs: Seq<OutletId>,
}

/// What a list of nodes holds.
pub open spec fn nodes_view<F: View>(nodes: Seq<Node<F>>) -> Seq<NodeView<F::V>> {
    Seq::new(nodes.len(), |i: int| nodes[i]@)
}

impl<F: View> View for Model<F> {
    type V = ModelView<F::V>;

    open spec fn view(&self) -> ModelView<F::V> {
        ModelView { nodes: nodes_view(self.nodes@), inputs: self.inputs@, outputs: self.outputs@ }
    }
}

/// The outlets of a node with the given id and number of outputs.
pub open spec fn outlets_of(node: usize, outputs: nat) -> Seq<OutletId> {
    Seq::new(outputs, |i: int| OutletId { node, slot: i as usize })
}

impl<FV> ModelView<FV> {
    /// The graph without nodes.
    pub open spec fn empty() -> ModelView<FV> {
        ModelView { nodes: Seq::empty(), inputs: Seq::empty(), outputs: Seq::empty() }
    }

    /// The outlet is an output of a node of the graph.
    pub open spec fn has_outlet(self, outlet: OutletId) -> bool {
        outlet.node < self.nodes.len() && outlet.slot < self.nodes[outlet.node as int].outputs.len()
    }

    /// Every one of the outlets is an output of a node of the graph.
    pub open spec fn has_outlets(self, outlets: Seq<OutletId>) -> bool {
        forall|i: int| 0 <= i < outlets.len() ==> self.has_outlet(#[trigger] outlets[i])
    }

    /// The fact of an outlet of the graph.
    pub open spec fn fact(self, outlet: OutletId) -> FV {
        self.nodes[outlet.node as int].outputs[outlet.slot as int]
    }

    /// Each node has its index as its id and reads outlets of earlier nodes
    /// only, so that the graph has no cycle; the declared inputs and outputs
    /// are outlets of the graph.
    pub open spec fn wf(self) -> bool {
        &&& forall|i: int| 0 <= i < self.nodes.len() ==> (#[trigger] self.nodes[i]).id == i
        &&& forall|i: int, j: int|
            0 <= i < self.nodes.len() && 0 <= j < self.nodes[i].inputs.len() ==> {
                let o = #[trigger] self.nodes[i].inputs[j];
                o.node < i && self.has_outlet(o)
            }
        &&& self.has_outlets(self.inputs)
        &&& self.has_outlets(self.outputs)
    }

    /// The graph with one more node, which gets the next id.
    pub open spec fn with_node(
        self,
        name: Seq<char>,
        op: OpView,
        inputs: Seq<OutletId>,
        outputs: Seq<FV>,
    ) -> ModelView<FV> {
        ModelView {
            nodes: self.nodes.push(
                NodeView { id: self.nodes.len() as usize, name, op, inputs, outputs },
            ),
            ..self
        }
    }

    /// The graph with one more source node, declared as an input.
    pub open spec fn with_source(self, name: Seq<char>, fact: FV) -> ModelView<FV> {
        let added = self.with_node(name, OpView::Source, Seq::empty(), seq![fact]);
        ModelView {
            inputs: self.inputs.push(OutletId { node: self.nodes.len() as usize, slot: 0 }),
            ..added
        }
    }
}

/// A copy of a list of outlets.
pub fn dup_outlets(outlets: &Vec<OutletId>) -> (r: Vec<OutletId>)
    ensures
        r@ == outlets@,
{
    let mut r: Vec<OutletId> = Vec::new();
    let mut i: usize = 0;
    while i < outlets.len()
        invariant
            i <= outlets.len(),
            r@ == outlets@.take(i as int),
        decreases outlets.len() - i,
    {
        r.push(outlets[i]);
        i += 1;
    }
    assert(outlets@.take(outlets@.len() as int) == outlets@);
    r
}

impl<F: View> Model<F> {
    /// The graph is acyclic and its outlets exist.
    pub open spec fn wf(&self) -> bool {
        self@.wf()
    }

    /// The graph without nodes.
    pub fn new() -> (r: Model<F>)
        ensures
            r@ == ModelView::<F::V>::empty(),
            r.wf(),
    {
        let r = Model { nodes: Vec::new(), inputs: Vec::new(), outputs: Vec::new() };
        assert(r@.nodes =~= Seq::empty());
        r
    }

    /// Whether the outlet is an output of a node of the graph.
    pub fn has_outlet(&self, outlet: OutletId) -> (r: bool)
        ensures
            r == self@.has_outlet(outlet),
    {
        if outlet.node < self.nodes.len() {
            assert(self@.nodes[outlet.node as int] == self.nodes@[outlet.node as int]@);
            outlet.slot < self.nodes[outlet.node].outputs.len()
        } else {
            false
        }
    }

    /// Whether every one of the outlets is an output of a node of the graph.
    pub fn has_outlets(&self, outlets: &Vec<OutletId>) -> (r: bool)
        ensures
            r == self@.has_outlets(outlets@),
    {
        let mut i: usize = 0;
        while i < outlets.len()
            invariant
                i <= outlets.len(),
                forall|j: int| 0 <= j < i ==> self@.has_outlet(#[trigger] outlets@[j]),
            decreases outlets.len() - i,
        {
            if !self.has_outlet(outlets[i]) {
                return false;
            }
            i += 1;
        }
        true
    }

    /// The fact of an outlet; `Outlet` where the graph has no such outlet.
    pub fn outlet_fact(&self, outlet: OutletId) -> (r: Result<&F, Error>)
        ensures
            r is Ok <==> self@.has_outlet(outlet),
            r matches Ok(f) ==> f@ == self@.fact(outlet),
            r matches Err(e) ==> e == Error::Outlet,
    {
        if self.has_outlet(outlet) {
            assert(self@.nodes[outlet.node as int] == self.nodes@[outlet.node as int]@);
            Ok(&self.nodes[outlet.node].outputs[outlet.slot])
        } else {
            Err(Error::Outlet)
        }
    }

    /// The node with the given id.
    pub fn node(&self, id: usize) -> (r: &Node<F>)
        requires
            id < self@.nodes.len(),
        ensures
            r@ == self@.nodes[id as int],
            *r == self.nodes@[id as int],
    {
        &self.nodes[id]
    }

    /// The operator of the node with the given id.
    pub fn node_op(&self, id: usize) -> (r: &Op)
        requires
            id < self@.nodes.len(),
        ensures
            r@ == self@.nodes[id as int].op,
            *r == self.nodes@[id as int].op,
    {
        &self.nodes[id].op
    }

    /// Puts a node behind the given outlets and returns its own outlets.
    /// `Outlet` where the graph lacks one of the outlets to read; the graph
    /// is then left as it was.
    pub fn wire_node(
        &mut self,
        name: String,
        op: Op,
        inputs: &Vec<OutletId>,
        outputs: Vec<F>,
    ) -> (r:
        Result<Vec<OutletId>, Error>)
        requires
            old(self).wf(),
        ensures
            final(self).wf(),
            r is Ok <==> old(self)@.has_outlets(inputs@),
            r matches Ok(wires) ==> {
                &&& final(self)@ == old(self)@.with_node(
                    name@,
                    op@,
                    inputs@,
                    facts_view(outputs@),
                )
                &&& wires@ == outlets_of(old(self)@.nodes.len() as usize, outputs@.len())
            },
            r matches Err(e) ==> e == Error::Outlet && final(self)@ == old(self)@,
    {
        if !self.has_outlets(inputs) {
            return Err(Error::Outlet);
        }
        let id = self.nodes.len();
        let ghost before = self@;
        let ghost old_nodes = self.nodes@;
        let mut wires: Vec<OutletId> = Vec::new();
        let mut i: usize = 0;
        while i < outputs.len()
            invariant
                i <= outputs.len(),
                wires@.len() == i,
                forall|j: int| 0 <= j < i ==> #[trigger] wires@[j] == (OutletId { node: id, slot: j as usize }),
            decreases outputs.len() - i,
        {
            wires.push(OutletId { node: id, slot: i });
            i += 1;
        }
        assert(wires@ =~= outlets_of(id, outputs@.len()));
        let node = Node { id, name, op, inputs: dup_outlets(inputs), outputs };
        let ghost added = node@;
        self.nodes.push(node);
        proof {
            assert(self.nodes@ == old_nodes.push(node));
            assert(self@.nodes =~= before.nodes.push(added));
            assert(self@ == before.with_node(name@, op@, inputs@, facts_view(outputs@)));
            assert forall|a: int, b: int|
                0 <= a < self@.nodes.len() && 0 <= b < self@.nodes[a].inputs.len() implies {
                let o = #[trigger] self@.nodes[a].inputs[b];
                o.node < a && self@.has_outlet(o)
            } by {
                let o = self@.nodes[a].inputs[b];
                if a < id {
                    assert(self@.nodes[a] == before.nodes[a]);
                    assert(before.has_outlet(o));
                    assert(self@.nodes[o.node as int] == before.nodes[o.node as int]);
                } else {
                    assert(before.has_outlet(inputs@[b]));
                    assert(self@.nodes[o.node as int] == before.nodes[o.node as int]);
                }
            }
            assert forall|a: int| 0 <= a < self@.inputs.len() implies self@.has_outlet(
                #[trigger] self@.inputs[a],
            ) by {
                let o = self@.inputs[a];
                assert(before.has_outlet(o));
                assert(self@.nodes[o.node as int] == before.nodes[o.node as int]);
            }
            assert forall|a: int| 0 <= a < self@.outputs.len() implies self@.has_outlet(
                #[trigger] self@.outputs[a],
            ) by {
                let o = self@.outputs[a];
                assert(before.has_outlet(o));
                assert(self@.nodes[o.node as int] == before.nodes[o.node as int]);
            }
        }
        Ok(wires)
    }

    /// Declares the outlets that are the outputs of the graph. `Outlet`
    /// where the graph lacks one of them; the graph is then left as it was.
    pub fn set_output_outlets(&mut self, outlets: &Vec<OutletId>) -> (r: Result<(), Error>)
        requires
            old(self).wf(),
        ensures
            final(self).wf(),
            r is Ok <==> old(self)@.has_outlets(outlets@),
            r is Ok ==> final(self)@ == (ModelView { outputs: outlets@, ..old(self)@ }),
            r matches Err(e) ==> e == Error::Outlet && final(self)@ == old(self)@,
    {
        if !self.has_outlets(outlets) {
            return Err(Error::Outlet);
        }
        self.outputs = dup_outlets(outlets);
        Ok(())
    }

    /// Adds a source node with the given fact and declares its outlet as an
    /// input of the graph.
    pub fn add_source(&mut self, name: String, fact: F) -> (r: OutletId)
        requires
            old(self).wf(),
        ensures
            final(self).wf(),
            final(self)@ == old(self)@.with_source(name@, fact@),
            r == (OutletId { node: old(self)@.nodes.len() as usize, slot: 0 }),
    {
        let ghost before = self@;
        let mut outputs: Vec<F> = Vec::new();
        outputs.push(fact);
        assert(facts_view(outputs@) =~= seq![fact@]);
        let inputs: Vec<OutletId> = Vec::new();
        assert(before.has_outlets(inputs@));
        let id = self.nodes.len();
        let wired = self.wire_node(name, Op::Source, &inputs, outputs);
        let outlet = OutletId { node: id, slot: 0 };
        let ghost mid = self@;
        self.inputs.push(outlet);
        proof {
            assert(inputs@ =~= Seq::empty());
            assert(self@.nodes == mid.nodes);
            assert(self@.has_outlet(outlet));
            assert forall|a: int| 0 <= a < self@.inputs.len() implies self@.has_outlet(
                #[trigger] self@.inputs[a],
            ) by {
                if a < mid.inputs.len() {
                    assert(mid.has_outlet(mid.inputs[a]));
                }
            }
            assert forall|a: int| 0 <= a < self@.outputs.len() implies self@.has_outlet(
                #[trigger] self@.outputs[a],
            ) by {
                assert(mid.has_outlet(mid.outputs[a]));
            }
        }
        outlet
    }
}

impl Model<TypedFact> {
    /// Adds a node that gives out the constant `t`.
    pub fn add_const(&mut self, name: String, t: Tensor) -> (r: OutletId)
        requires
            old(self).wf(),
        ensures
            final(self).wf(),
            final(self)@ == old(self)@.with_node(
                name@,
                OpView::Const(t@),
                Seq::empty(),
                seq![TypedFactView::of_tensor(t@)],
            ),
            r == (OutletId { node: old(self)@.nodes.len() as usize, slot: 0 }),
    {
        let ghost before = self@;
        let mut outputs: Vec<TypedFact> = Vec::new();
        outputs.push(TypedFact::of_tensor(&t));
        assert(facts_view(outputs@) =~= seq![TypedFactView::of_tensor(t@)]);
        let inputs: Vec<OutletId> = Vec::new();
        assert(before.has_outlets(inputs@));
        assert(inputs@ =~= Seq::empty());
        let id = self.nodes.len();
        let wired = self.wire_node(name, Op::Const(t), &inputs, outputs);
        OutletId { node: id, slot: 0 }
    }
}

/// A graph whose wires carry typed facts.
pub type TypedModel = Model<TypedFact>;

/// A node of a graph whose wires carry typed facts.
pub type TypedNode = Node<TypedFact>;

} // verus!
