use vstd::prelude::*;

verus! {

/// What can go wrong while a graph is analysed, rewritten or planned.
#[derive(Clone, Copy, Debug, PartialEq, Eq, Structural)]
pub enum Error {
    /// Two shapes could not be broadcast against each other.
    Broadcast,
    /// The inner dimensions of a matrix product differ.
    InconsistentMatMul,
    /// Two known element types differ where they must agree.
    TypeMismatch,
    /// Two known ranks differ where they must agree.
    RankMismatch,
    /// Two known dims differ where they must agree.
    DimMismatch,
    /// An operator was given the wrong number of inputs or outputs.
    Arity,
    /// An axis lies outside the shape it is applied to.
    AxisOutOfRange,
    /// No kernel exists for this combination of element types.
    Unsupported,
    /// A dim that depends on the stream was used where an integer is needed.
    Symbolic,
    /// A size computation left the range of the machine integers.
    Overflow,
    /// A buffer does not hold as many elements as its shape asks for.
    Size,
    /// A range of positions does not lie in the axis it is taken from.
    Range,
    /// An attribute of a node has not the form that its operator asks for.
    Attribute,
    /// The graph has no such outlet.
    Outlet,
    /// The streaming axis falls on a dimension that the operator reduces.
    PulseOnReducedAxis,
}

} // verus!
