use vstd::prelude::*;

verus! {

/// The element types that a tensor can hold.
#[derive(Clone, Copy, Debug, PartialEq, Eq, Structural)]
pub enum DatumType {
    Bool,
    I8,
    U8,
    I16,
    U16,
    I32,
    I64,
    F16,
    F32,
    F64,
}

impl DatumType {
    /// The number of bytes that one element takes.
    pub open spec fn width(self) -> nat {
        match self {
            DatumType::Bool | DatumType::I8 | DatumType::U8 => 1,
            DatumType::I16 | DatumType::U16 | DatumType::F16 => 2,
            DatumType::I32 | DatumType::F32 => 4,
            DatumType::I64 | DatumType::F64 => 8,
        }
    }

    /// The number of bytes that one element takes.
    pub fn size_of(&self) -> (w: usize)
        ensures
            w == self.width(),
            1 <= w <= 8,
    {
        match self {
            DatumType::Bool | DatumType::I8 | DatumType::U8 => 1,
            DatumType::I16 | DatumType::U16 | DatumType::F16 => 2,
            DatumType::I32 | DatumType::F32 => 4,
            DatumType::I64 | DatumType::F64 => 8,
        }
    }
}

} // verus!
