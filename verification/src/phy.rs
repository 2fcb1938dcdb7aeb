use vstd::prelude::*;
use crate::datum::DatumType;
use crate::dim::dup_shape;
use crate::error::Error;
use crate::fact::{TypedFact, TypedFactView};
use crate::matmul::QParams;
use crate::tensor::{Tensor, TensorView};

verus! {

/// The kernels that the dispatch table offers.
#[derive(Clone, Copy, Debug, PartialEq, Eq, Structural)]
pub enum KernelKind {
    /// Single-precision floats.
    Smmm,
    /// Signed bytes in, 32-bit integers out.
    QmmmI8I32,
    /// Signed bytes in, signed bytes out.
    QmmmI8I8,
    /// Unsigned bytes in, 32-bit integers out.
    QmmmU8I32,
    /// Unsigned bytes in, unsigned bytes out.
    QmmmU8U8,
}

impl KernelKind {
    /// The element type of the left operand.
    pub open spec fn a_type(self) -> DatumType {
        match self {
            KernelKind::Smmm => DatumType::F32,
            KernelKind::QmmmI8I32 | KernelKind::QmmmI8I8 => DatumType::I8,
            KernelKind::QmmmU8I32 | KernelKind::QmmmU8U8 => DatumType::U8,
        }
    }

    /// The element type of the right operand.
    pub open spec fn b_type(self) -> DatumType {
        self.a_type()
    }

    /// The element type of the result.
    pub open spec fn c_type(self) -> DatumType {
        match self {
            KernelKind::Smmm => DatumType::F32,
            KernelKind::QmmmI8I32 | KernelKind::QmmmU8I32 => DatumType::I32,
            KernelKind::QmmmI8I8 => DatumType::I8,
            KernelKind::QmmmU8U8 => DatumType::U8,
        }
    }

    /// The element type of the operands.
    pub fn operand_datum_type(&self) -> (r: DatumType)
        ensures
            r == self.a_type(),
            r == self.b_type(),
    {
        match self {
            KernelKind::Smmm => DatumType::F32,
            KernelKind::QmmmI8I32 | KernelKind::QmmmI8I8 => DatumType::I8,
            KernelKind::QmmmU8I32 | KernelKind::QmmmU8U8 => DatumType::U8,
        }
    }

    /// The element type of the result.
    pub fn result_datum_type(&self) -> (r: DatumType)
        ensures
            r == self.c_type(),
    {
        match self {
            KernelKind::Smmm => DatumType::F32,
            KernelKind::QmmmI8I32 | KernelKind::QmmmU8I32 => DatumType::I32,
            KernelKind::QmmmI8I8 => DatumType::I8,
            KernelKind::QmmmU8U8 => DatumType::U8,
        }
    }
}

/// The kernel that evaluates a product of operands of the given types.
/// Without quantization only floats are multiplied. With it, signed bytes
/// and unsigned bytes go to the kernel with the result type that the
/// quantization names: 32-bit integers, or bytes of the kind of the
/// operands.
pub open spec fn eval_kernel_of(a: DatumType, b: DatumType, q_params: Option<QParams>) -> Option<
    KernelKind,
> {
    match q_params {
        Some(q) => if a == DatumType::I8 && b == DatumType::I8 && q.c_datum_type == DatumType::I32 {
            Some(KernelKind::QmmmI8I32)
        } else if a == DatumType::I8 && b == DatumType::I8 && q.c_datum_type == DatumType::I8 {
            Some(KernelKind::QmmmI8I8)
        } else if a == DatumType::U8 && b == DatumType::U8 && q.c_datum_type == DatumType::I32 {
            Some(KernelKind::QmmmU8I32)
        } else if a == DatumType::U8 && b == DatumType::U8 && q.c_datum_type == DatumType::U8 {
            Some(KernelKind::QmmmU8U8)
        } else {
            None
        },
        None => if a == DatumType::F32 && b == DatumType::F32 {
            Some(KernelKind::Smmm)
        } else {
            None
        },
    }
}

/// The kernel that a product with a packed constant is lowered to. Floats
/// go to the float kernel, with or without quantization. Signed bytes go to
/// the kernel with the result type that the quantization names, signed bytes
/// or 32-bit integers.
pub open spec fn codegen_kernel_of(a: DatumType, b: DatumType, q_params: Option<QParams>) -> Option<
    KernelKind,
> {
    if a == DatumType::F32 && b == DatumType::F32 {
        Some(KernelKind::Smmm)
    } else if a == DatumType::I8 && b == DatumType::I8 {
        match q_params {
            Some(q) => if q.c_datum_type == DatumType::I8 {
                Some(KernelKind::QmmmI8I8)
            } else if q.c_datum_type == DatumType::I32 {
                Some(KernelKind::QmmmI8I32)
            } else {
                None
            },
            None => None,
        }
    } else {
        None
    }
}

/// What a choice of kernel says: the kernel, or that none is offered.
pub open spec fn kernel_or_unsupported(kind: Option<KernelKind>) -> Result<KernelKind, Error> {
    match kind {
        Some(k) => Ok(k),
        None => Err(Error::Unsupported),
    }
}

/// Picks the kernel that evaluates a product; `Unsupported` where the
/// dispatch table has none for the types.
pub fn eval_kernel(a: DatumType, b: DatumType, q_params: Option<QParams>) -> (r: Result<
    KernelKind,
    Error,
>)
    ensures
        r == kernel_or_unsupported(eval_kernel_of(a, b, q_params)),
{
    match q_params {
        Some(q) => {
            if a == DatumType::I8 && b == DatumType::I8 && q.c_datum_type == DatumType::I32 {
                Ok(KernelKind::QmmmI8I32)
            } else if a == DatumType::I8 && b == DatumType::I8 && q.c_datum_type == DatumType::I8 {
                Ok(KernelKind::QmmmI8I8)
            } else if a == DatumType::U8 && b == DatumType::U8 && q.c_datum_type == DatumType::I32 {
                Ok(KernelKind::QmmmU8I32)
            } else if a == DatumType::U8 && b == DatumType::U8 && q.c_datum_type == DatumType::U8 {
                Ok(KernelKind::QmmmU8U8)
            } else {
                Err(Error::Unsupported)
            }
        },
        None => {
            if a == DatumType::F32 && b == DatumType::F32 {
                Ok(KernelKind::Smmm)
            } else {
                Err(Error::Unsupported)
            }
        },
    }
}

/// Picks the kernel that a product with a packed constant is lowered to;
/// `Unsupported` where the dispatch table has none for the types.
pub fn codegen_kernel(a: DatumType, b: DatumType, q_params: Option<QParams>) -> (r: Result<
    KernelKind,
    Error,
>)
    ensures
        r == kernel_or_unsupported(codegen_kernel_of(a, b, q_params)),
{
    if a == DatumType::F32 && b == DatumType::F32 {
        Ok(KernelKind::Smmm)
    } else if a == DatumType::I8 && b == DatumType::I8 {
        match q_params {
            Some(q) => {
                if q.c_datum_type == DatumType::I8 {
                    Ok(KernelKind::QmmmI8I8)
                } else if q.c_datum_type == DatumType::I32 {
                    Ok(KernelKind::QmmmI8I32)
                } else {
                    Err(Error::Unsupported)
                }
            },
            None => Err(Error::Unsupported),
        }
    } else {
        Err(Error::Unsupported)
    }
}

/// A length as a stride; `None` where it is too long for one.
pub fn as_stride(len: usize) -> (r: Option<isize>)
    ensures
        r is Some <==> len <= isize::MAX,
        r matches Some(s) ==> s == len,
{
    if len <= isize::MAX as usize {
        Some(len as isize)
    } else {
        None
    }
}

/// What a kernel asks of a packed operand: the length of the buffer in
/// elements and its alignment in bytes.
#[derive(Clone, Copy, Debug)]
pub struct Packing {
    pub len: usize,
    pub alignment: usize,
}

/// Where a kernel finds an operand or puts its result.
#[derive(Clone, Copy, Debug)]
pub enum Storage {
    /// In a buffer that the kernel's packer filled.
    Packed,
    /// In a matrix with the given strides between rows and between columns.
    Strides { row: isize, col: isize },
    /// In a vector with the given stride between entries.
    VecStride(isize),
}

/// A kernel for an `m` by `k` times `k` by `n` tile, as it is set up to
/// run.
#[derive(Clone, Copy, Debug)]
pub struct Kernel {
    pub kind: KernelKind,
    pub m: usize,
    pub k: usize,
    pub n: usize,
    pub a_pack: Packing,
    pub b_pack: Packing,
    pub b_storage: Storage,
    pub c_storage: Storage,
    pub q_params: Option<QParams>,
}

/// The operator that packs the right operand of a product for a kernel.
#[derive(Debug)]
pub struct MatMatMulPackB {
    pub pack_b: Packing,
    pub col_stride: isize,
    pub row_stride: isize,
    pub output_shape: Vec<usize>,
}

/// What a packing operator holds.
pub struct MatMatMulPackBView {
    pub pack_b: Packing,
    pub col_stride: isize,
    pub row_stride: isize,
    pub output_shape: Seq<usize>,
}

impl View for MatMatMulPackB {
    type V = MatMatMulPackBView;

    open spec fn view(&self) -> MatMatMulPackBView {
        MatMatMulPackBView {
            pack_b: self.pack_b,
            col_stride: self.col_stride,
            row_stride: self.row_stride,
            output_shape: self.output_shape@,
        }
    }
}

impl MatMatMulPackB {
    /// A copy of the operator.
    pub fn dup(&self) -> (r: MatMatMulPackB)
        ensures
            r@ == self@,
    {
        MatMatMulPackB {
            pack_b: self.pack_b,
            col_stride: self.col_stride,
            row_stride: self.row_stride,
            output_shape: dup_shape(&self.output_shape),
        }
    }
}

/// The dims and the strides of the prefix axes of a product, where some
/// prefix dim is above one.
pub open spec fn prefix_view(
    p: Option<(Vec<usize>, Vec<isize>)>,
) -> Option<(Seq<usize>, Seq<isize>)> {
    match p {
        Some((dims, strides)) => Some((dims@, strides@)),
        None => None,
    }
}

/// What a list of tensors holds.
pub open spec fn tensors_view(tensors: Seq<Tensor>) -> Seq<TensorView> {
    Seq::new(tensors.len(), |i: int| tensors[i]@)
}

/// The product of a constant, packed once for the kernel, and a wire of
/// known shape.
#[derive(Debug)]
pub struct MatMatMulUnaryFinite {
    pub c_trans: bool,
    pub bc_c_shape: Vec<usize>,
    pub c_fact: TypedFact,
    pub c_prefix_dim_and_stride: Option<(Vec<usize>, Vec<isize>)>,
    pub packed_as_shape: Vec<usize>,
    pub packed_as: Vec<Tensor>,
    pub mmm: Kernel,
}

/// What a packed product holds.
pub struct MatMatMulUnaryFiniteView {
    pub c_trans: bool,
    pub bc_c_shape: Seq<usize>,
    pub c_fact: TypedFactView,
    pub c_prefix_dim_and_stride: Option<(Seq<usize>, Seq<isize>)>,
    pub packed_as_shape: Seq<usize>,
    pub packed_as: Seq<TensorView>,
    pub mmm: Kernel,
}

impl View for MatMatMulUnaryFinite {
    type V = MatMatMulUnaryFiniteView;

    open spec fn view(&self) -> MatMatMulUnaryFiniteView {
        MatMatMulUnaryFiniteView {
            c_trans: self.c_trans,
            bc_c_shape: self.bc_c_shape@,
            c_fact: self.c_fact@,
            c_prefix_dim_and_stride: prefix_view(self.c_prefix_dim_and_stride),
            packed_as_shape: self.packed_as_shape@,
            packed_as: tensors_view(self.packed_as@),
            mmm: self.mmm,
        }
    }
}

/// A copy of a list of strides.
pub fn dup_strides(strides: &Vec<isize>) -> (r: Vec<isize>)
    ensures
        r@ == strides@,
{
    let mut r: Vec<isize> = Vec::new();
    let mut i: usize = 0;
    while i < strides.len()
        invariant
            i <= strides.len(),
            r@ == strides@.take(i as int),
        decreases strides.len() - i,
    {
        r.push(strides[i]);
        i += 1;
    }
    assert(strides@.take(strides@.len() as int) == strides@);
    r
}

/// A copy of a list of tensors.
pub fn dup_tensors(tensors: &Vec<Tensor>) -> (r: Vec<Tensor>)
    ensures
        tensors_view(r@) == tensors_view(tensors@),
{
    let mut r: Vec<Tensor> = Vec::new();
    let mut i: usize = 0;
    while i < tensors.len()
        invariant
            i <= tensors.len(),
            r@.len() == i,
            forall|j: int| 0 <= j < i ==> (#[trigger] r@[j])@ == tensors@[j]@,
        decreases tensors.len() - i,
    {
        r.push(tensors[i].dup());
        i += 1;
    }
    assert(tensors_view(r@) =~= tensors_view(tensors@));
    r
}

impl MatMatMulUnaryFinite {
    /// A copy of the operator.
    pub fn dup(&self) -> (r: MatMatMulUnaryFinite)
        ensures
            r@ == self@,
    {
        let c_prefix_dim_and_stride = match &self.c_prefix_dim_and_stride {
            Some((dims, strides)) => Some((dup_shape(dims), dup_strides(strides))),
            None => None,
        };
        MatMatMulUnaryFinite {
            c_trans: self.c_trans,
            bc_c_shape: dup_shape(&self.bc_c_shape),
            c_fact: self.c_fact.dup(),
            c_prefix_dim_and_stride,
            packed_as_shape: dup_shape(&self.packed_as_shape),
            packed_as: dup_tensors(&self.packed_as),
            mmm: self.mmm,
        }
    }
}

} // verus!
