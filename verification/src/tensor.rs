use vstd::prelude::*;
use crate::datum::DatumType;
use crate::dim::{
    checked_product, checked_product_from, dup_shape, lemma_product_skip, lemma_product_skip_grows,
    lemma_product_split, product, shape_fits,
};
use crate::error::Error;

verus! {

/// A tensor: an element type, a shape, and the elements as one contiguous
/// row-major buffer of bytes.
#[derive(Debug)]
pub struct Tensor {
    pub datum_type: DatumType,
    pub shape: Vec<usize>,
    pub data: Vec<u8>,
}

/// What a tensor holds.
pub struct TensorView {
    pub datum_type: DatumType,
    pub shape: Seq<usize>,
    pub data: Seq<u8>,
}

impl View for Tensor {
    type V = TensorView;

    open spec fn view(&self) -> TensorView {
        TensorView { datum_type: self.datum_type, shape: self.shape@, data: self.data@ }
    }
}

impl TensorView {
    /// The buffer holds exactly the elements that the shape asks for.
    pub open spec fn wf(self) -> bool {
        self.data.len() == product(self.shape) * self.datum_type.width()
    }

    /// The same elements under another shape.
    pub open spec fn reshaped(self, shape: Seq<usize>) -> TensorView {
        TensorView { datum_type: self.datum_type, shape, data: self.data }
    }

    /// The same elements without the axis `axis`, which has length one.
    pub open spec fn without_axis(self, axis: int) -> TensorView {
        self.reshaped(self.shape.remove(axis))
    }

    /// The number of bytes between two neighbours along `axis`.
    pub open spec fn row_bytes(self, axis: int) -> nat {
        product(self.shape.skip(axis + 1)) * self.datum_type.width()
    }

    /// The number of bytes of one run of the axes from `axis` on.
    pub open spec fn block_bytes(self, axis: int) -> nat {
        product(self.shape.skip(axis)) * self.datum_type.width()
    }

    /// The number of runs of the axes from `axis` on that the buffer holds.
    pub open spec fn blocks(self, axis: int) -> nat {
        if self.block_bytes(axis) == 0 {
            0
        } else {
            self.data.len() / self.block_bytes(axis)
        }
    }

    /// The part of the tensor with the positions `start..end` along `axis`.
    pub open spec fn sliced(self, axis: int, start: int, end: int) -> TensorView {
        TensorView {
            datum_type: self.datum_type,
            shape: self.shape.update(axis, (end - start) as usize),
            data: gather(
                self.data,
                self.blocks(axis),
                self.block_bytes(axis),
                (start * self.row_bytes(axis)) as nat,
                (end * self.row_bytes(axis)) as nat,
            ),
        }
    }
}

/// The bytes `from..to` of each of the first `blocks` runs of `block` bytes
/// of a buffer, one after the other.
pub open spec fn gather(data: Seq<u8>, blocks: nat, block: nat, from: nat, to: nat) -> Seq<u8>
    decreases blocks,
{
    if blocks == 0 {
        Seq::empty()
    } else {
        gather(data, (blocks - 1) as nat, block, from, to) + data.subrange(
            (blocks - 1) * block + from,
            (blocks - 1) * block + to,
        )
    }
}

/// A part of a tensor that holds the elements that its shape asks for
/// holds the elements that its own shape asks for.
pub proof fn lemma_sliced_wf(t: TensorView, axis: int, start: int, end: int)
    requires
        t.wf(),
        0 <= axis < t.shape.len(),
        0 <= start <= end <= t.shape[axis],
    ensures
        t.sliced(axis, start, end).wf(),
{
    let s = t.shape;
    let w = t.datum_type.width() as int;
    let outer = product(s.take(axis)) as int;
    let d = s[axis] as int;
    let row = product(s.skip(axis + 1)) as int;
    let e = end - start;
    let part = s.update(axis, e as usize);
    lemma_product_split(s, axis);
    lemma_product_skip(s, axis);
    lemma_product_split(part, axis);
    lemma_product_skip(part, axis);
    assert(part.take(axis) =~= s.take(axis));
    assert(part.skip(axis + 1) =~= s.skip(axis + 1));
    let block = t.block_bytes(axis) as int;
    let len = t.data.len() as int;
    assert(block == d * row * w);
    assert(len == outer * (d * row) * w);
    assert(product(part) == outer * (e * row));
    let blocks = t.blocks(axis) as int;
    let from = start * t.row_bytes(axis);
    let to = end * t.row_bytes(axis);
    assert(0 <= from <= to <= block && to - from == e * row * w) by (nonlinear_arith)
        requires
            0 <= start <= end <= d,
            e == end - start,
            from == start * (row * w),
            to == end * (row * w),
            block == d * row * w,
            row >= 0,
            w >= 1,
    ;
    if block == 0 {
        assert(outer * (e * row) * w == 0) by (nonlinear_arith)
            requires
                d * row * w == 0,
                w >= 1,
                0 <= e <= d,
                row >= 0,
                outer >= 0,
        ;
        lemma_gather_len(t.data, 0, block as nat, from as nat, to as nat);
    } else {
        assert(len == outer * block) by (nonlinear_arith)
            requires
                len == outer * (d * row) * w,
                block == d * row * w,
        ;
        assert(len / block == outer) by (nonlinear_arith)
            requires
                len == outer * block,
                block > 0,
                outer >= 0,
        ;
        lemma_gather_len(t.data, blocks as nat, block as nat, from as nat, to as nat);
        assert(blocks * (to - from) == outer * (e * row) * w) by (nonlinear_arith)
            requires
                blocks == outer,
                to - from == e * row * w,
        ;
    }
}

/// What is gathered from runs that lie in the buffer has `to - from` bytes
/// for each run.
pub proof fn lemma_gather_len(data: Seq<u8>, blocks: nat, block: nat, from: nat, to: nat)
    requires
        from <= to <= block,
        blocks * block <= data.len(),
    ensures
        gather(data, blocks, block, from, to).len() == blocks * (to - from),
    decreases blocks,
{
    if blocks > 0 {
        let fewer = (blocks - 1) as nat;
        assert(fewer * block + block == blocks * block) by (nonlinear_arith)
            requires
                fewer + 1 == blocks,
        ;
        assert(fewer * block <= blocks * block) by (nonlinear_arith)
            requires
                fewer + 1 == blocks,
        ;
        lemma_gather_len(data, fewer, block, from, to);
        assert(fewer * (to - from) + (to - from) == blocks * (to - from)) by (nonlinear_arith)
            requires
                fewer + 1 == blocks,
        ;
        let part = data.subrange((fewer * block + from) as int, (fewer * block + to) as int);
        assert(part.len() == to - from);
    } else {
        assert(blocks * (to - from) == 0) by (nonlinear_arith)
            requires
                blocks == 0,
        ;
    }
}

impl Tensor {
    /// The buffer holds exactly the elements that the shape asks for.
    pub open spec fn wf(&self) -> bool {
        self@.wf()
    }

    /// A tensor over the given buffer. `Overflow` where the number of bytes
    /// that the shape asks for is no machine length, `Size` where the buffer
    /// has another length.
    pub fn new(
        datum_type: DatumType,
        shape: Vec<usize>,
        data: Vec<u8>,
    ) -> (r: Result<Tensor, Error>)
        ensures
            r matches Ok(t) ==> t.wf() && t@ == (TensorView {
                datum_type,
                shape: shape@,
                data: data@,
            }),
            r matches Err(e) ==> e == (if shape_fits(shape@) && product(shape@) * datum_type.width()
                <= usize::MAX {
                Error::Size
            } else {
                Error::Overflow
            }),
            r is Ok <==> shape_fits(shape@) && data@.len() == product(shape@) * datum_type.width(),
    {
        let len = data.len();
        let count = match checked_product(&shape) {
            Some(c) => c,
            None => {
                return Err(Error::Overflow);
            },
        };
        let bytes = match count.checked_mul(datum_type.size_of()) {
            Some(b) => b,
            None => {
                return Err(Error::Overflow);
            },
        };
        if len != bytes {
            return Err(Error::Size);
        }
        Ok(Tensor { datum_type, shape, data })
    }

    /// The number of axes.
    pub fn rank(&self) -> (r: usize)
        ensures
            r == self@.shape.len(),
    {
        self.shape.len()
    }

    /// The shape.
    pub fn shape(&self) -> (r: &Vec<usize>)
        ensures
            r@ == self@.shape,
    {
        &self.shape
    }

    /// The element type.
    pub fn datum_type(&self) -> (r: DatumType)
        ensures
            r == self@.datum_type,
    {
        self.datum_type
    }

    /// A copy of the tensor.
    pub fn dup(&self) -> (r: Tensor)
        ensures
            r@ == self@,
    {
        let mut data: Vec<u8> = Vec::new();
        let mut i: usize = 0;
        while i < self.data.len()
            invariant
                i <= self.data.len(),
                data@ == self.data@.take(i as int),
            decreases self.data.len() - i,
        {
            data.push(self.data[i]);
            i += 1;
        }
        assert(self.data@.take(self.data@.len() as int) == self.data@);
        Tensor { datum_type: self.datum_type, shape: dup_shape(&self.shape), data }
    }

    /// The same elements under another shape. `Size` where the new shape
    /// asks for another number of elements than the tensor holds.
    pub fn into_shape(self, shape: &Vec<usize>) -> (r: Result<Tensor, Error>)
        requires
            self.wf(),
        ensures
            r is Ok <==> product(shape@) == product(self@.shape),
            r matches Ok(t) ==> t@ == self@.reshaped(shape@) && t.wf(),
            r matches Err(e) ==> e == Error::Size,
    {
        let width = self.datum_type.size_of();
        let mut count: usize = 1;
        let mut i: usize = 0;
        let rank = shape.len();
        let limit = self.data.len() / width;
        let ghost old_count = product(self@.shape);
        assert(limit == old_count) by (nonlinear_arith)
            requires
                self.data@.len() == old_count * width,
                width > 0,
                limit as int == (self.data@.len() as int) / (width as int),
        ;
        proof {
            lemma_product_skip(shape@, rank as int);
        }
        // The product is taken from the last axis on; once it passes the
        // number of elements held, only a zero dim can bring it back.
        let mut exceeded = limit == 0;
        while i < rank
            invariant
                i <= rank,
                rank == shape@.len(),
                !exceeded ==> count == product(shape@.skip(rank - i)),
                !exceeded ==> count <= limit,
                exceeded ==> product(shape@.skip(rank - i)) > limit,
            decreases rank - i,
        {
            proof {
                lemma_product_skip(shape@, rank - 1 - i);
            }
            let dim = shape[rank - 1 - i];
            let ghost rest = product(shape@.skip(rank - i));
            if dim == 0 {
                count = 0;
                exceeded = false;
                assert(dim as nat * rest == 0) by (nonlinear_arith)
                    requires
                        dim == 0,
                ;
            } else if !exceeded {
                match dim.checked_mul(count) {
                    Some(p) => {
                        if p > limit {
                            exceeded = true;
                        } else {
                            count = p;
                        }
                    },
                    None => {
                        exceeded = true;
                    },
                }
            } else {
                assert(dim as nat * rest >= rest) by (nonlinear_arith)
                    requires
                        dim >= 1,
                ;
            }
            i += 1;
        }
        proof {
            lemma_product_skip(shape@, 0);
        }
        if exceeded || count != limit {
            return Err(Error::Size);
        }
        Ok(Tensor { datum_type: self.datum_type, shape: dup_shape(shape), data: self.data })
    }

    /// Takes the axis `axis` out of the shape. `AxisOutOfRange` where the
    /// tensor has no such axis, else `Size` where the axis is not of length
    /// one; the tensor is then left as it was.
    pub fn remove_axis(&mut self, axis: usize) -> (r: Result<(), Error>)
        ensures
            r is Ok <==> axis < old(self)@.shape.len() && old(self)@.shape[axis as int] == 1,
            r is Ok ==> final(self)@ == old(self)@.without_axis(axis as int),
            r is Ok && old(self).wf() ==> final(self).wf(),
            r matches Err(e) ==> final(self)@ == old(self)@ && e == (if axis >= old(
                self,
            )@.shape.len() {
                Error::AxisOutOfRange
            } else {
                Error::Size
            }),
    {
        if axis >= self.shape.len() {
            return Err(Error::AxisOutOfRange);
        }
        if self.shape[axis] != 1 {
            return Err(Error::Size);
        }
        proof {
            let shape = self.shape@;
            let shorter = shape.remove(axis as int);
            lemma_product_split(shape, axis as int);
            lemma_product_split(shorter, axis as int);
            lemma_product_skip(shape, axis as int);
            assert(shorter.take(axis as int) =~= shape.take(axis as int));
            assert(shorter.skip(axis as int) =~= shape.skip(axis + 1));
        }
        self.shape.remove(axis);
        Ok(())
    }

    /// The part of the tensor with the positions `start..end` along `axis`.
    /// `AxisOutOfRange` where the tensor has no such axis, else `Range`
    /// where the positions do not lie in the axis.
    pub fn slice(&self, axis: usize, start: usize, end: usize) -> (r: Result<Tensor, Error>)
        ensures
            r is Ok <==> axis < self@.shape.len() && start <= end <= self@.shape[axis as int],
            r matches Ok(t) ==> t@ == self@.sliced(axis as int, start as int, end as int),
            r matches Ok(t) ==> (self.wf() ==> t.wf()),
            r matches Err(e) ==> e == (if axis >= self@.shape.len() {
                Error::AxisOutOfRange
            } else {
                Error::Range
            }),
    {
        if axis >= self.shape.len() {
            return Err(Error::AxisOutOfRange);
        }
        let dim = self.shape[axis];
        if start > end || end > dim {
            return Err(Error::Range);
        }
        proof {
            if self.wf() {
                lemma_sliced_wf(self@, axis as int, start as int, end as int);
            }
        }
        let mut shape = dup_shape(&self.shape);
        shape.set(axis, end - start);
        let width = self.datum_type.size_of();
        let len = self.data.len();
        let ghost row_spec = product(self@.shape.skip(axis + 1));
        let ghost block_spec = self@.block_bytes(axis as int);
        proof {
            lemma_product_skip(self@.shape, axis as int);
            assert(block_spec == dim * (row_spec * width)) by (nonlinear_arith)
                requires
                    block_spec == (dim * row_spec) * width,
            ;
        }
        let sizes = match checked_product_from(&self.shape, axis + 1) {
            Some(row) => match row.checked_mul(width) {
                Some(row_bytes) => match dim.checked_mul(row_bytes) {
                    Some(block) => Some((row_bytes, block)),
                    None => None,
                },
                None => {
                    proof {
                        assert(dim * (row_spec * width) == 0 || dim * (row_spec * width) >= row_spec
                            * width) by (nonlinear_arith);
                    }
                    None
                },
            },
            None => {
                proof {
                    let i = choose|i: int|
                        axis + 1 <= i <= self@.shape.len() && #[trigger] product(
                            self@.shape.skip(i),
                        ) > usize::MAX;
                    lemma_product_skip_grows(self@.shape, axis as int, i);
                    let whole = product(self@.shape.skip(axis as int));
                    assert(whole * width == 0 || whole * width >= whole) by (nonlinear_arith)
                        requires
                            width >= 1,
                    ;
                    assert(whole == 0 ==> whole * width == 0) by (nonlinear_arith);
                }
                None
            },
        };
        let (row_bytes, block) = match sizes {
            Some((row_bytes, block)) => {
                if block == 0 {
                    return Ok(Tensor { datum_type: self.datum_type, shape, data: Vec::new() });
                }
                (row_bytes, block)
            },
            None => {
                proof {
                    assert(block_spec == 0 || block_spec > len);
                    if block_spec > len {
                        assert((len as int) / (block_spec as int) == 0) by (nonlinear_arith)
                            requires
                                0 <= len < block_spec,
                        ;
                    }
                }
                return Ok(Tensor { datum_type: self.datum_type, shape, data: Vec::new() });
            },
        };
        let blocks = len / block;
        proof {
            assert(blocks * block <= len) by (nonlinear_arith)
                requires
                    blocks == len / block,
                    block > 0,
            ;
            assert(start * row_bytes <= end * row_bytes <= dim * row_bytes) by (nonlinear_arith)
                requires
                    start <= end <= dim,
            ;
        }
        let from = start * row_bytes;
        let to = end * row_bytes;
        let mut data: Vec<u8> = Vec::new();
        let mut b: usize = 0;
        while b < blocks
            invariant
                b <= blocks,
                blocks * block <= len,
                len == self.data@.len(),
                from <= to <= block,
                block > 0,
                data@ == gather(self.data@, b as nat, block as nat, from as nat, to as nat),
            decreases blocks - b,
        {
            proof {
                assert(b * block + block <= blocks * block) by (nonlinear_arith)
                    requires
                        b < blocks,
                ;
            }
            let base = b * block;
            let mut i: usize = base + from;
            let ghost before = data@;
            while i < base + to
                invariant
                    base + from <= i <= base + to,
                    base + to <= len,
                    len == self.data@.len(),
                    data@ == before + self.data@.subrange(base + from, i as int),
                decreases base + to - i,
            {
                data.push(self.data[i]);
                i += 1;
                assert(data@ =~= before + self.data@.subrange(base + from, i as int));
            }
            b += 1;
        }
        Ok(Tensor { datum_type: self.datum_type, shape, data })
    }
}

} // verus!
