use vstd::prelude::*;
use crate::dim::{lemma_product_split, product};
use crate::error::Error;
use ndarray::Dimension;

verus! {

/// The index of the position `j`, counted in row-major order, in an array
/// of the given shape: the last axis moves fastest.
pub open spec fn unravel(shape: Seq<usize>, j: int) -> Seq<usize>
    decreases shape.len(),
{
    if shape.len() == 0 {
        Seq::empty()
    } else {
        unravel(shape.drop_last(), j / (shape.last() as int)).push(
            (j % (shape.last() as int)) as usize,
        )
    }
}

/// Every leading part of the shape has a product that is a machine length.
pub open spec fn leading_fits(shape: Seq<usize>) -> bool {
    forall|i: int| 0 <= i <= shape.len() ==> #[trigger] product(shape.take(i)) <= usize::MAX
}

/// The indices of an array of the shape can be counted and held: every
/// leading part of the shape has a product that is a machine length, and a
/// list with one entry for each index is not longer than a list can be.
pub open spec fn countable(shape: Seq<usize>) -> bool {
    leading_fits(shape) && product(shape) * 32 <= isize::MAX
}

/// All indices of an array of the given shape, in row-major order. Rests on
/// `ndarray::indices`, whose iterator starts at the index of zeros, steps
/// the last axis first and carries into the axes before it, and gives
/// nothing for a shape with an empty axis. The product of the shape, which
/// the iterator takes from the first axis on, must not overflow, and the
/// list that is collected must not be longer than a list can be.
#[verifier::external_body]
fn all_indices(shape: &Vec<usize>) -> (r: Vec<Vec<usize>>)
    requires
        countable(shape@),
    ensures
        r@.len() == product(shape@),
        forall|j: int| 0 <= j < r@.len() ==> (#[trigger] r@[j])@ == unravel(shape@, j),
{
    ndarray::indices(shape.as_slice()).into_iter().map(|ix| ix.slice().to_vec()).collect()
}

/// All indices of an array of the given shape, in row-major order; `None`
/// where they cannot be counted and held.
pub fn all_indices_of(shape: &Vec<usize>) -> (r: Option<Vec<Vec<usize>>>)
    ensures
        r is Some <==> countable(shape@),
        r matches Some(indices) ==> indices@.len() == product(shape@) && forall|j: int|
            0 <= j < indices@.len() ==> (#[trigger] indices@[j])@ == unravel(shape@, j),
{
    if is_countable(shape) {
        Some(all_indices(shape))
    } else {
        None
    }
}

/// Whether the indices of an array of the shape can be counted and held.
pub fn is_countable(shape: &Vec<usize>) -> (r: bool)
    ensures
        r == countable(shape@),
{
    let mut acc: usize = 1;
    let mut i: usize = 0;
    assert(shape@.take(0) =~= Seq::<usize>::empty());
    while i < shape.len()
        invariant
            i <= shape.len(),
            acc == product(shape@.take(i as int)),
            forall|t: int| 0 <= t <= i ==> #[trigger] product(shape@.take(t)) <= usize::MAX,
        decreases shape.len() - i,
    {
        proof {
            let longer = shape@.take(i + 1);
            lemma_product_split(longer, i as int);
            assert(longer.take(i as int) =~= shape@.take(i as int));
            assert(longer.skip(i as int) =~= seq![shape@[i as int]]);
            lemma_product_single(shape@[i as int]);
        }
        match acc.checked_mul(shape[i]) {
            Some(p) => {
                acc = p;
            },
            None => {
                assert(product(shape@.take(i + 1)) > usize::MAX);
                return false;
            },
        }
        i += 1;
    }
    assert(shape@.take(shape@.len() as int) =~= shape@);
    acc <= (isize::MAX as usize) / 32
}

/// The index that reads an array of the given shape where `index` reads
/// one that was broadcast from it: along an axis of length one, or of none,
/// the first position.
pub open spec fn clamped(index: Seq<usize>, shape: Seq<usize>) -> Seq<usize> {
    Seq::new(
        index.len(),
        |t: int|
            if shape[t] == 0 {
                0usize
            } else if index[t] < shape[t] {
                index[t]
            } else {
                (shape[t] - 1) as usize
            },
    )
}

/// The offset, in elements, of the first `upto` axes of `index` in a
/// row-major array of the given shape.
pub open spec fn offset_in(shape: Seq<usize>, index: Seq<usize>, upto: nat) -> nat
    decreases upto,
{
    if upto == 0 {
        0
    } else {
        offset_in(shape, index, (upto - 1) as nat) + index[upto - 1] as nat * product(
            shape.skip(upto as int),
        )
    }
}

/// The offset of the tile of an operand of the given shape that goes with
/// the position `j` among the indices of `over`.
pub open spec fn tile_offset(shape: Seq<usize>, over: Seq<usize>, j: int) -> nat {
    offset_in(shape, clamped(unravel(over, j), shape), over.len())
}

/// Every tile offset of the operand is a machine length, and so is each
/// part of the sum that gives it.
pub open spec fn tile_offsets_fit(shape: Seq<usize>, over: Seq<usize>) -> bool {
    forall|j: int, t: nat|
        0 <= j < product(over) && t <= over.len() ==> #[trigger] offset_in(
            shape,
            clamped(unravel(over, j), shape),
            t,
        ) <= usize::MAX
}

/// The strides of the first `n` axes of a row-major array of the shape are
/// machine lengths.
pub open spec fn strides_fit(shape: Seq<usize>, n: nat) -> bool {
    n > 0 ==> forall|i: int| 1 <= i <= shape.len() ==> #[trigger] product(shape.skip(i)) <= usize::MAX
}

/// The offsets, in elements, of the tiles of an operand of the shape
/// `shape`, one for each index of an array of the shape `over` in row-major
/// order, where `over` gives the leading axes of the shape that the operand
/// was broadcast to. `RankMismatch` where `over` has more axes than the
/// operand, else `Overflow` where the indices of `over` cannot be counted
/// and held, or a stride or an offset is no machine length.
pub fn tile_offsets(shape: &Vec<usize>, over: &Vec<usize>) -> (r: Result<Vec<usize>, Error>)
    ensures
        r is Ok <==> over@.len() <= shape@.len() && countable(over@) && strides_fit(
            shape@,
            over@.len(),
        ) && tile_offsets_fit(shape@, over@),
        r matches Ok(offsets) ==> offsets@.len() == product(over@) && forall|j: int|
            0 <= j < offsets@.len() ==> #[trigger] offsets@[j] == tile_offset(shape@, over@, j),
        r matches Err(e) ==> e == (if over@.len() > shape@.len() {
            Error::RankMismatch
        } else {
            Error::Overflow
        }),
{
    if over.len() > shape.len() {
        return Err(Error::RankMismatch);
    }
    let mut strides: Vec<usize> = Vec::new();
    let mut t: usize = 0;
    while t < over.len()
        invariant
            t <= over@.len() <= shape@.len(),
            strides@.len() == t,
            forall|u: int| 0 <= u < t ==> #[trigger] strides@[u] == product(shape@.skip(u + 1)),
            t > 0 ==> strides_fit(shape@, over@.len()),
        decreases over.len() - t,
    {
        match crate::dim::checked_product_from(shape, t + 1) {
            Some(s) => {
                strides.push(s);
            },
            None => {
                return Err(Error::Overflow);
            },
        }
        t += 1;
    }
    tile_offsets_with(shape, &strides, over)
}

/// `tile_offsets`, with the stride of each axis of `over` in hand.
fn tile_offsets_with(shape: &Vec<usize>, strides: &Vec<usize>, over: &Vec<usize>) -> (r: Result<
    Vec<usize>,
    Error,
>)
    requires
        over@.len() <= shape@.len(),
        strides@.len() == over@.len(),
        forall|t: int| 0 <= t < over@.len() ==> #[trigger] strides@[t] == product(shape@.skip(t + 1)),
    ensures
        r is Ok <==> countable(over@) && tile_offsets_fit(shape@, over@),
        r matches Ok(offsets) ==> offsets@.len() == product(over@) && forall|j: int|
            0 <= j < offsets@.len() ==> #[trigger] offsets@[j] == tile_offset(shape@, over@, j),
        r matches Err(e) ==> e == Error::Overflow,
{
    if !is_countable(over) {
        return Err(Error::Overflow);
    }
    let indices = all_indices(over);
    let mut offsets: Vec<usize> = Vec::new();
    let mut j: usize = 0;
    while j < indices.len()
        invariant
            j <= indices.len(),
            over@.len() <= shape@.len(),
            strides@.len() == over@.len(),
            forall|t: int| 0 <= t < over@.len() ==> #[trigger] strides@[t] == product(shape@.skip(t + 1)),
            indices@.len() == product(over@),
            forall|i: int| 0 <= i < indices@.len() ==> (#[trigger] indices@[i])@ == unravel(over@, i),
            offsets@.len() == j,
            forall|i: int| 0 <= i < j ==> #[trigger] offsets@[i] == tile_offset(shape@, over@, i),
            forall|i: int, t: nat|
                0 <= i < j && t <= over@.len() ==> #[trigger] offset_in(
                    shape@,
                    clamped(unravel(over@, i), shape@),
                    t,
                ) <= usize::MAX,
        decreases indices.len() - j,
    {
        let index = &indices[j];
        let ghost at = clamped(unravel(over@, j as int), shape@);
        proof {
            lemma_unravel_len(over@, j as int);
        }
        let mut offset: usize = 0;
        let mut t: usize = 0;
        while t < over.len()
            invariant
                t <= over@.len(),
                over@.len() <= shape@.len(),
                strides@.len() == over@.len(),
                forall|t: int|
                    0 <= t < over@.len() ==> #[trigger] strides@[t] == product(shape@.skip(t + 1)),
                index@ == unravel(over@, j as int),
                index@.len() == over@.len(),
                at == clamped(unravel(over@, j as int), shape@),
                offset == offset_in(shape@, at, t as nat),
                forall|u: nat| u <= t ==> #[trigger] offset_in(shape@, at, u) <= usize::MAX,
                j < product(over@),
            decreases over.len() - t,
        {
            let dim = shape[t];
            let pos = if dim == 0 {
                0
            } else if index[t] < dim {
                index[t]
            } else {
                dim - 1
            };
            assert(pos == at[t as int]);
            let next = match pos.checked_mul(strides[t]) {
                Some(term) => offset.checked_add(term),
                None => None,
            };
            match next {
                Some(o) => {
                    offset = o;
                },
                None => {
                    assert(offset_in(shape@, at, (t + 1) as nat) > usize::MAX);
                    assert(!tile_offsets_fit(shape@, over@));
                    return Err(Error::Overflow);
                },
            }
            t += 1;
        }
        offsets.push(offset);
        j += 1;
    }
    Ok(offsets)
}

/// An index has one entry for each axis of the shape.
pub proof fn lemma_unravel_len(shape: Seq<usize>, j: int)
    ensures
        unravel(shape, j).len() == shape.len(),
    decreases shape.len(),
{
    if shape.len() > 0 {
        lemma_unravel_len(shape.drop_last(), j / (shape.last() as int));
    }
}

/// The product of a shape with one axis is the length of that axis.
pub proof fn lemma_product_single(d: usize)
    ensures
        product(seq![d]) == d,
{
    assert(seq![d].drop_first() =~= Seq::<usize>::empty());
    assert(product(Seq::<usize>::empty()) == 1);
    assert(product(seq![d]) == seq![d][0] as nat * product(seq![d].drop_first()));
}

/// The position, in row-major order, of an index in an array of the
/// given shape.
pub open spec fn ravel(index: Seq<usize>, shape: Seq<usize>) -> int
    decreases shape.len(),
{
    if shape.len() == 0 {
        0
    } else {
        ravel(index.drop_last(), shape.drop_last()) * shape.last() + index.last()
    }
}

/// The offset of the first axes of an index depends on those axes only.
proof fn lemma_offset_in_prefix(shape: Seq<usize>, a: Seq<usize>, b: Seq<usize>, upto: nat)
    requires
        forall|t: int| 0 <= t < upto ==> a[t] == b[t],
    ensures
        offset_in(shape, a, upto) == offset_in(shape, b, upto),
    decreases upto,
{
    if upto > 0 {
        lemma_offset_in_prefix(shape, a, b, (upto - 1) as nat);
    }
}

/// The offset of the first `n` axes of an index in an array is the position
/// of those axes among the leading axes of the array, times the number of
/// elements that the rest of the axes hold.
pub proof fn lemma_offset_is_ravel(shape: Seq<usize>, index: Seq<usize>, n: nat)
    requires
        n <= shape.len(),
        n <= index.len(),
    ensures
        offset_in(shape, index, n) == ravel(index.take(n as int), shape.take(n as int)) * product(
            shape.skip(n as int),
        ),
    decreases n,
{
    if n == 0 {
        assert(shape.take(0).len() == 0);
    } else {
        let m = (n - 1) as nat;
        lemma_offset_is_ravel(shape, index, m);
        crate::dim::lemma_product_skip(shape, m as int);
        assert(shape.take(n as int).drop_last() =~= shape.take(m as int));
        assert(index.take(n as int).drop_last() =~= index.take(m as int));
        assert(shape.take(n as int).last() == shape[m as int]);
        assert(index.take(n as int).last() == index[m as int]);
        let before = ravel(index.take(m as int), shape.take(m as int));
        let d = shape[m as int] as int;
        let x = index[m as int] as int;
        let rest = product(shape.skip(n as int)) as int;
        assert(before * (d * rest) + x * rest == (before * d + x) * rest) by (nonlinear_arith);
    }
}

/// An index that was found from a position in an array lies in the array,
/// and has that position.
pub proof fn lemma_ravel_unravel(shape: Seq<usize>, j: int)
    requires
        0 <= j < product(shape),
    ensures
        unravel(shape, j).len() == shape.len(),
        forall|t: int| 0 <= t < shape.len() ==> #[trigger] unravel(shape, j)[t] < shape[t],
        ravel(unravel(shape, j), shape) == j,
    decreases shape.len(),
{
    lemma_unravel_len(shape, j);
    if shape.len() > 0 {
        let n = shape.len() - 1;
        let init = shape.drop_last();
        let last = shape.last() as int;
        lemma_product_split(shape, n);
        assert(shape.take(n) =~= init);
        assert(shape.skip(n) =~= seq![shape.last()]);
        lemma_product_single(shape.last());
        let p = product(init) as int;
        assert(product(shape) == p * last);
        assert(last > 0 && j / last < p && 0 <= j / last && 0 <= j % last < last && j == (j / last)
            * last + j % last) by (nonlinear_arith)
            requires
                0 <= j < p * last,
                last >= 0,
                p >= 0,
        ;
        lemma_ravel_unravel(init, j / last);
        let index = unravel(shape, j);
        assert(index.drop_last() =~= unravel(init, j / last));
        assert(index.last() == (j % last) as usize);
        assert forall|t: int| 0 <= t < shape.len() implies #[trigger] index[t] < shape[t] by {
            if t < n {
                assert(index[t] == unravel(init, j / last)[t]);
                assert(shape[t] == init[t]);
            }
        }
    }
}

/// **The tiles of an array lie one after another.** The tile of an array
/// that goes with the position `j` among the indices of its `n` leading
/// axes starts at `j` times the number of elements of one tile.
pub proof fn lemma_tiles_are_stacked(shape: Seq<usize>, n: nat, j: int)
    requires
        n <= shape.len(),
        0 <= j < product(shape.take(n as int)),
    ensures
        tile_offset(shape, shape.take(n as int), j) == j * product(shape.skip(n as int)),
{
    let over = shape.take(n as int);
    let index = unravel(over, j);
    lemma_ravel_unravel(over, j);
    let read = clamped(index, shape);
    assert forall|t: int| 0 <= t < n implies read[t] == index[t] by {
        assert(index[t] < over[t]);
    }
    lemma_offset_in_prefix(shape, read, index, n);
    lemma_offset_is_ravel(shape, index, n);
    assert(index.take(n as int) =~= index);
}

/// **A tile of a broadcast operand is the tile of the slice that
/// broadcasting reads.** The tile of an operand that goes with the position
/// `j` among the indices of the prefix `over` of the result starts where the
/// slice of the operand starts that has the index of `j`, held back to the
/// first position along each axis on which the operand has length one.
pub proof fn lemma_tile_reads_broadcast_slice(shape: Seq<usize>, over: Seq<usize>, j: int)
    requires
        over.len() <= shape.len(),
    ensures
        tile_offset(shape, over, j) == ravel(
            clamped(unravel(over, j), shape),
            shape.take(over.len() as int),
        ) * product(shape.skip(over.len() as int)),
{
    let read = clamped(unravel(over, j), shape);
    lemma_unravel_len(over, j);
    lemma_offset_is_ravel(shape, read, over.len());
    assert(read.take(over.len() as int) =~= read);
}

} // verus!
