use vstd::prelude::*;
use crate::error::Error;

verus! {

/// What an entry of a shape must offer: a length-one value, equality and
/// duplication.
pub trait DimLike: Sized {
    /// The dim of an axis of length one.
    spec fn unit() -> Self;

    fn one() -> (d: Self)
        ensures
            d == Self::unit(),
    ;

    fn same(&self, other: &Self) -> (b: bool)
        ensures
            b == (*self == *other),
    ;

    fn dup(&self) -> (d: Self)
        ensures
            d == *self,
    ;
}

impl DimLike for usize {
    open spec fn unit() -> usize {
        1
    }

    fn one() -> usize {
        1
    }

    fn same(&self, other: &usize) -> bool {
        *self == *other
    }

    fn dup(&self) -> usize {
        *self
    }
}

/// A dim that may grow with the length `S` of the stream: `slope * S + offset`.
#[derive(Clone, Copy, Debug, PartialEq, Eq, Structural)]
pub struct TDim {
    pub slope: i128,
    pub offset: i128,
}

impl DimLike for TDim {
    open spec fn unit() -> TDim {
        TDim { slope: 0, offset: 1 }
    }

    fn one() -> TDim {
        TDim { slope: 0, offset: 1 }
    }

    fn same(&self, other: &TDim) -> bool {
        self.slope == other.slope && self.offset == other.offset
    }

    fn dup(&self) -> TDim {
        TDim { slope: self.slope, offset: self.offset }
    }
}

impl TDim {
    /// The dim that is always `n`.
    pub open spec fn constant(n: int) -> TDim {
        TDim { slope: 0, offset: n as i128 }
    }

    /// The length of the stream itself.
    pub fn stream() -> (d: TDim)
        ensures
            d == (TDim { slope: 1, offset: 0 }),
    {
        TDim { slope: 1, offset: 0 }
    }

    /// The value of the dim once the stream has length `s`.
    pub open spec fn eval(self, s: int) -> int {
        self.slope * s + self.offset
    }

    /// The sum of two dims, where it fits.
    pub open spec fn spec_plus(self, other: TDim) -> Option<TDim> {
        let slope = self.slope + other.slope;
        let offset = self.offset + other.offset;
        if i128::MIN <= slope <= i128::MAX && i128::MIN <= offset <= i128::MAX {
            Some(TDim { slope: slope as i128, offset: offset as i128 })
        } else {
            None
        }
    }

    /// The product of two dims, where it is a dim again: at most one factor
    /// may depend on the stream, and the result must fit.
    pub open spec fn spec_times(self, other: TDim) -> Option<TDim> {
        let slope = self.slope * other.offset + other.slope * self.offset;
        let offset = self.offset * other.offset;
        if (self.slope == 0 || other.slope == 0) && i128::MIN <= slope <= i128::MAX && i128::MIN
            <= offset <= i128::MAX {
            Some(TDim { slope: slope as i128, offset: offset as i128 })
        } else {
            None
        }
    }

    /// The integer that the dim stands for, unless it depends on the stream.
    pub fn to_integer(&self) -> (r: Result<i128, Error>)
        ensures
            r == (if self.slope == 0 {
                Ok::<i128, Error>(self.offset)
            } else {
                Err::<i128, Error>(Error::Symbolic)
            }),
    {
        if self.slope == 0 {
            Ok(self.offset)
        } else {
            Err(Error::Symbolic)
        }
    }

    /// The length that the dim stands for: `Symbolic` where it depends on the
    /// stream, `Overflow` where it is no machine length.
    pub fn to_usize(&self) -> (r: Result<usize, Error>)
        ensures
            r == (if self.slope != 0 {
                Err::<usize, Error>(Error::Symbolic)
            } else if 0 <= self.offset <= usize::MAX {
                Ok::<usize, Error>(self.offset as usize)
            } else {
                Err::<usize, Error>(Error::Overflow)
            }),
    {
        if self.slope != 0 {
            Err(Error::Symbolic)
        } else if 0 <= self.offset && self.offset <= usize::MAX as i128 {
            Ok(self.offset as usize)
        } else {
            Err(Error::Overflow)
        }
    }

    /// The sum of two dims; `None` where it does not fit.
    pub fn plus(&self, other: &TDim) -> (r: Option<TDim>)
        ensures
            r == self.spec_plus(*other),
    {
        match (self.slope.checked_add(other.slope), self.offset.checked_add(other.offset)) {
            (Some(slope), Some(offset)) => Some(TDim { slope, offset }),
            _ => None,
        }
    }

    /// The product of two dims; `None` where both depend on the stream or
    /// the result does not fit.
    pub fn times(&self, other: &TDim) -> (r: Option<TDim>)
        ensures
            r == self.spec_times(*other),
    {
        if self.slope != 0 && other.slope != 0 {
            return None;
        }
        let left = self.slope.checked_mul(other.offset);
        let right = other.slope.checked_mul(self.offset);
        let offset = self.offset.checked_mul(other.offset);
        assert(self.slope == 0 ==> self.slope * other.offset == 0) by (nonlinear_arith);
        assert(other.slope == 0 ==> other.slope * self.offset == 0) by (nonlinear_arith);
        match (left, right, offset) {
            (Some(l), Some(r), Some(offset)) => Some(TDim { slope: l + r, offset }),
            _ => None,
        }
    }
}

/// The sum of two dims has, for every length of the stream, the sum of
/// their values.
pub proof fn lemma_plus_is_sum(a: TDim, b: TDim, s: int)
    requires
        a.spec_plus(b) is Some,
    ensures
        a.spec_plus(b).unwrap().eval(s) == a.eval(s) + b.eval(s),
{
    assert((a.slope + b.slope) * s == a.slope * s + b.slope * s) by (nonlinear_arith);
}

/// The product of two dims has, for every length of the stream, the
/// product of their values.
pub proof fn lemma_times_is_product(a: TDim, b: TDim, s: int)
    requires
        a.spec_times(b) is Some,
    ensures
        a.spec_times(b).unwrap().eval(s) == a.eval(s) * b.eval(s),
{
    let x = a.slope as int;
    let y = a.offset as int;
    let u = b.slope as int;
    let v = b.offset as int;
    assert((x * v + u * y) * s + y * v == (x * s + y) * (u * s + v)) by (nonlinear_arith)
        requires
            x == 0 || u == 0,
    ;
}

/// What can be turned into a dim.
pub trait ToDim {
    /// The dim that the value stands for.
    spec fn as_dim(&self) -> TDim;

    fn to_dim(&self) -> (d: TDim)
        ensures
            d == self.as_dim(),
    ;
}

impl ToDim for usize {
    open spec fn as_dim(&self) -> TDim {
        TDim::constant(*self as int)
    }

    fn to_dim(&self) -> TDim {
        TDim { slope: 0, offset: *self as i128 }
    }
}

impl ToDim for TDim {
    open spec fn as_dim(&self) -> TDim {
        *self
    }

    fn to_dim(&self) -> TDim {
        *self
    }
}

/// The dims that a list of values stands for.
pub open spec fn as_dims<A: ToDim>(s: Seq<A>) -> Seq<TDim> {
    Seq::new(s.len(), |i: int| s[i].as_dim())
}

/// Turns each entry of a shape into a dim.
pub fn to_dims<A: ToDim>(shape: &Vec<A>) -> (r: Vec<TDim>)
    ensures
        r@ == as_dims(shape@),
{
    let mut r: Vec<TDim> = Vec::new();
    let mut i: usize = 0;
    while i < shape.len()
        invariant
            i <= shape.len(),
            r@.len() == i,
            forall|j: int| 0 <= j < i ==> #[trigger] r@[j] == shape@[j].as_dim(),
        decreases shape.len() - i,
    {
        r.push(shape[i].to_dim());
        i += 1;
    }
    assert(r@ =~= as_dims(shape@));
    r
}

/// The product of the entries of a shape.
pub open spec fn product(s: Seq<usize>) -> nat
    decreases s.len(),
{
    if s.len() == 0 {
        1
    } else {
        s[0] as nat * product(s.drop_first())
    }
}

/// The product of `s[i..]` is `s[i]` times the product of `s[i + 1..]`,
/// and the product of nothing is one.
pub proof fn lemma_product_skip(s: Seq<usize>, i: int)
    requires
        0 <= i <= s.len(),
    ensures
        i < s.len() ==> product(s.skip(i)) == s[i] as nat * product(s.skip(i + 1)),
        i == s.len() ==> product(s.skip(i)) == 1,
        product(s.skip(0)) == product(s),
{
    if i < s.len() {
        assert(s.skip(i).drop_first() =~= s.skip(i + 1));
    }
    assert(s.skip(0) =~= s);
}

/// Every trailing part of the shape has a product that is a machine length.
pub open spec fn shape_fits(shape: Seq<usize>) -> bool {
    forall|i: int| 0 <= i <= shape.len() ==> #[trigger] product(shape.skip(i)) <= usize::MAX
}

/// The product of a shape; `None` where the product of a trailing part of
/// it is no machine length.
pub fn checked_product(shape: &Vec<usize>) -> (r: Option<usize>)
    ensures
        r is Some <==> shape_fits(shape@),
        r matches Some(p) ==> p == product(shape@),
{
    let rank = shape.len();
    let mut acc: usize = 1;
    let mut i: usize = 0;
    proof {
        lemma_product_skip(shape@, rank as int);
    }
    while i < rank
        invariant
            i <= rank,
            rank == shape@.len(),
            acc == product(shape@.skip(rank - i)),
            forall|t: int| rank - i <= t <= rank ==> #[trigger] product(shape@.skip(t)) <= usize::MAX,
        decreases rank - i,
    {
        proof {
            lemma_product_skip(shape@, rank - 1 - i);
        }
        match shape[rank - 1 - i].checked_mul(acc) {
            Some(p) => {
                acc = p;
            },
            None => {
                assert(product(shape@.skip(rank - 1 - i)) > usize::MAX);
                return None;
            },
        }
        i += 1;
    }
    proof {
        lemma_product_skip(shape@, 0);
    }
    Some(acc)
}

/// The product of a trailing part of a shape is zero, or at least the
/// product of any shorter trailing part.
pub proof fn lemma_product_skip_grows(s: Seq<usize>, j: int, i: int)
    requires
        0 <= j <= i <= s.len(),
    ensures
        product(s.skip(j)) == 0 || product(s.skip(j)) >= product(s.skip(i)),
    decreases i - j,
{
    if j < i {
        lemma_product_skip_grows(s, j + 1, i);
        lemma_product_skip(s, j);
        let rest = product(s.skip(j + 1));
        let d = s[j] as nat;
        assert(d * rest == 0 || d * rest >= rest) by (nonlinear_arith);
        assert(rest == 0 ==> d * rest == 0) by (nonlinear_arith);
    }
}

/// The product of a shape is the product of a leading part of it times the
/// product of the rest.
pub proof fn lemma_product_split(s: Seq<usize>, i: int)
    requires
        0 <= i <= s.len(),
    ensures
        product(s) == product(s.take(i)) * product(s.skip(i)),
    decreases i,
{
    if i == 0 {
        assert(s.skip(0) =~= s);
        assert(s.take(0) =~= Seq::<usize>::empty());
    } else {
        let rest = s.drop_first();
        lemma_product_split(rest, i - 1);
        assert(s.take(i).drop_first() =~= rest.take(i - 1));
        assert(s.skip(i) =~= rest.skip(i - 1));
        assert(s.take(i)[0] == s[0]);
        let a = s[0] as nat;
        let b = product(rest.take(i - 1));
        let c = product(rest.skip(i - 1));
        assert(a * (b * c) == (a * b) * c) by (nonlinear_arith);
    }
}

/// The product of `shape[from..]`; `None` where the product of a trailing
/// part of that is no machine length.
pub fn checked_product_from(shape: &Vec<usize>, from: usize) -> (r: Option<usize>)
    requires
        from <= shape@.len(),
    ensures
        r is Some <==> forall|i: int|
            from <= i <= shape@.len() ==> #[trigger] product(shape@.skip(i)) <= usize::MAX,
        r matches Some(p) ==> p == product(shape@.skip(from as int)),
{
    let rank = shape.len();
    let mut acc: usize = 1;
    let mut i: usize = rank;
    proof {
        lemma_product_skip(shape@, rank as int);
    }
    while i > from
        invariant
            from <= i <= rank,
            rank == shape@.len(),
            acc == product(shape@.skip(i as int)),
            forall|t: int| i <= t <= rank ==> #[trigger] product(shape@.skip(t)) <= usize::MAX,
        decreases i,
    {
        proof {
            lemma_product_skip(shape@, i - 1);
        }
        match shape[i - 1].checked_mul(acc) {
            Some(p) => {
                acc = p;
            },
            None => {
                assert(product(shape@.skip(i - 1)) > usize::MAX);
                return None;
            },
        }
        i -= 1;
    }
    Some(acc)
}

/// A copy of a shape, entry by entry.
pub fn dup_shape<D: DimLike>(shape: &Vec<D>) -> (r: Vec<D>)
    ensures
        r@ == shape@,
{
    let mut r: Vec<D> = Vec::new();
    let mut i: usize = 0;
    while i < shape.len()
        invariant
            i <= shape.len(),
            r@ == shape@.take(i as int),
        decreases shape.len() - i,
    {
        r.push(shape[i].dup());
        i += 1;
    }
    assert(shape@.take(shape@.len() as int) == shape@);
    r
}

/// The first `n` entries of a shape.
pub fn dup_prefix<D: DimLike>(shape: &Vec<D>, n: usize) -> (r: Vec<D>)
    requires
        n <= shape@.len(),
    ensures
        r@ == shape@.take(n as int),
{
    let mut r: Vec<D> = Vec::new();
    let mut i: usize = 0;
    while i < n
        invariant
            i <= n <= shape.len(),
            r@ == shape@.take(i as int),
        decreases n - i,
    {
        r.push(shape[i].dup());
        i += 1;
    }
    r
}

} // verus!
