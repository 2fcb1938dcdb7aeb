use vstd::prelude::*;
use crate::datum::DatumType;
use crate::dim::{dup_shape, to_dims, as_dims, TDim};
use crate::error::Error;
use crate::tensor::{Tensor, TensorView};

verus! {

/// What is fully known of a wire: its element type, its shape in dims that
/// may depend on the stream, and its value where it is constant.
#[derive(Debug)]
pub struct TypedFact {
    pub datum_type: DatumType,
    pub shape: Vec<TDim>,
    pub konst: Option<Tensor>,
}

/// What a typed fact holds.
pub struct TypedFactView {
    pub datum_type: DatumType,
    pub shape: Seq<TDim>,
    pub konst: Option<TensorView>,
}

/// What an optional tensor holds.
pub open spec fn konst_view(konst: Option<Tensor>) -> Option<TensorView> {
    match konst {
        Some(t) => Some(t@),
        None => None,
    }
}

impl View for TypedFact {
    type V = TypedFactView;

    open spec fn view(&self) -> TypedFactView {
        TypedFactView {
            datum_type: self.datum_type,
            shape: self.shape@,
            konst: konst_view(self.konst),
        }
    }
}

impl TypedFactView {
    /// The fact of a wire of the given type and shape whose value is not
    /// known.
    pub open spec fn dt_shape(datum_type: DatumType, shape: Seq<TDim>) -> TypedFactView {
        TypedFactView { datum_type, shape, konst: None }
    }

    /// The fact of a wire that always carries `t`.
    pub open spec fn of_tensor(t: TensorView) -> TypedFactView {
        TypedFactView { datum_type: t.datum_type, shape: as_dims(t.shape), konst: Some(t) }
    }
}

impl TypedFact {
    /// The fact of a wire of the given type and shape whose value is not
    /// known.
    pub fn dt_shape(datum_type: DatumType, shape: &Vec<TDim>) -> (r: TypedFact)
        ensures
            r@ == TypedFactView::dt_shape(datum_type, shape@),
    {
        TypedFact { datum_type, shape: dup_shape(shape), konst: None }
    }

    /// The fact of a wire that always carries `t`.
    pub fn of_tensor(t: &Tensor) -> (r: TypedFact)
        ensures
            r@ == TypedFactView::of_tensor(t@),
    {
        TypedFact { datum_type: t.datum_type(), shape: to_dims(t.shape()), konst: Some(t.dup()) }
    }

    /// The number of axes.
    pub fn rank(&self) -> (r: usize)
        ensures
            r == self@.shape.len(),
    {
        self.shape.len()
    }

    /// A copy of the fact.
    pub fn dup(&self) -> (r: TypedFact)
        ensures
            r@ == self@,
    {
        let konst = match &self.konst {
            Some(t) => Some(t.dup()),
            None => None,
        };
        TypedFact { datum_type: self.datum_type, shape: dup_shape(&self.shape), konst }
    }

    /// The shape in integers, where no dim depends on the stream and each
    /// is a machine length.
    pub fn as_finite(&self) -> (r: Option<Vec<usize>>)
        ensures
            r is Some <==> is_finite(self@.shape),
            r matches Some(s) ==> as_dims(s@) == self@.shape && s@ == finite_dims(self@.shape),
    {
        let mut out: Vec<usize> = Vec::new();
        let mut i: usize = 0;
        while i < self.shape.len()
            invariant
                i <= self.shape.len(),
                out@.len() == i,
                forall|j: int|
                    0 <= j < i ==> (#[trigger] self.shape@[j]).slope == 0 && 0
                        <= self.shape@[j].offset <= usize::MAX && out@[j] == self.shape@[j].offset,
            decreases self.shape.len() - i,
        {
            match self.shape[i].to_usize() {
                Ok(d) => {
                    out.push(d);
                },
                Err(_) => {
                    return None;
                },
            }
            i += 1;
        }
        assert(as_dims(out@) =~= self@.shape);
        assert(out@ =~= finite_dims(self@.shape));
        Some(out)
    }
}

/// The lengths that the dims of a finite shape stand for.
pub open spec fn finite_dims(shape: Seq<TDim>) -> Seq<usize> {
    Seq::new(shape.len(), |i: int| shape[i].offset as usize)
}

/// No dim of the shape depends on the stream, and each is a machine length.
pub open spec fn is_finite(shape: Seq<TDim>) -> bool {
    forall|i: int|
        0 <= i < shape.len() ==> (#[trigger] shape[i]).slope == 0 && 0 <= shape[i].offset
            <= usize::MAX
}

/// What is known of a wire of a streaming graph: one pulse of it has the
/// given shape, `axis` is the streaming axis, `dim` the length of the whole
/// stream along it, and `delay` the number of positions by which the wire
/// lags behind the input.
#[derive(Debug)]
pub struct PulsedFact {
    pub datum_type: DatumType,
    pub shape: Vec<usize>,
    pub axis: usize,
    pub dim: TDim,
    pub delay: usize,
}

/// What a pulsed fact holds.
pub struct PulsedFactView {
    pub datum_type: DatumType,
    pub shape: Seq<usize>,
    pub axis: usize,
    pub dim: TDim,
    pub delay: usize,
}

impl View for PulsedFact {
    type V = PulsedFactView;

    open spec fn view(&self) -> PulsedFactView {
        PulsedFactView {
            datum_type: self.datum_type,
            shape: self.shape@,
            axis: self.axis,
            dim: self.dim,
            delay: self.delay,
        }
    }
}

impl PulsedFact {
    /// A copy of the fact.
    pub fn dup(&self) -> (r: PulsedFact)
        ensures
            r@ == self@,
    {
        PulsedFact {
            datum_type: self.datum_type,
            shape: dup_shape(&self.shape),
            axis: self.axis,
            dim: self.dim,
            delay: self.delay,
        }
    }

    /// The width of one pulse: the dim of the streaming axis.
    pub fn pulse(&self) -> (r: usize)
        requires
            self@.axis < self@.shape.len(),
        ensures
            r == self@.shape[self@.axis as int],
    {
        self.shape[self.axis]
    }
}

/// What an optional shape of optional dims holds.
pub open spec fn shape_view(shape: Option<Vec<Option<TDim>>>) -> Option<Seq<Option<TDim>>> {
    match shape {
        Some(s) => Some(s@),
        None => None,
    }
}

/// What inference knows of a wire so far: the element type or not, the rank
/// or not, and where the rank is known, each dim or not.
#[derive(Debug)]
pub struct InferenceFact {
    pub datum_type: Option<DatumType>,
    pub shape: Option<Vec<Option<TDim>>>,
}

/// What an inference fact holds.
pub struct InferenceFactView {
    pub datum_type: Option<DatumType>,
    pub shape: Option<Seq<Option<TDim>>>,
}

impl View for InferenceFact {
    type V = InferenceFactView;

    open spec fn view(&self) -> InferenceFactView {
        InferenceFactView { datum_type: self.datum_type, shape: shape_view(self.shape) }
    }
}

/// The dims of a shape of which every dim is known.
pub open spec fn known_dims(shape: Seq<Option<TDim>>) -> Seq<TDim> {
    Seq::new(shape.len(), |i: int| shape[i].unwrap())
}

/// A shape of which every dim is known.
pub open spec fn all_known(shape: Seq<TDim>) -> Seq<Option<TDim>> {
    Seq::new(shape.len(), |i: int| Some(shape[i]))
}

/// A shape of the given rank of which no dim is known.
pub open spec fn none_known(rank: nat) -> Seq<Option<TDim>> {
    Seq::new(rank, |i: int| None::<TDim>)
}

/// Every dim of the shape is known.
pub open spec fn is_concrete(shape: Seq<Option<TDim>>) -> bool {
    forall|i: int| 0 <= i < shape.len() ==> (#[trigger] shape[i]) is Some
}

/// What two statements on one element type say together.
pub open spec fn merged_type(a: Option<DatumType>, b: Option<DatumType>) -> Result<
    Option<DatumType>,
    Error,
> {
    match (a, b) {
        (Some(x), Some(y)) => if x == y {
            Ok(a)
        } else {
            Err(Error::TypeMismatch)
        },
        (Some(_), None) => Ok(a),
        _ => Ok(b),
    }
}

/// Two statements on one dim do not contradict each other.
pub open spec fn dims_unify(a: Option<TDim>, b: Option<TDim>) -> bool {
    a is None || b is None || a == b
}

/// What two statements on one dim say together.
pub open spec fn merged_dim(a: Option<TDim>, b: Option<TDim>) -> Option<TDim> {
    if a is Some {
        a
    } else {
        b
    }
}

/// What two statements on the dims of one shape say together:
/// `RankMismatch` where the ranks differ, else `DimMismatch` where some dim
/// is known as two values.
pub open spec fn merged_dims(x: Seq<Option<TDim>>, y: Seq<Option<TDim>>) -> Result<
    Seq<Option<TDim>>,
    Error,
> {
    if x.len() != y.len() {
        Err(Error::RankMismatch)
    } else if !(forall|i: int| 0 <= i < x.len() ==> dims_unify(#[trigger] x[i], y[i])) {
        Err(Error::DimMismatch)
    } else {
        Ok(Seq::new(x.len(), |i: int| merged_dim(x[i], y[i])))
    }
}

/// What two statements on one shape say together.
pub open spec fn merged_shape(a: Option<Seq<Option<TDim>>>, b: Option<Seq<Option<TDim>>>) -> Result<
    Option<Seq<Option<TDim>>>,
    Error,
> {
    match (a, b) {
        (Some(x), Some(y)) => match merged_dims(x, y) {
            Ok(s) => Ok(Some(s)),
            Err(e) => Err(e),
        },
        (Some(_), None) => Ok(a),
        _ => Ok(b),
    }
}

/// Merges two statements on one element type.
pub fn unify_type(a: Option<DatumType>, b: Option<DatumType>) -> (r: Result<
    Option<DatumType>,
    Error,
>)
    ensures
        r == merged_type(a, b),
{
    match (a, b) {
        (Some(x), Some(y)) => if x == y {
            Ok(a)
        } else {
            Err(Error::TypeMismatch)
        },
        (Some(_), None) => Ok(a),
        _ => Ok(b),
    }
}

/// A copy of a shape of optional dims.
pub fn dup_dims(shape: &Vec<Option<TDim>>) -> (r: Vec<Option<TDim>>)
    ensures
        r@ == shape@,
{
    let mut r: Vec<Option<TDim>> = Vec::new();
    let mut i: usize = 0;
    while i < shape.len()
        invariant
            i <= shape.len(),
            r@ == shape@.take(i as int),
        decreases shape.len() - i,
    {
        r.push(shape[i]);
        i += 1;
    }
    assert(shape@.take(shape@.len() as int) == shape@);
    r
}

/// A copy of an optional shape of optional dims.
pub fn dup_shape_fact(shape: &Option<Vec<Option<TDim>>>) -> (r: Option<Vec<Option<TDim>>>)
    ensures
        shape_view(r) == shape_view(*shape),
{
    match shape {
        Some(s) => Some(dup_dims(s)),
        None => None,
    }
}

/// What a result that holds a shape of optional dims says.
pub open spec fn dims_result_view(r: Result<Vec<Option<TDim>>, Error>) -> Result<
    Seq<Option<TDim>>,
    Error,
> {
    match r {
        Ok(s) => Ok(s@),
        Err(e) => Err(e),
    }
}

/// What a result that holds an optional shape of optional dims says.
pub open spec fn shape_result_view(r: Result<Option<Vec<Option<TDim>>>, Error>) -> Result<
    Option<Seq<Option<TDim>>>,
    Error,
> {
    match r {
        Ok(s) => Ok(shape_view(s)),
        Err(e) => Err(e),
    }
}

/// Merges two statements on the dims of one shape.
pub fn unify_dims(x: &Vec<Option<TDim>>, y: &Vec<Option<TDim>>) -> (r: Result<
    Vec<Option<TDim>>,
    Error,
>)
    ensures
        dims_result_view(r) == merged_dims(x@, y@),
{
    if x.len() != y.len() {
        return Err(Error::RankMismatch);
    }
    let mut out: Vec<Option<TDim>> = Vec::new();
    let mut i: usize = 0;
    while i < x.len()
        invariant
            i <= x.len(),
            x.len() == y.len(),
            out@.len() == i,
            forall|j: int| 0 <= j < i ==> dims_unify(#[trigger] x@[j], y@[j]),
            forall|j: int| 0 <= j < i ==> #[trigger] out@[j] == merged_dim(x@[j], y@[j]),
        decreases x.len() - i,
    {
        let d = match (x[i], y[i]) {
            (Some(p), Some(q)) => {
                if p.slope != q.slope || p.offset != q.offset {
                    assert(!dims_unify(x@[i as int], y@[i as int]));
                    return Err(Error::DimMismatch);
                }
                Some(p)
            },
            (Some(p), None) => Some(p),
            (None, q) => q,
        };
        out.push(d);
        i += 1;
    }
    assert(out@ =~= Seq::new(x@.len(), |i: int| merged_dim(x@[i], y@[i])));
    Ok(out)
}

/// Merges two statements on one shape.
pub fn unify_shape(a: &Option<Vec<Option<TDim>>>, b: &Option<Vec<Option<TDim>>>) -> (r: Result<
    Option<Vec<Option<TDim>>>,
    Error,
>)
    ensures
        shape_result_view(r) == merged_shape(shape_view(*a), shape_view(*b)),
{
    match (a, b) {
        (Some(x), Some(y)) => match unify_dims(x, y) {
            Ok(s) => Ok(Some(s)),
            Err(e) => Err(e),
        },
        (Some(x), None) => Ok(Some(dup_dims(x))),
        (None, _) => Ok(dup_shape_fact(b)),
    }
}

/// The dims of a shape, where every one of them is known.
pub fn concrete_dims(shape: &Vec<Option<TDim>>) -> (r: Option<Vec<TDim>>)
    ensures
        r is Some <==> is_concrete(shape@),
        r matches Some(s) ==> s@ == known_dims(shape@),
{
    let mut out: Vec<TDim> = Vec::new();
    let mut i: usize = 0;
    while i < shape.len()
        invariant
            i <= shape.len(),
            out@.len() == i,
            forall|j: int| 0 <= j < i ==> (#[trigger] shape@[j]) is Some,
            forall|j: int| 0 <= j < i ==> #[trigger] out@[j] == shape@[j].unwrap(),
        decreases shape.len() - i,
    {
        match shape[i] {
            Some(d) => {
                out.push(d);
            },
            None => {
                return None;
            },
        }
        i += 1;
    }
    assert(out@ =~= known_dims(shape@));
    Some(out)
}

/// A shape of which every dim is known, as inference holds it.
pub fn known_shape(shape: &Vec<TDim>) -> (r: Vec<Option<TDim>>)
    ensures
        r@ == all_known(shape@),
{
    let mut out: Vec<Option<TDim>> = Vec::new();
    let mut i: usize = 0;
    while i < shape.len()
        invariant
            i <= shape.len(),
            out@.len() == i,
            forall|j: int| 0 <= j < i ==> #[trigger] out@[j] == Some(shape@[j]),
        decreases shape.len() - i,
    {
        out.push(Some(shape[i]));
        i += 1;
    }
    assert(out@ =~= all_known(shape@));
    out
}

/// A shape of the given rank of which no dim is known.
pub fn unknown_shape(rank: usize) -> (r: Vec<Option<TDim>>)
    ensures
        r@ == none_known(rank as nat),
{
    let mut out: Vec<Option<TDim>> = Vec::new();
    let mut i: usize = 0;
    while i < rank
        invariant
            i <= rank,
            out@.len() == i,
            forall|j: int| 0 <= j < i ==> (#[trigger] out@[j]) is None,
        decreases rank - i,
    {
        out.push(None);
        i += 1;
    }
    assert(out@ =~= none_known(rank as nat));
    out
}

} // verus!
