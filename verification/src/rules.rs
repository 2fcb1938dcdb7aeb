use vstd::prelude::*;
use crate::add_dims::{add_axes, can_add, AddDims};
use crate::datum::DatumType;
use crate::dim::{DimLike, TDim};
use crate::error::Error;
use crate::fact::{
    all_known, concrete_dims, dup_shape_fact, is_concrete, known_dims, known_shape, merged_dim,
    merged_dims, merged_shape, merged_type, none_known, shape_result_view, shape_view, unify_shape,
    unify_type, unknown_shape, InferenceFact, InferenceFactView,
};
use crate::matmul::MatMul;
use crate::model::facts_view;
use crate::rm_dims::{rm_axes, RmDims};
use crate::shapes::{final_c_shape, infer_shapes, shape_error, shapes_agree};

verus! {

/// What inference knows of the inputs and of the outputs of a node.
pub struct Knowledge {
    pub inputs: Seq<InferenceFactView>,
    pub outputs: Seq<InferenceFactView>,
}

/// What a result of inference says.
pub open spec fn knowledge_view(
    r: Result<(Vec<InferenceFact>, Vec<InferenceFact>), Error>,
) -> Result<
    Knowledge,
    Error,
> {
    match r {
        Ok((inputs, outputs)) => Ok(
            Knowledge { inputs: facts_view(inputs@), outputs: facts_view(outputs@) },
        ),
        Err(e) => Err(e),
    }
}

/// What is known of a shape once its rank is known to be `rank`:
/// `RankMismatch` where another rank was known.
pub open spec fn shape_of_rank(shape: Option<Seq<Option<TDim>>>, rank: nat) -> Result<
    Option<Seq<Option<TDim>>>,
    Error,
> {
    merged_shape(shape, Some(none_known(rank)))
}

/// What is known of the shapes of an input and an output of which the
/// output has `more` axes more than the input, or `less` fewer: the rank
/// that is known of one gives the rank of the other. `Overflow` where a rank
/// with the axes to add is no machine length, else `RankMismatch` where the
/// known ranks do not fit.
pub open spec fn ranks_related(
    input: Option<Seq<Option<TDim>>>,
    output: Option<Seq<Option<TDim>>>,
    more: nat,
    less: nat,
) -> Result<(Option<Seq<Option<TDim>>>, Option<Seq<Option<TDim>>>), Error> {
    match (input, output) {
        (Some(i), _) => if i.len() + more > usize::MAX {
            Err(Error::Overflow)
        } else if i.len() + more < less {
            Err(Error::RankMismatch)
        } else {
            match shape_of_rank(output, (i.len() + more - less) as nat) {
                Ok(o) => Ok((input, o)),
                Err(e) => Err(e),
            }
        },
        (None, Some(o)) => if o.len() + less > usize::MAX {
            Err(Error::Overflow)
        } else if o.len() + less < more {
            Err(Error::RankMismatch)
        } else {
            Ok((Some(none_known((o.len() + less - more) as nat)), output))
        },
        (None, None) => Ok((input, output)),
    }
}

/// What a result that holds two shapes says.
pub open spec fn shapes_result_view(
    r: Result<(Option<Vec<Option<TDim>>>, Option<Vec<Option<TDim>>>), Error>,
) -> Result<(Option<Seq<Option<TDim>>>, Option<Seq<Option<TDim>>>), Error> {
    match r {
        Ok((a, b)) => Ok((shape_view(a), shape_view(b))),
        Err(e) => Err(e),
    }
}

/// Relates the ranks of an input and an output: see `ranks_related`.
pub fn relate_ranks(
    input: &Option<Vec<Option<TDim>>>,
    output: &Option<Vec<Option<TDim>>>,
    more: usize,
    less: usize,
) -> (r:
    Result<(Option<Vec<Option<TDim>>>, Option<Vec<Option<TDim>>>), Error>)
    ensures
        shapes_result_view(r) == ranks_related(
            shape_view(*input),
            shape_view(*output),
            more as nat,
            less as nat,
        ),
{
    match (input, output) {
        (Some(i), _) => {
            let rank = match i.len().checked_add(more) {
                Some(r) => r,
                None => {
                    return Err(Error::Overflow);
                },
            };
            if rank < less {
                return Err(Error::RankMismatch);
            }
            match unify_shape(output, &Some(unknown_shape(rank - less))) {
                Ok(o) => Ok((Some(crate::fact::dup_dims(i)), o)),
                Err(e) => Err(e),
            }
        },
        (None, Some(o)) => {
            let rank = match o.len().checked_add(less) {
                Some(r) => r,
                None => {
                    return Err(Error::Overflow);
                },
            };
            if rank < more {
                return Err(Error::RankMismatch);
            }
            Ok((Some(unknown_shape(rank - more)), Some(crate::fact::dup_dims(o))))
        },
        (None, None) => Ok((None, None)),
    }
}

/// What a node that adds or takes out axes lets inference know: the input
/// and the output have one element type; their ranks are related; and where
/// the shape of the input is wholly known, the shape of the output is
/// `computed` of it, or the node is at fault with `AxisOutOfRange` where it
/// is not `applicable` to that shape.
pub open spec fn axes_rules(
    input: InferenceFactView,
    output: InferenceFactView,
    more: nat,
    less: nat,
    applicable: spec_fn(Seq<TDim>) -> bool,
    computed: spec_fn(Seq<TDim>) -> Seq<TDim>,
) -> Result<(InferenceFactView, InferenceFactView), Error> {
    match merged_type(input.datum_type, output.datum_type) {
        Err(e) => Err(e),
        Ok(datum_type) => match ranks_related(input.shape, output.shape, more, less) {
            Err(e) => Err(e),
            Ok((i, o)) => {
                let shape = if i is Some && is_concrete(i.unwrap()) {
                    if applicable(known_dims(i.unwrap())) {
                        merged_shape(o, Some(all_known(computed(known_dims(i.unwrap())))))
                    } else {
                        Err(Error::AxisOutOfRange)
                    }
                } else {
                    Ok(o)
                };
                match shape {
                    Err(e) => Err(e),
                    Ok(s) => Ok(
                        (
                            InferenceFactView { datum_type, shape: i },
                            InferenceFactView { datum_type, shape: s },
                        ),
                    ),
                }
            },
        },
    }
}

/// The knowledge of a node once its first input and its only output are
/// known as `refined` says.
pub open spec fn refined_knowledge(
    inputs: Seq<InferenceFactView>,
    refined: Result<(InferenceFactView, InferenceFactView), Error>,
) -> Result<Knowledge, Error> {
    match refined {
        Ok((i, o)) => Ok(Knowledge { inputs: inputs.update(0, i), outputs: seq![o] }),
        Err(e) => Err(e),
    }
}

/// A copy of a list of inference facts with the first one replaced.
fn with_first(facts: &Vec<InferenceFact>, first: InferenceFact) -> (r: Vec<InferenceFact>)
    requires
        facts@.len() > 0,
    ensures
        facts_view(r@) == facts_view(facts@).update(0, first@),
{
    let mut out: Vec<InferenceFact> = Vec::new();
    out.push(first);
    let mut i: usize = 1;
    while i < facts.len()
        invariant
            1 <= i <= facts.len(),
            out@.len() == i,
            out@[0]@ == first@,
            forall|j: int| 1 <= j < i ==> (#[trigger] out@[j])@ == facts@[j]@,
        decreases facts.len() - i,
    {
        out.push(
            InferenceFact {
                datum_type: facts[i].datum_type,
                shape: dup_shape_fact(&facts[i].shape),
            },
        );
        i += 1;
    }
    assert(facts_view(out@) =~= facts_view(facts@).update(0, first@));
    out
}

impl AddDims {
    /// What the operator lets inference know of its input and its output:
    /// they have one element type; the output has one axis more for each
    /// axis that the operator adds; and where the shape of the input is
    /// wholly known, the shape of the output is the output shape for it.
    /// `Arity` unless there is an input and exactly one output, else the
    /// first contradiction that is found: `TypeMismatch`, `RankMismatch`,
    /// `AxisOutOfRange` where the operator cannot be applied to the rank of
    /// the input, or `DimMismatch`.
    pub fn rules(&self, inputs: &Vec<InferenceFact>, outputs: &Vec<InferenceFact>) -> (r: Result<
        (Vec<InferenceFact>, Vec<InferenceFact>),
        Error,
    >)
        ensures
            knowledge_view(r) == (if inputs@.len() < 1 || outputs@.len() != 1 {
                Err(Error::Arity)
            } else {
                refined_knowledge(
                    facts_view(inputs@),
                    axes_rules(
                        inputs@[0]@,
                        outputs@[0]@,
                        self.axes@.len(),
                        0,
                        |shape: Seq<TDim>| can_add(shape.len(), self.axes@),
                        |shape: Seq<TDim>| add_axes(shape, self.axes@),
                    ),
                )
            }),
    {
        if inputs.len() < 1 || outputs.len() != 1 {
            return Err(Error::Arity);
        }
        let input = &inputs[0];
        let output = &outputs[0];
        assert(facts_view(inputs@)[0] == input@);
        let datum_type = match unify_type(input.datum_type, output.datum_type) {
            Ok(t) => t,
            Err(e) => {
                return Err(e);
            },
        };
        let (i, o) = match relate_ranks(&input.shape, &output.shape, self.axes.len(), 0) {
            Ok(s) => s,
            Err(e) => {
                return Err(e);
            },
        };
        let computed = match &i {
            Some(s) => match concrete_dims(s) {
                Some(dims) => {
                    if !self.admits_rank(dims.len()) {
                        return Err(Error::AxisOutOfRange);
                    }
                    Some(known_shape(&self.compute_shape(&dims)))
                },
                None => None,
            },
            None => None,
        };
        let shape = match computed {
            Some(c) => match unify_shape(&o, &Some(c)) {
                Ok(s) => s,
                Err(e) => {
                    return Err(e);
                },
            },
            None => o,
        };
        let mut outs: Vec<InferenceFact> = Vec::new();
        outs.push(InferenceFact { datum_type, shape });
        let ins = with_first(inputs, InferenceFact { datum_type, shape: i });
        assert(facts_view(outs@) =~= seq![outs@[0]@]);
        Ok((ins, outs))
    }
}

/// The shape with the dim at each of `axes` known to be one:
/// `AxisOutOfRange` where the shape has no such axis, `DimMismatch` where
/// the dim is known to be something else.
pub open spec fn unit_axes(shape: Seq<Option<TDim>>, axes: Seq<usize>) -> Result<
    Seq<Option<TDim>>,
    Error,
>
    decreases axes.len(),
{
    if axes.len() == 0 {
        Ok(shape)
    } else {
        match unit_axes(shape, axes.drop_last()) {
            Err(e) => Err(e),
            Ok(s) => {
                let a = axes.last() as int;
                if a >= s.len() {
                    Err(Error::AxisOutOfRange)
                } else if s[a] is Some && s[a] != Some(TDim::unit()) {
                    Err(Error::DimMismatch)
                } else {
                    Ok(s.update(a, Some(TDim::unit())))
                }
            },
        }
    }
}

/// Once the first axes cannot be of length one, more axes cannot either.
proof fn lemma_unit_axes_error(shape: Seq<Option<TDim>>, axes: Seq<usize>, at: int)
    requires
        0 <= at <= axes.len(),
        unit_axes(shape, axes.take(at)) is Err,
    ensures
        unit_axes(shape, axes) == unit_axes(shape, axes.take(at)),
    decreases axes.len() - at,
{
    if at < axes.len() {
        assert(axes.take(at + 1).drop_last() =~= axes.take(at));
        lemma_unit_axes_error(shape, axes, at + 1);
    } else {
        assert(axes.take(at) =~= axes);
    }
}

/// What a result that holds a shape of optional dims says.
pub open spec fn dims_view(
    r: Result<Vec<Option<TDim>>, Error>,
) -> Result<Seq<Option<TDim>>, Error> {
    match r {
        Ok(s) => Ok(s@),
        Err(e) => Err(e),
    }
}

/// Computes `unit_axes`.
fn set_unit_axes(
    shape: &Vec<Option<TDim>>,
    axes: &Vec<usize>,
) -> (r: Result<Vec<Option<TDim>>, Error>)
    ensures
        dims_view(r) == unit_axes(shape@, axes@),
{
    let mut cur = crate::fact::dup_dims(shape);
    let mut i: usize = 0;
    assert(axes@.take(0) =~= Seq::<usize>::empty());
    while i < axes.len()
        invariant
            i <= axes.len(),
            Ok::<Seq<Option<TDim>>, Error>(cur@) == unit_axes(shape@, axes@.take(i as int)),
        decreases axes.len() - i,
    {
        proof {
            assert(axes@.take(i + 1).drop_last() =~= axes@.take(i as int));
        }
        let a = axes[i];
        if a >= cur.len() {
            proof {
                lemma_unit_axes_error(shape@, axes@, i + 1);
            }
            return Err(Error::AxisOutOfRange);
        }
        match cur[a] {
            Some(d) => {
                if d.slope != 0 || d.offset != 1 {
                    proof {
                        lemma_unit_axes_error(shape@, axes@, i + 1);
                    }
                    return Err(Error::DimMismatch);
                }
            },
            None => {},
        }
        cur.set(a, Some(TDim::one()));
        i += 1;
    }
    assert(axes@.take(axes@.len() as int) =~= axes@);
    Ok(cur)
}

/// What the operator that takes out `axes` lets inference know of an input
/// and an output.
pub open spec fn rm_rules(
    input: InferenceFactView,
    output: InferenceFactView,
    axes: Seq<usize>,
) -> Result<
    (InferenceFactView, InferenceFactView),
    Error,
> {
    match merged_type(input.datum_type, output.datum_type) {
        Err(e) => Err(e),
        Ok(datum_type) => match ranks_related(input.shape, output.shape, 0, axes.len()) {
            Err(e) => Err(e),
            Ok((i, o)) => {
                let units = match i {
                    Some(s) => match unit_axes(s, axes) {
                        Ok(u) => Ok(Some(u)),
                        Err(e) => Err(e),
                    },
                    None => Ok(None),
                };
                match units {
                    Err(e) => Err(e),
                    Ok(u) => {
                        let shape = if u is Some && is_concrete(u.unwrap()) {
                            merged_shape(
                                o,
                                Some(all_known(rm_axes(known_dims(u.unwrap()), axes))),
                            )
                        } else {
                            Ok(o)
                        };
                        match shape {
                            Err(e) => Err(e),
                            Ok(s) => Ok(
                                (
                                    InferenceFactView { datum_type, shape: u },
                                    InferenceFactView { datum_type, shape: s },
                                ),
                            ),
                        }
                    },
                }
            },
        },
    }
}

impl RmDims {
    /// What the operator lets inference know of its input and its output:
    /// they have one element type; the output has one axis fewer for each
    /// axis that the operator takes out; each of those axes of the input has
    /// length one; and where the shape of the input is wholly known, the
    /// shape of the output is the output shape for it. `Arity` unless there
    /// is an input and exactly one output, else the first contradiction that
    /// is found: `TypeMismatch`, `RankMismatch`, `AxisOutOfRange` where the
    /// input has no axis to take out, or `DimMismatch`.
    pub fn rules(&self, inputs: &Vec<InferenceFact>, outputs: &Vec<InferenceFact>) -> (r: Result<
        (Vec<InferenceFact>, Vec<InferenceFact>),
        Error,
    >)
        ensures
            knowledge_view(r) == (if inputs@.len() < 1 || outputs@.len() != 1 {
                Err(Error::Arity)
            } else {
                refined_knowledge(
                    facts_view(inputs@),
                    rm_rules(inputs@[0]@, outputs@[0]@, self.axes@),
                )
            }),
    {
        if inputs.len() < 1 || outputs.len() != 1 {
            return Err(Error::Arity);
        }
        let input = &inputs[0];
        let output = &outputs[0];
        assert(facts_view(inputs@)[0] == input@);
        let datum_type = match unify_type(input.datum_type, output.datum_type) {
            Ok(t) => t,
            Err(e) => {
                return Err(e);
            },
        };
        let (i, o) = match relate_ranks(&input.shape, &output.shape, 0, self.axes.len()) {
            Ok(s) => s,
            Err(e) => {
                return Err(e);
            },
        };
        let units = match &i {
            Some(s) => match set_unit_axes(s, &self.axes) {
                Ok(u) => Some(u),
                Err(e) => {
                    return Err(e);
                },
            },
            None => None,
        };
        let computed = match &units {
            Some(s) => match concrete_dims(s) {
                Some(dims) => Some(known_shape(&self.compute_shape(&dims))),
                None => None,
            },
            None => None,
        };
        let shape = match computed {
            Some(c) => match unify_shape(&o, &Some(c)) {
                Ok(s) => s,
                Err(e) => {
                    return Err(e);
                },
            },
            None => o,
        };
        let mut outs: Vec<InferenceFact> = Vec::new();
        outs.push(InferenceFact { datum_type, shape });
        let ins = with_first(inputs, InferenceFact { datum_type, shape: units });
        assert(facts_view(outs@) =~= seq![outs@[0]@]);
        Ok((ins, outs))
    }
}

/// What a product lets inference know of the element types of its operands
/// and of its result: the operands have one type; the result has the type
/// that the quantization names, else the type of the operands.
pub open spec fn product_types(
    a: Option<DatumType>,
    b: Option<DatumType>,
    c: Option<DatumType>,
    q_type: Option<DatumType>,
) -> Result<(Option<DatumType>, Option<DatumType>), Error> {
    match merged_type(a, b) {
        Err(e) => Err(e),
        Ok(operands) => match q_type {
            Some(t) => match merged_type(c, Some(t)) {
                Ok(result) => Ok((operands, result)),
                Err(e) => Err(e),
            },
            None => match merged_type(operands, c) {
                Ok(all) => Ok((all, all)),
                Err(e) => Err(e),
            },
        },
    }
}

/// What a product lets inference know of its operands and its result: see
/// `product_types`; and where the shapes of both operands are wholly known,
/// the shape of the result is the product shape as the caller sees it.
pub open spec fn product_rules(
    op: MatMul,
    a: InferenceFactView,
    b: InferenceFactView,
    c: InferenceFactView,
) -> Result<Knowledge, Error> {
    let q_type = match op.q_params {
        Some(q) => Some(q.c_datum_type),
        None => None,
    };
    match product_types(a.datum_type, b.datum_type, c.datum_type, q_type) {
        Err(e) => Err(e),
        Ok((operands, result)) => {
            let shape = if a.shape is Some && b.shape is Some && is_concrete(a.shape.unwrap())
                && is_concrete(b.shape.unwrap()) {
                let sa = known_dims(a.shape.unwrap());
                let sb = known_dims(b.shape.unwrap());
                if shapes_agree(sa, sb, op.a_trans, op.b_trans) {
                    merged_shape(
                        c.shape,
                        Some(all_known(final_c_shape(sa, sb, op.a_trans, op.b_trans, op.c_trans))),
                    )
                } else {
                    Err(shape_error(sa, sb, op.a_trans, op.b_trans))
                }
            } else {
                Ok(c.shape)
            };
            match shape {
                Err(e) => Err(e),
                Ok(s) => Ok(
                    Knowledge {
                        inputs: seq![
                            InferenceFactView { datum_type: operands, shape: a.shape },
                            InferenceFactView { datum_type: operands, shape: b.shape },
                        ],
                        outputs: seq![InferenceFactView { datum_type: result, shape: s }],
                    },
                ),
            }
        },
    }
}

impl MatMul {
    /// What the product lets inference know of its operands and its result:
    /// see `product_rules`. `Arity` unless there are exactly two inputs and
    /// one output, else the first contradiction that is found:
    /// `TypeMismatch`, the error of `infer_shapes`, `RankMismatch` or
    /// `DimMismatch`.
    pub fn rules(&self, inputs: &Vec<InferenceFact>, outputs: &Vec<InferenceFact>) -> (r: Result<
        (Vec<InferenceFact>, Vec<InferenceFact>),
        Error,
    >)
        ensures
            knowledge_view(r) == (if inputs@.len() != 2 || outputs@.len() != 1 {
                Err(Error::Arity)
            } else {
                product_rules(*self, inputs@[0]@, inputs@[1]@, outputs@[0]@)
            }),
    {
        if inputs.len() != 2 || outputs.len() != 1 {
            return Err(Error::Arity);
        }
        let a = &inputs[0];
        let b = &inputs[1];
        let c = &outputs[0];
        let operands = match unify_type(a.datum_type, b.datum_type) {
            Ok(t) => t,
            Err(e) => {
                return Err(e);
            },
        };
        let (operands, result) = match &self.q_params {
            Some(q) => match unify_type(c.datum_type, Some(q.c_datum_type)) {
                Ok(t) => (operands, t),
                Err(e) => {
                    return Err(e);
                },
            },
            None => match unify_type(operands, c.datum_type) {
                Ok(t) => (t, t),
                Err(e) => {
                    return Err(e);
                },
            },
        };
        let known = match (&a.shape, &b.shape) {
            (Some(sa), Some(sb)) => match (concrete_dims(sa), concrete_dims(sb)) {
                (Some(da), Some(db)) => Some((da, db)),
                _ => None,
            },
            _ => None,
        };
        let shape = match known {
            Some((da, db)) => {
                let cshape = match infer_shapes(da, db, self.a_trans, self.b_trans, self.c_trans) {
                    Ok(s) => s.3,
                    Err(e) => {
                        return Err(e);
                    },
                };
                match unify_shape(&c.shape, &Some(known_shape(&cshape))) {
                    Ok(s) => s,
                    Err(e) => {
                        return Err(e);
                    },
                }
            },
            None => dup_shape_fact(&c.shape),
        };
        let mut ins: Vec<InferenceFact> = Vec::new();
        ins.push(InferenceFact { datum_type: operands, shape: dup_shape_fact(&a.shape) });
        ins.push(InferenceFact { datum_type: operands, shape: dup_shape_fact(&b.shape) });
        let mut outs: Vec<InferenceFact> = Vec::new();
        outs.push(InferenceFact { datum_type: result, shape });
        assert(facts_view(ins@) =~= seq![ins@[0]@, ins@[1]@]);
        assert(facts_view(outs@) =~= seq![outs@[0]@]);
        Ok((ins, outs))
    }
}

} // verus!
