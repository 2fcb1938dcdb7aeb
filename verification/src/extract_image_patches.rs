use vstd::prelude::*;
use crate::datum::DatumType;
use crate::dim::{product, DimLike, TDim, ToDim};
use crate::error::Error;
use crate::fact::{
    concrete_dims, dims_unify, is_concrete, merged_dim, merged_type, none_known, shape_view,
    unify_shape, unify_type, unknown_shape, InferenceFact, InferenceFactView, TypedFact,
    TypedFactView,
};
use crate::indices::{all_indices_of, countable, unravel};
use crate::model::facts_view;
use crate::rules::{knowledge_view, shape_of_rank, Knowledge};
use crate::tensor::{Tensor, TensorView};

verus! {

/// How the borders of an image are padded before patches are taken.
#[derive(Debug)]
pub enum PaddingSpec {
    Explicit(Vec<usize>, Vec<usize>),
    Valid,
    SameUpper,
    SameLower,
}

/// What a padding comes to along one axis: the length of the output, and
/// the padding before and behind the input.
#[derive(Debug, Clone, Copy)]
pub struct ComputedPaddedDim<D> {
    pub output: D,
    pub pad_before: D,
    pub pad_after: D,
}

/// The operator that gathers, for each position of the output image, the
/// patch of the input image around it into the channel axis.
#[derive(Debug)]
pub struct ExtractImagePatches {
    pub rates: Vec<usize>,
    pub strides: Vec<usize>,
    pub padding: PaddingSpec,
    pub ksizes: Vec<usize>,
}

/// A list of four entries of which the first or the last is one.
pub open spec fn is_image_attribute(values: Seq<usize>) -> bool {
    values.len() == 4 && (values[0] == 1 || values[3] == 1)
}

/// Checks the rates of an operator: four entries, of which the first or the
/// last is one. `Attribute` for any other list.
pub fn rates(values: Vec<usize>) -> (r: Result<Vec<usize>, Error>)
    ensures
        r is Ok <==> is_image_attribute(values@),
        r matches Ok(v) ==> v == values,
        r matches Err(e) ==> e == Error::Attribute,
{
    if values.len() != 4 || values[0] != 1 && values[3] != 1 {
        return Err(Error::Attribute);
    }
    Ok(values)
}

/// Checks the patch sizes of an operator: four entries, of which the first
/// or the last is one. `Attribute` for any other list.
pub fn ksizes(values: Vec<usize>) -> (r: Result<Vec<usize>, Error>)
    ensures
        r is Ok <==> is_image_attribute(values@),
        r matches Ok(v) ==> v == values,
        r matches Err(e) ==> e == Error::Attribute,
{
    if values.len() != 4 || values[0] != 1 && values[3] != 1 {
        return Err(Error::Attribute);
    }
    Ok(values)
}

/// The two entries of an image attribute that go with the height and the
/// width.
fn spatial(values: &Vec<usize>) -> (r: Vec<usize>)
    requires
        values@.len() >= 3,
    ensures
        r@ == values@.subrange(1, 3),
{
    let mut out: Vec<usize> = Vec::new();
    out.push(values[1]);
    out.push(values[2]);
    assert(out@ =~= values@.subrange(1, 3));
    out
}

/// The operator for the attributes of a node: the padding, and of the
/// strides, the rates and the patch sizes the entries that go with the
/// height and the width. `Attribute` where the strides have no such
/// entries or the rates or the patch sizes are not as `rates` and `ksizes`
/// ask.
pub fn extract_image_patches(
    padding: PaddingSpec,
    strides: Vec<usize>,
    rate_values: Vec<usize>,
    ksize_values: Vec<usize>,
) -> (r:
    Result<ExtractImagePatches, Error>)
    ensures
        r is Ok <==> strides@.len() >= 3 && is_image_attribute(rate_values@) && is_image_attribute(
            ksize_values@,
        ),
        r matches Ok(op) ==> op.padding == padding && op.strides@ == strides@.subrange(1, 3)
            && op.rates@ == rate_values@.subrange(1, 3) && op.ksizes@ == ksize_values@.subrange(
            1,
            3,
        ),
        r matches Err(e) ==> e == Error::Attribute,
{
    if strides.len() < 3 {
        return Err(Error::Attribute);
    }
    let strides = spatial(&strides);
    let rates = match rates(rate_values) {
        Ok(v) => spatial(&v),
        Err(e) => {
            return Err(e);
        },
    };
    let ksizes = match ksizes(ksize_values) {
        Ok(v) => spatial(&v),
        Err(e) => {
            return Err(e);
        },
    };
    Ok(ExtractImagePatches { rates, strides, padding, ksizes })
}

/// Where an element of the output comes from.
pub enum Source {
    /// From the padding: it is zero.
    Padding,
    /// From the element of the input at the given batch, row, column and
    /// channel.
    Element { n: usize, y: usize, x: usize, c: usize },
}

impl ExtractImagePatches {
    /// The name of the operator.
    pub fn name(&self) -> (r: String)
        ensures
            r@ == "tf.ExtractImagePatches"@,
    {
        "tf.ExtractImagePatches".to_owned()
    }

    /// The operator has its two strides, rates and patch sizes, and the
    /// padding was computed for both axes.
    pub open spec fn complete<D>(&self, computed: Seq<ComputedPaddedDim<D>>) -> bool {
        self.rates@.len() >= 2 && self.strides@.len() >= 2 && self.ksizes@.len() >= 2
            && computed.len() >= 2
    }

    /// The shape of the patches before the patch axes are merged into the
    /// channel axis: batch, output height and width, patch height and
    /// width, channels.
    pub open spec fn build_shape(
        &self,
        input: Seq<usize>,
        computed: Seq<ComputedPaddedDim<usize>>,
    ) -> Seq<
        usize,
    > {
        seq![
            input[0],
            computed[0].output,
            computed[1].output,
            self.ksizes@[0],
            self.ksizes@[1],
            input[3],
        ]
    }

    /// Where the element at `index` of the patches comes from: the row
    /// and the column in the padded image are found from the output position,
    /// the strides, the place in the patch and the rates; an element that
    /// falls into the padding is zero; any other is read from the input, the
    /// padding before the rows being taken off both the row and the column.
    /// `Overflow` where the row or the column is no machine integer, `Range`
    /// where the column that is read does not lie in the image.
    pub open spec fn source(
        &self,
        input: Seq<usize>,
        computed: Seq<ComputedPaddedDim<usize>>,
        index: Seq<usize>,
    ) -> Result<Source, Error> {
        let h = index[1] * self.strides@[0] + index[3] * self.rates@[0];
        let w = index[2] * self.strides@[1] + index[4] * self.rates@[1];
        let top = computed[0].pad_before as int;
        let left = computed[1].pad_before as int;
        if h > usize::MAX || w > usize::MAX {
            Err(Error::Overflow)
        } else if h < top || h - top >= input[1] || w < left || w - left >= input[2] {
            Ok(Source::Padding)
        } else if w < top || w - top >= input[2] {
            Err(Error::Range)
        } else {
            Ok(
                Source::Element {
                    n: index[0],
                    y: (h - top) as usize,
                    x: (w - top) as usize,
                    c: index[5],
                },
            )
        }
    }

    /// Where the four bytes of the element at the given batch, row, column
    /// and channel end in the buffer of an image of the given shape; `None`
    /// where that, or a step on the way to it, is no machine integer.
    pub open spec fn element_end(
        shape: Seq<usize>,
        n: usize,
        y: usize,
        x: usize,
        c: usize,
    ) -> Option<
        int,
    > {
        let row = n * shape[1] + y;
        let col = row * shape[2] + x;
        let offset = col * shape[3] + c;
        if n * shape[1] > usize::MAX || row > usize::MAX || row * shape[2] > usize::MAX || col
            > usize::MAX || col * shape[3] > usize::MAX || offset > usize::MAX || 4 * offset
            > usize::MAX || 4 * offset + 4 > usize::MAX {
            None
        } else {
            Some(4 * offset + 4)
        }
    }

    /// The bytes of the element at the position `e` of the patches, in
    /// row-major order: zeros, or the four bytes of the element of the input
    /// that it comes from. `Size` where the input does not hold that
    /// element.
    pub open spec fn element(
        &self,
        input: TensorView,
        computed: Seq<ComputedPaddedDim<usize>>,
        e: int,
    ) -> Result<Seq<u8>, Error> {
        let index = unravel(self.build_shape(input.shape, computed), e);
        match self.source(input.shape, computed, index) {
            Err(err) => Err(err),
            Ok(Source::Padding) => Ok(seq![0u8, 0u8, 0u8, 0u8]),
            Ok(Source::Element { n, y, x, c }) => match ExtractImagePatches::element_end(
                input.shape,
                n,
                y,
                x,
                c,
            ) {
                Some(end) => if end <= input.data.len() {
                    Ok(input.data.subrange(end - 4, end))
                } else {
                    Err(Error::Size)
                },
                None => Err(Error::Size),
            },
        }
    }

    /// The bytes of the first `upto` elements of the patches; the first
    /// error among them.
    pub open spec fn elements(
        &self,
        input: TensorView,
        computed: Seq<ComputedPaddedDim<usize>>,
        upto: nat,
    ) -> Result<Seq<u8>, Error>
        decreases upto,
    {
        if upto == 0 {
            Ok(Seq::empty())
        } else {
            match self.elements(input, computed, (upto - 1) as nat) {
                Err(e) => Err(e),
                Ok(bytes) => match self.element(input, computed, upto - 1) {
                    Err(e) => Err(e),
                    Ok(more) => Ok(bytes + more),
                },
            }
        }
    }

    /// The patches of an image: a tensor of floats of the shape batch,
    /// output height, output width, and patch height times patch width times
    /// channels, that holds the elements of `elements`. `TypeMismatch` for
    /// an input of another type, `RankMismatch` unless it has four axes,
    /// `Attribute` where the operator is not complete, `Overflow` where a
    /// size is no machine integer.
    pub open spec fn patches(
        &self,
        input: TensorView,
        computed: Seq<ComputedPaddedDim<usize>>,
    ) -> Result<
        TensorView,
        Error,
    > {
        let shape = self.build_shape(input.shape, computed);
        if input.datum_type != DatumType::F32 {
            Err(Error::TypeMismatch)
        } else if input.shape.len() != 4 {
            Err(Error::RankMismatch)
        } else if !self.complete(computed) {
            Err(Error::Attribute)
        } else if !countable(shape) {
            Err(Error::Overflow)
        } else {
            match self.elements(input, computed, product(shape)) {
                Err(e) => Err(e),
                Ok(data) => if shape[3] * shape[4] > usize::MAX || shape[3] * shape[4] * shape[5]
                    > usize::MAX {
                    Err(Error::Overflow)
                } else {
                    Ok(
                        TensorView {
                            datum_type: DatumType::F32,
                            shape: seq![
                                shape[0],
                                shape[1],
                                shape[2],
                                (shape[3] * shape[4] * shape[5]) as usize,
                            ],
                            data,
                        },
                    )
                },
            }
        }
    }
}

/// Once the first elements are an error, more elements are that error.
proof fn lemma_elements_error(
    op: &ExtractImagePatches,
    input: TensorView,
    computed: Seq<ComputedPaddedDim<usize>>,
    at: nat,
    later: nat,
)
    requires
        at <= later,
        op.elements(input, computed, at) is Err,
    ensures
        op.elements(input, computed, later) == op.elements(input, computed, at),
    decreases later,
{
    if at < later {
        lemma_elements_error(op, input, computed, at, (later - 1) as nat);
    }
}

/// What a result that holds a list of tensors says of the first of them.
pub open spec fn first_tensor_view(r: Result<Vec<Tensor>, Error>) -> Result<TensorView, Error> {
    match r {
        Ok(v) => Ok(v@[0]@),
        Err(e) => Err(e),
    }
}

impl ExtractImagePatches {
    /// Computes `element` into `data`.
    fn push_element(
        &self,
        data: &mut Vec<u8>,
        input: &Tensor,
        computed: &Vec<ComputedPaddedDim<usize>>,
        index: &Vec<usize>,
        Ghost(e): Ghost<int>,
    ) -> (r: Result<(), Error>)
        requires
            input@.shape.len() == 4,
            self.complete(computed@),
            index@ == unravel(self.build_shape(input@.shape, computed@), e),
            index@.len() == 6,
        ensures
            r is Ok ==> Ok::<Seq<u8>, Error>(final(data)@) == match self.element(
                input@,
                computed@,
                e,
            ) {
                Ok(more) => Ok::<Seq<u8>, Error>(old(data)@ + more),
                Err(err) => Err(err),
            },
            r matches Err(err) ==> self.element(input@, computed@, e) == Err::<Seq<u8>, Error>(err),
    {
        let ghost before = data@;
        let rows = input.shape[1];
        let cols = input.shape[2];
        let channels = input.shape[3];
        let top = computed[0].pad_before;
        let left = computed[1].pad_before;
        let h = match index[1].checked_mul(self.strides[0]) {
            Some(x) => match index[3].checked_mul(self.rates[0]) {
                Some(y) => x.checked_add(y),
                None => None,
            },
            None => None,
        };
        let w = match index[2].checked_mul(self.strides[1]) {
            Some(x) => match index[4].checked_mul(self.rates[1]) {
                Some(y) => x.checked_add(y),
                None => None,
            },
            None => None,
        };
        let (h, w) = match (h, w) {
            (Some(h), Some(w)) => (h, w),
            _ => {
                return Err(Error::Overflow);
            },
        };
        if h < top || h - top >= rows || w < left || w - left >= cols {
            data.push(0);
            data.push(0);
            data.push(0);
            data.push(0);
            assert(data@ =~= before + seq![0u8, 0u8, 0u8, 0u8]);
            return Ok(());
        }
        if w < top || w - top >= cols {
            return Err(Error::Range);
        }
        let end = match index[0].checked_mul(rows) {
            Some(a) => match a.checked_add(h - top) {
                Some(b) => match b.checked_mul(cols) {
                    Some(c) => match c.checked_add(w - top) {
                        Some(d) => match d.checked_mul(channels) {
                            Some(f) => match f.checked_add(index[5]) {
                                Some(g) => match g.checked_mul(4) {
                                    Some(start) => start.checked_add(4),
                                    None => None,
                                },
                                None => None,
                            },
                            None => None,
                        },
                        None => None,
                    },
                    None => None,
                },
                None => None,
            },
            None => None,
        };
        assert(match end {
            Some(e) => Some(e as int),
            None => None::<int>,
        } == ExtractImagePatches::element_end(
            input@.shape,
            index@[0],
            (h - top) as usize,
            (w - top) as usize,
            index@[5],
        ));
        let len = input.data.len();
        let end = match end {
            Some(end) => {
                if end > len {
                    return Err(Error::Size);
                }
                end
            },
            None => {
                return Err(Error::Size);
            },
        };
        data.push(input.data[end - 4]);
        data.push(input.data[end - 3]);
        data.push(input.data[end - 2]);
        data.push(input.data[end - 1]);
        assert(data@ =~= before + input@.data.subrange(end - 4, end as int));
        Ok(())
    }

    /// The patches of the one input, an image of floats with the axes
    /// batch, height, width and channels, for the padding that was computed
    /// for its height and its width: see `patches`. `Arity` unless there is
    /// exactly one input.
    pub fn eval(&self, inputs: Vec<Tensor>, computed: &Vec<ComputedPaddedDim<usize>>) -> (r: Result<
        Vec<Tensor>,
        Error,
    >)
        ensures
            r matches Ok(out) ==> out@.len() == 1,
            first_tensor_view(r) == (if inputs@.len() != 1 {
                Err(Error::Arity)
            } else {
                self.patches(inputs@[0]@, computed@)
            }),
    {
        if inputs.len() != 1 {
            return Err(Error::Arity);
        }
        let input = &inputs[0];
        if input.datum_type() != DatumType::F32 {
            return Err(Error::TypeMismatch);
        }
        if input.rank() != 4 {
            return Err(Error::RankMismatch);
        }
        if self.rates.len() < 2 || self.strides.len() < 2 || self.ksizes.len() < 2 || computed.len()
            < 2 {
            return Err(Error::Attribute);
        }
        let mut build_shape: Vec<usize> = Vec::new();
        build_shape.push(input.shape[0]);
        build_shape.push(computed[0].output);
        build_shape.push(computed[1].output);
        build_shape.push(self.ksizes[0]);
        build_shape.push(self.ksizes[1]);
        build_shape.push(input.shape[3]);
        assert(build_shape@ =~= self.build_shape(input@.shape, computed@));
        let indices = match all_indices_of(&build_shape) {
            Some(i) => i,
            None => {
                return Err(Error::Overflow);
            },
        };
        let mut data: Vec<u8> = Vec::new();
        let mut e: usize = 0;
        while e < indices.len()
            invariant
                e <= indices.len(),
                inputs@.len() == 1,
                input@ == inputs@[0]@,
                input@.datum_type == DatumType::F32,
                countable(build_shape@),
                input@.shape.len() == 4,
                self.complete(computed@),
                build_shape@ == self.build_shape(input@.shape, computed@),
                indices@.len() == product(build_shape@),
                forall|j: int|
                    0 <= j < indices@.len() ==> (#[trigger] indices@[j])@ == unravel(build_shape@, j),
                Ok::<Seq<u8>, Error>(data@) == self.elements(input@, computed@, e as nat),
            decreases indices.len() - e,
        {
            proof {
                crate::indices::lemma_unravel_len(build_shape@, e as int);
            }
            match self.push_element(&mut data, input, computed, &indices[e], Ghost(e as int)) {
                Ok(()) => {},
                Err(err) => {
                    proof {
                        lemma_elements_error(
                            self,
                            input@,
                            computed@,
                            (e + 1) as nat,
                            indices@.len(),
                        );
                    }
                    return Err(err);
                },
            }
            e += 1;
        }
        // The patch axes and the channels become one axis.
        let merged = match build_shape[3].checked_mul(build_shape[4]) {
            Some(p) => p.checked_mul(build_shape[5]),
            None => None,
        };
        let merged = match merged {
            Some(m) => m,
            None => {
                return Err(Error::Overflow);
            },
        };
        let mut shape: Vec<usize> = Vec::new();
        shape.push(build_shape[0]);
        shape.push(build_shape[1]);
        shape.push(build_shape[2]);
        shape.push(merged);
        assert(shape@ =~= seq![
            build_shape@[0],
            build_shape@[1],
            build_shape@[2],
            (build_shape@[3] * build_shape@[4] * build_shape@[5]) as usize,
        ]);
        let out_tensor = Tensor { datum_type: DatumType::F32, shape, data };
        let mut out: Vec<Tensor> = Vec::new();
        out.push(out_tensor);
        Ok(out)
    }
}

/// What two statements on one dim say together; `DimMismatch` where they
/// contradict each other.
pub open spec fn unified_dim(a: Option<TDim>, b: Option<TDim>) -> Result<Option<TDim>, Error> {
    if dims_unify(a, b) {
        Ok(merged_dim(a, b))
    } else {
        Err(Error::DimMismatch)
    }
}

/// Merges two statements on one dim.
pub fn unify_dim(a: Option<TDim>, b: Option<TDim>) -> (r: Result<Option<TDim>, Error>)
    ensures
        r == unified_dim(a, b),
{
    match (a, b) {
        (Some(x), Some(y)) => {
            if x.slope == y.slope && x.offset == y.offset {
                Ok(a)
            } else {
                Err(Error::DimMismatch)
            }
        },
        (Some(_), None) => Ok(a),
        (None, _) => Ok(b),
    }
}

/// The number of channels of the patches of an image with `channels`
/// channels: one for each place of the patch and each channel. `Attribute`
/// where the operator lacks a patch size, `Overflow` where the number is no
/// dim.
pub open spec fn patch_channels(ksizes: Seq<usize>, channels: TDim) -> Result<TDim, Error> {
    if ksizes.len() < 2 {
        Err(Error::Attribute)
    } else if ksizes[0] * ksizes[1] > usize::MAX {
        Err(Error::Overflow)
    } else {
        match channels.spec_times(TDim::constant(ksizes[0] * ksizes[1])) {
            Some(d) => Ok(d),
            None => Err(Error::Overflow),
        }
    }
}

impl ExtractImagePatches {
    /// Computes `patch_channels`.
    fn channels(&self, channels: &TDim) -> (r: Result<TDim, Error>)
        ensures
            r == patch_channels(self.ksizes@, *channels),
    {
        if self.ksizes.len() < 2 {
            return Err(Error::Attribute);
        }
        let places = match self.ksizes[0].checked_mul(self.ksizes[1]) {
            Some(p) => p,
            None => {
                return Err(Error::Overflow);
            },
        };
        match channels.times(&places.to_dim()) {
            Some(d) => Ok(d),
            None => Err(Error::Overflow),
        }
    }

    /// The fact of the patches of a wire with the fact `input`, for the
    /// padding that was computed for its height and its width.
    pub open spec fn output_fact(
        &self,
        input: TypedFactView,
        computed: Seq<ComputedPaddedDim<TDim>>,
    ) -> Result<
        TypedFactView,
        Error,
    > {
        if input.shape.len() < 4 {
            Err(Error::RankMismatch)
        } else if computed.len() < 2 {
            Err(Error::Attribute)
        } else {
            match patch_channels(self.ksizes@, input.shape[3]) {
                Err(e) => Err(e),
                Ok(channels) => Ok(
                    TypedFactView::dt_shape(
                        input.datum_type,
                        seq![input.shape[0], computed[0].output, computed[1].output, channels],
                    ),
                ),
            }
        }
    }

    /// The fact of the output for the fact of the input: the same element
    /// type; the batch axis of the input, the height and the width that the
    /// padding comes to, and the channels of the patches. `Arity` where
    /// there is no input, else `RankMismatch` where the input has fewer than
    /// four axes, else `Attribute` where a padding or a patch size is
    /// lacking, else `Overflow` where the channels are no dim.
    pub fn output_facts(
        &self,
        inputs: &Vec<&TypedFact>,
        computed: &Vec<ComputedPaddedDim<TDim>>,
    ) -> (r:
        Result<Vec<TypedFact>, Error>)
        ensures
            r matches Ok(facts) ==> inputs@.len() > 0 && Ok::<TypedFactView, Error>(facts@[0]@)
                == self.output_fact(inputs@[0]@, computed@) && facts@.len() == 1,
            r matches Err(e) ==> (if inputs@.len() < 1 {
                e == Error::Arity
            } else {
                self.output_fact(inputs@[0]@, computed@) == Err::<TypedFactView, Error>(e)
            }),
    {
        if inputs.len() < 1 {
            return Err(Error::Arity);
        }
        let input = inputs[0];
        if input.shape.len() < 4 {
            return Err(Error::RankMismatch);
        }
        if computed.len() < 2 {
            return Err(Error::Attribute);
        }
        let channels = match self.channels(&input.shape[3]) {
            Ok(c) => c,
            Err(e) => {
                return Err(e);
            },
        };
        let mut shape: Vec<TDim> = Vec::new();
        shape.push(input.shape[0]);
        shape.push(computed[0].output);
        shape.push(computed[1].output);
        shape.push(channels);
        assert(shape@ =~= seq![
            input@.shape[0],
            computed@[0].output,
            computed@[1].output,
            channels,
        ]);
        let mut facts: Vec<TypedFact> = Vec::new();
        facts.push(TypedFact::dt_shape(input.datum_type, &shape));
        Ok(facts)
    }

    /// What the operator lets inference know of its input and its output:
    /// they have one element type and four axes each; they have one batch
    /// dim; where the channels of the input are known, the channels of the
    /// output are those of the patches; and where the shape of the input is
    /// wholly known and the padding was computed for it, the height and the
    /// width of the output are what the padding comes to.
    pub open spec fn knowledge(
        &self,
        input: InferenceFactView,
        output: InferenceFactView,
        computed: Option<Seq<ComputedPaddedDim<TDim>>>,
    ) -> Result<Knowledge, Error> {
        match merged_type(input.datum_type, output.datum_type) {
            Err(e) => Err(e),
            Ok(datum_type) => match shape_of_rank(input.shape, 4) {
                Err(e) => Err(e),
                Ok(i) => match shape_of_rank(output.shape, 4) {
                    Err(e) => Err(e),
                    Ok(o) => {
                        let i = i.unwrap();
                        let o = o.unwrap();
                        match unified_dim(i[0], o[0]) {
                            Err(e) => Err(e),
                            Ok(batch) => {
                                let channels = match i[3] {
                                    Some(c) => match patch_channels(self.ksizes@, c) {
                                        Ok(p) => unified_dim(o[3], Some(p)),
                                        Err(e) => Err(e),
                                    },
                                    None => Ok(o[3]),
                                };
                                let shape = i.update(0, batch);
                                match channels {
                                    Err(e) => Err(e),
                                    Ok(channels) => {
                                        let spatial = if is_concrete(shape) && computed is Some {
                                            let padded = computed.unwrap();
                                            if padded.len() < 2 {
                                                Err(Error::Attribute)
                                            } else {
                                                match unified_dim(o[1], Some(padded[0].output)) {
                                                    Err(e) => Err(e),
                                                    Ok(height) => match unified_dim(
                                                        o[2],
                                                        Some(padded[1].output),
                                                    ) {
                                                        Err(e) => Err(e),
                                                        Ok(width) => Ok((height, width)),
                                                    },
                                                }
                                            }
                                        } else {
                                            Ok((o[1], o[2]))
                                        };
                                        match spatial {
                                            Err(e) => Err(e),
                                            Ok((height, width)) => Ok(
                                                Knowledge {
                                                    inputs: seq![
                                                        InferenceFactView {
                                                            datum_type,
                                                            shape: Some(shape),
                                                        },
                                                    ],
                                                    outputs: seq![
                                                        InferenceFactView {
                                                            datum_type,
                                                            shape: Some(
                                                                seq![batch, height, width, channels],
                                                            ),
                                                        },
                                                    ],
                                                },
                                            ),
                                        }
                                    },
                                }
                            },
                        }
                    },
                },
            },
        }
    }

    /// What the operator lets inference know of its input and its output:
    /// see `knowledge`. `computed` is the padding for the height and the
    /// width of the input, where the caller could compute it. `Arity` unless
    /// there is exactly one input and one output, else the first
    /// contradiction that is found.
    pub fn rules(
        &self,
        inputs: &Vec<InferenceFact>,
        outputs: &Vec<InferenceFact>,
        computed: Option<&Vec<ComputedPaddedDim<TDim>>>,
    ) -> (r:
        Result<(Vec<InferenceFact>, Vec<InferenceFact>), Error>)
        ensures
            knowledge_view(r) == (if inputs@.len() != 1 || outputs@.len() != 1 {
                Err(Error::Arity)
            } else {
                self.knowledge(
                    inputs@[0]@,
                    outputs@[0]@,
                    match computed {
                        Some(c) => Some(c@),
                        None => None,
                    },
                )
            }),
    {
        if inputs.len() != 1 || outputs.len() != 1 {
            return Err(Error::Arity);
        }
        let input = &inputs[0];
        let output = &outputs[0];
        let datum_type = match unify_type(input.datum_type, output.datum_type) {
            Ok(t) => t,
            Err(e) => {
                return Err(e);
            },
        };
        let four = Some(unknown_shape(4));
        let mut i = match unify_shape(&input.shape, &four) {
            Ok(Some(s)) => s,
            Ok(None) => {
                return Err(Error::RankMismatch);
            },
            Err(e) => {
                return Err(e);
            },
        };
        let o = match unify_shape(&output.shape, &four) {
            Ok(Some(s)) => s,
            Ok(None) => {
                return Err(Error::RankMismatch);
            },
            Err(e) => {
                return Err(e);
            },
        };
        assert(i@.len() == 4 && o@.len() == 4);
        let batch = match unify_dim(i[0], o[0]) {
            Ok(d) => d,
            Err(e) => {
                return Err(e);
            },
        };
        let channels = match i[3] {
            Some(c) => match self.channels(&c) {
                Ok(p) => match unify_dim(o[3], Some(p)) {
                    Ok(d) => d,
                    Err(e) => {
                        return Err(e);
                    },
                },
                Err(e) => {
                    return Err(e);
                },
            },
            None => o[3],
        };
        i.set(0, batch);
        let concrete = concrete_dims(&i).is_some();
        let (height, width) = match computed {
            Some(padded) => {
                if concrete {
                    if padded.len() < 2 {
                        return Err(Error::Attribute);
                    }
                    let height = match unify_dim(o[1], Some(padded[0].output)) {
                        Ok(d) => d,
                        Err(e) => {
                            return Err(e);
                        },
                    };
                    let width = match unify_dim(o[2], Some(padded[1].output)) {
                        Ok(d) => d,
                        Err(e) => {
                            return Err(e);
                        },
                    };
                    (height, width)
                } else {
                    (o[1], o[2])
                }
            },
            None => (o[1], o[2]),
        };
        let mut shape: Vec<Option<TDim>> = Vec::new();
        shape.push(batch);
        shape.push(height);
        shape.push(width);
        shape.push(channels);
        assert(shape@ =~= seq![batch, height, width, channels]);
        let mut ins: Vec<InferenceFact> = Vec::new();
        ins.push(InferenceFact { datum_type, shape: Some(i) });
        let mut outs: Vec<InferenceFact> = Vec::new();
        outs.push(InferenceFact { datum_type, shape: Some(shape) });
        assert(facts_view(ins@) =~= seq![ins@[0]@]);
        assert(facts_view(outs@) =~= seq![outs@[0]@]);
        Ok((ins, outs))
    }
}

} // verus!
