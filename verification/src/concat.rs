use vstd::prelude::*;
use crate::dim::{TDim, ToDim};
use crate::error::Error;
use crate::fact::{TypedFact, TypedFactView};
use crate::model::facts_view;
use crate::tensor::{Tensor, TensorView};

verus! {

/// One part of a concatenation: a constant, or the next input.
#[derive(Debug)]
pub enum NormConcatSlice {
    Const(Tensor),
    Var,
}

/// The concatenation of constants and inputs along one axis.
#[derive(Debug)]
pub struct NormConcat {
    pub axis: usize,
    pub slices: Vec<NormConcatSlice>,
}

/// What one part of a concatenation holds: the constant, or nothing for an
/// input.
pub open spec fn slice_view(slice: NormConcatSlice) -> Option<TensorView> {
    match slice {
        NormConcatSlice::Const(t) => Some(t@),
        NormConcatSlice::Var => None,
    }
}

/// What a concatenation holds.
pub struct NormConcatView {
    pub axis: usize,
    pub slices: Seq<Option<TensorView>>,
}

impl View for NormConcat {
    type V = NormConcatView;

    open spec fn view(&self) -> NormConcatView {
        NormConcatView {
            axis: self.axis,
            slices: Seq::new(self.slices@.len(), |i: int| slice_view(self.slices@[i])),
        }
    }
}

impl NormConcatView {
    /// The number of parts before the part `ix` that are inputs.
    pub open spec fn vars_before(self, ix: int) -> nat
        decreases ix,
    {
        if ix <= 0 {
            0
        } else {
            self.vars_before(ix - 1) + if self.slices[ix - 1] is None {
                1nat
            } else {
                0nat
            }
        }
    }

    /// The length of the part `ix` along the axis of the concatenation:
    /// `AxisOutOfRange` where the part has no such axis, `Arity` where the
    /// part is an input that was not given.
    pub open spec fn slice_len(self, inputs: Seq<TypedFactView>, ix: int) -> Result<TDim, Error> {
        match self.slices[ix] {
            Some(t) => if self.axis < t.shape.len() {
                Ok(TDim::constant(t.shape[self.axis as int] as int))
            } else {
                Err(Error::AxisOutOfRange)
            },
            None => {
                let v = self.vars_before(ix) as int;
                if v >= inputs.len() {
                    Err(Error::Arity)
                } else if self.axis < inputs[v].shape.len() {
                    Ok(inputs[v].shape[self.axis as int])
                } else {
                    Err(Error::AxisOutOfRange)
                }
            },
        }
    }

    /// Where the part `upto` starts along the axis of the concatenation:
    /// the sum of the lengths of the parts before it; the first error among
    /// those lengths and sums, `Overflow` for a sum that is no dim.
    pub open spec fn offset(self, inputs: Seq<TypedFactView>, upto: nat) -> Result<TDim, Error>
        decreases upto,
    {
        if upto == 0 {
            Ok(TDim::constant(0))
        } else {
            match self.offset(inputs, (upto - 1) as nat) {
                Err(e) => Err(e),
                Ok(acc) => match self.slice_len(inputs, upto - 1) {
                    Err(e) => Err(e),
                    Ok(len) => match acc.spec_plus(len) {
                        Some(sum) => Ok(sum),
                        None => Err(Error::Overflow),
                    },
                },
            }
        }
    }
}

impl NormConcat {
    /// A copy of the operator.
    pub fn dup(&self) -> (r: NormConcat)
        ensures
            r@ == self@,
    {
        let mut slices: Vec<NormConcatSlice> = Vec::new();
        let mut i: usize = 0;
        while i < self.slices.len()
            invariant
                i <= self.slices.len(),
                slices@.len() == i,
                forall|j: int| 0 <= j < i ==> slice_view(#[trigger] slices@[j]) == slice_view(self.slices@[j]),
            decreases self.slices.len() - i,
        {
            let s = match &self.slices[i] {
                NormConcatSlice::Const(t) => NormConcatSlice::Const(t.dup()),
                NormConcatSlice::Var => NormConcatSlice::Var,
            };
            slices.push(s);
            i += 1;
        }
        let r = NormConcat { axis: self.axis, slices };
        assert(r@.slices =~= self@.slices);
        r
    }

    /// Where each part starts along the axis of the concatenation, and
    /// where the last one ends: one entry more than there are parts.
    pub fn offsets(&self, inputs: &Vec<&TypedFact>) -> (r: Result<Vec<TDim>, Error>)
        ensures
            r matches Ok(offsets) ==> offsets@.len() == self@.slices.len() + 1 && forall|i: int|
                0 <= i <= self@.slices.len() ==> Ok::<TDim, Error>(#[trigger] offsets@[i])
                    == self@.offset(facts_view(inputs@), i as nat),
            r matches Err(e) ==> self@.offset(facts_view(inputs@), self@.slices.len()) == Err::<
                TDim,
                Error,
            >(e),
    {
        let ghost facts = facts_view(inputs@);
        let mut offsets: Vec<TDim> = Vec::new();
        let mut last = TDim { slope: 0, offset: 0 };
        offsets.push(last);
        let mut input: usize = 0;
        let mut ix: usize = 0;
        while ix < self.slices.len()
            invariant
                ix <= self.slices.len(),
                facts == facts_view(inputs@),
                input == self@.vars_before(ix as int),
                input <= ix,
                offsets@.len() == ix + 1,
                offsets@[ix as int] == last,
                forall|i: int|
                    0 <= i <= ix ==> Ok::<TDim, Error>(#[trigger] offsets@[i]) == self@.offset(
                        facts,
                        i as nat,
                    ),
            decreases self.slices.len() - ix,
        {
            assert(self@.slices[ix as int] == slice_view(self.slices@[ix as int]));
            let len = match &self.slices[ix] {
                NormConcatSlice::Const(t) => {
                    if self.axis < t.rank() {
                        t.shape()[self.axis].to_dim()
                    } else {
                        proof {
                            lemma_offset_error(self@, facts, (ix + 1) as nat, self@.slices.len());
                        }
                        return Err(Error::AxisOutOfRange);
                    }
                },
                NormConcatSlice::Var => {
                    if input >= inputs.len() {
                        proof {
                            lemma_offset_error(self@, facts, (ix + 1) as nat, self@.slices.len());
                        }
                        return Err(Error::Arity);
                    }
                    let fact = inputs[input];
                    assert(facts[input as int] == fact@);
                    input += 1;
                    if self.axis < fact.shape.len() {
                        fact.shape[self.axis]
                    } else {
                        proof {
                            lemma_offset_error(self@, facts, (ix + 1) as nat, self@.slices.len());
                        }
                        return Err(Error::AxisOutOfRange);
                    }
                },
            };
            assert(self@.slice_len(facts, ix as int) == Ok::<TDim, Error>(len));
            last = match last.plus(&len) {
                Some(sum) => sum,
                None => {
                    proof {
                        lemma_offset_error(self@, facts, (ix + 1) as nat, self@.slices.len());
                    }
                    return Err(Error::Overflow);
                },
            };
            offsets.push(last);
            ix += 1;
        }
        Ok(offsets)
    }
}

/// Once the start of a part is an error, the start of every later part is
/// that error.
pub proof fn lemma_offset_error(op: NormConcatView, inputs: Seq<TypedFactView>, at: nat, later: nat)
    requires
        at <= later,
        op.offset(inputs, at) is Err,
    ensures
        op.offset(inputs, later) == op.offset(inputs, at),
    decreases later,
{
    if at < later {
        lemma_offset_error(op, inputs, at, (later - 1) as nat);
    }
}

} // verus!
