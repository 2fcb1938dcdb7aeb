use vstd::prelude::*;
use crate::add_dims::{
    add_axes, ascending, axes_around, can_add, count_below, kept_axes, lemma_add_axes_len,
    lemma_add_axes_product, lemma_out_place_from, out_place, rm_axis,
};
use crate::dim::{product, DimLike};
use crate::broadcast::{broadcast_shape, compatible, left_pad};
use crate::add_dims::AddDims;
use crate::axis::InOut;
use crate::rm_dims::{distinct_below, in_place, lemma_kept_axes_grow, rm_axes, RmDims};
use crate::shapes::{
    bc_a_shape, bc_b_shape, bc_c_shape, common_rank, expand_a, expanded_rank, final_c_shape,
    implicit_m, implicit_n, lemma_common_rank, lemma_final_shape_is_squeezed,
    lemma_padded_operands_are_fixed, lemma_shape_round_trip, operands_admit, shapes_agree, squeeze,
};
use crate::concat::NormConcatView;
use crate::fact::TypedFactView;
use crate::matmul::MatMulUnaryView;
use crate::model::{ModelView, NodeView, OpView, OutletId};
use crate::patch::PatchView;
use crate::split::{k_split, k_split_patch, split_parts, split_step, sum_parts, SplitView, SumView};
use crate::tensor::TensorView;

verus! {

/// A value is in a list where it is its last entry or is in the rest.
proof fn lemma_contains_last<T>(s: Seq<T>, q: T)
    requires
        s.len() > 0,
    ensures
        s.contains(q) <==> s.drop_last().contains(q) || s.last() == q,
{
    if s.contains(q) {
        let i = choose|i: int| 0 <= i < s.len() && s[i] == q;
        if i < s.len() - 1 {
            assert(s.drop_last()[i] == q);
        }
    }
    if s.drop_last().contains(q) {
        let i = choose|i: int| 0 <= i < s.drop_last().len() && s.drop_last()[i] == q;
        assert(s[i] == q);
    }
    if s.last() == q {
        assert(s[s.len() - 1] == q);
    }
}

/// A value is in a list with one more entry where it is that entry or was
/// in the list.
proof fn lemma_contains_push<T>(s: Seq<T>, e: T, q: T)
    ensures
        s.push(e).contains(q) <==> s.contains(q) || e == q,
{
    assert(s.push(e).drop_last() =~= s);
    lemma_contains_last(s.push(e), q);
}

/// A list whose entries all lie below `x` has as many entries below `x` as
/// it has entries, does not hold `x`, and is left as it is when `x` is
/// taken out of it.
proof fn lemma_all_below(axes: Seq<usize>, x: usize)
    requires
        forall|i: int| 0 <= i < axes.len() ==> axes[i] < x,
    ensures
        count_below(axes, x as int) == axes.len(),
        rm_axis(axes, x) == axes,
        !axes.contains(x),
    decreases axes.len(),
{
    if axes.len() > 0 {
        let init = axes.drop_last();
        assert forall|i: int| 0 <= i < init.len() implies init[i] < x by {
            assert(init[i] == axes[i]);
        }
        lemma_all_below(init, x);
        assert(axes.last() == axes[axes.len() - 1]);
        assert(init.push(axes.last()) =~= axes);
    }
}

/// What is in a list of axes once `axis` was taken out of it: the axes
/// below `axis` that were in it, and the places before the axes above
/// `axis` that were in it.
pub proof fn lemma_rm_axis_contains(axes: Seq<usize>, axis: usize, q: usize)
    ensures
        rm_axis(axes, axis).contains(q) <==> (q < axis && axes.contains(q)) || (q >= axis && q
            < usize::MAX && axes.contains((q + 1) as usize)),
    decreases axes.len(),
{
    if axes.len() > 0 {
        let init = axes.drop_last();
        let a = axes.last();
        lemma_rm_axis_contains(init, axis, q);
        lemma_contains_last(axes, q);
        if q < usize::MAX {
            lemma_contains_last(axes, (q + 1) as usize);
        }
        if a > axis {
            lemma_contains_push(rm_axis(init, axis), (a - 1) as usize, q);
        } else if a < axis {
            lemma_contains_push(rm_axis(init, axis), a, q);
        }
    }
}

/// The output shape of the operator that takes axes out has one axis for
/// each place of the input that is not among the axes.
pub proof fn lemma_rm_axes_len<D>(shape: Seq<D>, axes: Seq<usize>)
    ensures
        rm_axes(shape, axes).len() == kept_axes(axes, shape.len()).len(),
        rm_axes(shape, axes).len() <= shape.len(),
    decreases shape.len(),
{
    if shape.len() > 0 {
        lemma_rm_axes_len(shape.drop_last(), axes);
    }
}

/// Two lists of axes that hold the same places below the rank of a shape
/// take the same axes out of it.
proof fn lemma_rm_axes_by_membership<D>(shape: Seq<D>, a: Seq<usize>, b: Seq<usize>)
    requires
        shape.len() <= usize::MAX,
        forall|p: usize| p < shape.len() ==> (a.contains(p) <==> b.contains(p)),
    ensures
        rm_axes(shape, a) == rm_axes(shape, b),
    decreases shape.len(),
{
    if shape.len() > 0 {
        lemma_rm_axes_by_membership(shape.drop_last(), a, b);
        let last = (shape.len() - 1) as usize;
        assert(a.contains(last) <==> b.contains(last));
    }
}

/// **An output of the adding operator loses an axis that the operator
/// added.** The operator that `change_axes` puts in its place gives, for the
/// same input, the old output shape without that axis.
pub proof fn lemma_add_dims_absorbs<D: DimLike>(input: Seq<D>, axes: Seq<usize>, axis: usize)
    requires
        ascending(axes),
        can_add(input.len(), axes),
        axes.contains(axis),
    ensures
        rm_axis(axes, axis).len() + 1 == axes.len(),
        can_add(input.len(), rm_axis(axes, axis)),
        add_axes(input, rm_axis(axes, axis)) == add_axes(input, axes).remove(axis as int),
    decreases axes.len(),
{
    let init = axes.drop_last();
    let a = axes.last();
    assert(a == axes[axes.len() - 1]);
    assert forall|i: int| 0 <= i < init.len() implies #[trigger] init[i] <= input.len() + i by {
        assert(init[i] == axes[i]);
    }
    assert forall|i: int, j: int| 0 <= i < j < init.len() implies init[i] < init[j] by {
        assert(init[i] == axes[i] && init[j] == axes[j]);
    }
    lemma_add_axes_len(input, init);
    lemma_contains_last(axes, axis);
    let before = add_axes(input, init);
    if a == axis {
        assert forall|i: int| 0 <= i < init.len() implies init[i] < axis by {
            assert(init[i] == axes[i]);
        }
        lemma_all_below(init, axis);
        assert(before.insert(a as int, D::unit()).remove(axis as int) =~= before);
    } else {
        let i = choose|i: int| 0 <= i < init.len() && init[i] == axis;
        assert(axes[i] == axis);
        assert(axis < a);
        lemma_add_dims_absorbs(input, init, axis);
        let rest = rm_axis(init, axis);
        assert(rm_axis(axes, axis) == rest.push((a - 1) as usize));
        assert(rest.push((a - 1) as usize).drop_last() =~= rest);
        lemma_add_axes_len(input, rest);
        assert(before.remove(axis as int).insert(a - 1, D::unit()) =~= before.insert(
            a as int,
            D::unit(),
        ).remove(axis as int));
        assert forall|j: int| 0 <= j < rm_axis(axes, axis).len() implies #[trigger] rm_axis(
            axes,
            axis,
        )[j] <= input.len() + j by {
            if j < rest.len() {
                assert(rm_axis(axes, axis)[j] == rest[j]);
            }
        }
    }
}

/// **An output of the adding operator loses an axis that came from the
/// input.** The operator that `change_axes` puts in its place gives, for
/// the input without the axis that `change_axes` names, the old output
/// shape without the axis that the output lost.
#[verifier::rlimit(50)]
pub proof fn lemma_add_dims_propagates<D: DimLike>(input: Seq<D>, axes: Seq<usize>, axis: usize)
    requires
        ascending(axes),
        can_add(input.len(), axes),
        !axes.contains(axis),
        axis < input.len() + axes.len(),
    ensures
        0 <= axis - count_below(axes, axis as int) < input.len(),
        rm_axis(axes, axis).len() == axes.len(),
        can_add((input.len() - 1) as nat, rm_axis(axes, axis)),
        add_axes(input.remove(axis - count_below(axes, axis as int)), rm_axis(axes, axis))
            == add_axes(input, axes).remove(axis as int),
    decreases axes.len(),
{
    if axes.len() == 0 {
    } else {
        let init = axes.drop_last();
        let a = axes.last();
        assert(a == axes[axes.len() - 1]);
        assert forall|i: int| 0 <= i < init.len() implies #[trigger] init[i] <= input.len() + i by {
            assert(init[i] == axes[i]);
        }
        assert forall|i: int, j: int| 0 <= i < j < init.len() implies init[i] < init[j] by {
            assert(init[i] == axes[i] && init[j] == axes[j]);
        }
        lemma_add_axes_len(input, init);
        lemma_contains_last(axes, axis);
        let before = add_axes(input, init);
        if a > axis {
            lemma_add_dims_propagates(input, init, axis);
            let rest = rm_axis(init, axis);
            let at = axis - count_below(init, axis as int);
            assert(rm_axis(axes, axis) == rest.push((a - 1) as usize));
            assert(rest.push((a - 1) as usize).drop_last() =~= rest);
            assert(before.remove(axis as int).insert(a - 1, D::unit()) =~= before.insert(
                a as int,
                D::unit(),
            ).remove(axis as int));
            assert forall|j: int| 0 <= j < rm_axis(axes, axis).len() implies #[trigger] rm_axis(
                axes,
                axis,
            )[j] <= input.len() - 1 + j by {
                if j < rest.len() {
                    assert(rm_axis(axes, axis)[j] == rest[j]);
                }
            }
        } else {
            // Every axis lies below `axis`: the list stays as it is, and
            // the rest of it lies below the place before `axis`.
            assert forall|i: int| 0 <= i < axes.len() implies axes[i] < axis by {
                if i < axes.len() - 1 {
                    assert(axes[i] < axes[axes.len() - 1]);
                }
            }
            lemma_all_below(axes, axis);
            let down = (axis - 1) as usize;
            assert forall|i: int| 0 <= i < init.len() implies init[i] < down by {
                assert(init[i] == axes[i]);
                assert(axes[i] < axes[axes.len() - 1]);
            }
            lemma_all_below(init, down);
            lemma_add_dims_propagates(input, init, down);
            let at = axis - axes.len();
            assert(down - count_below(init, down as int) == at);
            assert(before.remove(down as int).insert(a as int, D::unit()) =~= before.insert(
                a as int,
                D::unit(),
            ).remove(axis as int));
            assert(init.push(a) =~= axes);
            assert forall|j: int| 0 <= j < axes.len() implies #[trigger] axes[j] <= input.len() - 1
                + j by {
                if j < init.len() {
                    assert(axes[j] == init[j]);
                }
            }
        }
    }
}

/// **An input of the removing operator loses an axis that the operator
/// takes out.** The operator that `change_axes` puts in its place gives, for
/// the input without that axis, the old output shape.
pub proof fn lemma_rm_dims_absorbs<D>(input: Seq<D>, axes: Seq<usize>, axis: usize)
    requires
        axes.contains(axis),
        axis < input.len() <= usize::MAX,
    ensures
        rm_axes(input.remove(axis as int), rm_axis(axes, axis)) == rm_axes(input, axes),
    decreases input.len(),
{
    let last = (input.len() - 1) as usize;
    let init = input.drop_last();
    let changed = rm_axis(axes, axis);
    if last == axis {
        assert(input.remove(axis as int) =~= init);
        assert forall|p: usize| p < init.len() implies (changed.contains(p) <==> axes.contains(
            p,
        )) by {
            lemma_rm_axis_contains(axes, axis, p);
        }
        lemma_rm_axes_by_membership(init, changed, axes);
    } else {
        lemma_rm_dims_absorbs(init, axes, axis);
        let shorter = input.remove(axis as int);
        assert(shorter.drop_last() =~= init.remove(axis as int));
        assert(shorter.last() == input.last());
        lemma_rm_axis_contains(axes, axis, (last - 1) as usize);
    }
}

/// **An input of the removing operator loses an axis that the operator
/// keeps.** The operator that `change_axes` puts in its place gives, for
/// the input without that axis, the old output shape without the axis that
/// `change_axes` names, whatever the axes of the operator are.
pub proof fn lemma_rm_dims_propagates<D>(input: Seq<D>, axes: Seq<usize>, axis: usize)
    requires
        !axes.contains(axis),
        axis < input.len() <= usize::MAX,
    ensures
        kept_axes(axes, axis as nat).len() < rm_axes(input, axes).len(),
        rm_axes(input.remove(axis as int), rm_axis(axes, axis)) == rm_axes(input, axes).remove(
            kept_axes(axes, axis as nat).len() as int,
        ),
    decreases input.len(),
{
    let last = (input.len() - 1) as usize;
    let init = input.drop_last();
    let changed = rm_axis(axes, axis);
    let at = kept_axes(axes, axis as nat).len() as int;
    lemma_rm_axes_len(input.take(axis as int), axes);
    lemma_rm_axes_len(init, axes);
    lemma_rm_axes_len(input, axes);
    if last == axis {
        assert(input.take(axis as int) =~= init);
        assert(input.remove(axis as int) =~= init);
        assert forall|p: usize| p < init.len() implies (changed.contains(p) <==> axes.contains(
            p,
        )) by {
            lemma_rm_axis_contains(axes, axis, p);
        }
        lemma_rm_axes_by_membership(init, changed, axes);
        assert(rm_axes(init, axes).push(input.last()).remove(at) =~= rm_axes(init, axes));
    } else {
        lemma_rm_dims_propagates(init, axes, axis);
        let shorter = input.remove(axis as int);
        assert(shorter.drop_last() =~= init.remove(axis as int));
        assert(shorter.last() == input.last());
        lemma_rm_axis_contains(axes, axis, (last - 1) as usize);
        let kept = rm_axes(init, axes);
        assert(kept.push(input.last()).remove(at) =~= kept.remove(at).push(input.last()));
    }
}

/// **An input of the adding operator loses an axis.** The operator that
/// `change_axes` puts in its place gives, for the input without the axis,
/// the old output shape without the axis that `change_axes` names, whatever
/// the axes of the operator are.
pub proof fn lemma_add_dims_follows_input<D: DimLike>(input: Seq<D>, axes: Seq<usize>, axis: usize)
    requires
        can_add(input.len(), axes),
        axis < input.len(),
    ensures
        axis <= out_place(axes, axis as int) < input.len() + axes.len(),
        axes_around(axes, axis as int).len() == axes.len(),
        can_add((input.len() - 1) as nat, axes_around(axes, axis as int)),
        add_axes(input.remove(axis as int), axes_around(axes, axis as int)) == add_axes(
            input,
            axes,
        ).remove(out_place(axes, axis as int)),
    decreases axes.len(),
{
    if axes.len() > 0 {
        let init = axes.drop_last();
        let a = axes.last();
        assert(a == axes[axes.len() - 1]);
        assert forall|i: int| 0 <= i < init.len() implies #[trigger] init[i] <= input.len() + i by {
            assert(init[i] == axes[i]);
        }
        lemma_add_dims_follows_input(input, init, axis);
        lemma_add_axes_len(input, init);
        let before = add_axes(input, init);
        let p = out_place(init, axis as int);
        let rest = axes_around(init, axis as int);
        let around = axes_around(axes, axis as int);
        assert(around.drop_last() =~= rest);
        if a <= p {
            assert(before.remove(p).insert(a as int, D::unit()) =~= before.insert(
                a as int,
                D::unit(),
            ).remove(p + 1));
        } else {
            assert(before.remove(p).insert(a - 1, D::unit()) =~= before.insert(
                a as int,
                D::unit(),
            ).remove(p));
        }
        assert forall|j: int| 0 <= j < around.len() implies #[trigger] around[j] <= input.len() - 1
            + j by {
            if j < rest.len() {
                assert(around[j] == rest[j]);
            }
        }
    }
}

/// Where the axes rise, an input that loses an axis leaves the axes without
/// the place that the axis had in the output and with the axes behind it
/// moved down, and that place is none of the axes.
pub proof fn lemma_axes_around_rising(axes: Seq<usize>, x: usize)
    requires
        ascending(axes),
        out_place(axes, x as int) <= usize::MAX,
    ensures
        !axes.contains(out_place(axes, x as int) as usize),
        axes_around(axes, x as int) == rm_axis(axes, out_place(axes, x as int) as usize),
    decreases axes.len(),
{
    if axes.len() > 0 {
        let init = axes.drop_last();
        let a = axes.last();
        assert(a == axes[axes.len() - 1]);
        assert forall|i: int, j: int| 0 <= i < j < init.len() implies init[i] < init[j] by {
            assert(init[i] == axes[i] && init[j] == axes[j]);
        }
        lemma_out_place_from(init, x as int);
        lemma_axes_around_rising(init, x);
        let p = out_place(init, x as int) as usize;
        let o = out_place(axes, x as int) as usize;
        lemma_contains_last(axes, o);
        assert forall|i: int| 0 <= i < init.len() implies init[i] < a by {
            assert(init[i] == axes[i]);
            assert(axes[i] < axes[axes.len() - 1]);
        }
        if a <= p {
            assert forall|i: int| 0 <= i < init.len() implies init[i] < p by {}
            lemma_all_below(init, p);
            lemma_all_below(init, o);
        }
    }
}

/// **An output of the removing operator loses an axis.** Where the output
/// has the axis, the input has the axis that `change_axes` names, and the
/// operator that `change_axes` puts in its place gives, for the input
/// without that axis, the old output shape without the axis that the output
/// lost, whatever the axes of the operator are.
pub proof fn lemma_rm_dims_follows_output<D>(input: Seq<D>, axes: Seq<usize>, axis: usize)
    requires
        axis + axes.len() + 1 <= usize::MAX,
        input.len() <= usize::MAX,
        axis < rm_axes(input, axes).len(),
    ensures
        0 <= in_place(axes, axis as int) < input.len(),
        !axes.contains(in_place(axes, axis as int) as usize),
        rm_axes(
            input.remove(in_place(axes, axis as int)),
            rm_axis(axes, in_place(axes, axis as int) as usize),
        ) == rm_axes(input, axes).remove(axis as int),
{
    let bound = (axis + axes.len() + 1) as usize;
    let rank = input.len();
    crate::rm_dims::lemma_distinct_and_kept(axes, bound);
    lemma_distinct_bound(axes, bound as int);
    lemma_kept_axes_grow(axes, bound as nat, bound as nat);
    lemma_rm_axes_len(input, axes);
    lemma_kept_axes_grow(axes, rank, rank);
    let place = kept_axes(axes, bound as nat)[axis as int];
    if rank <= bound {
        lemma_kept_axes_grow(axes, rank, bound as nat);
        let fewer = kept_axes(axes, rank);
        assert(kept_axes(axes, bound as nat).take(fewer.len() as int)[axis as int] == place);
        assert(fewer[axis as int] == place);
    }
    lemma_rm_dims_propagates(input, axes, place);
}

/// No more places lie below a bound among the axes than there are axes.
proof fn lemma_distinct_bound(axes: Seq<usize>, bound: int)
    ensures
        distinct_below(axes, bound) <= axes.len(),
    decreases axes.len(),
{
    if axes.len() > 0 {
        lemma_distinct_bound(axes.drop_last(), bound);
    }
}

/// **Every axis change that the adding operator answers is sound.** Where
/// the operator can be applied to the input and the wire that loses the axis
/// has it, the operator that `change_axes` puts in its place gives, for the
/// input as the wire changes leave it, the old output shape as the wire
/// changes leave it.
pub proof fn lemma_add_dims_change_is_sound<D: DimLike>(
    input: Seq<D>,
    axes: Seq<usize>,
    io: InOut,
    axis: usize,
)
    requires
        can_add(input.len(), axes),
        AddDims::answers(axes, io),
        AddDims::change_fits(axes, io, axis),
        io is In ==> axis < input.len(),
        io is Out ==> axis < input.len() + axes.len(),
    ensures
        ({
            let changed = AddDims::changed_axes(axes, io, axis);
            let changes = AddDims::wire_changes(axes, io, axis);
            let output = add_axes(input, axes);
            let new_input = match io {
                InOut::In(_) => input.remove(axis as int),
                InOut::Out(_) => if changes.len() == 0 {
                    input
                } else {
                    input.remove(changes[0].1->0 as int)
                },
            };
            let new_output = match io {
                InOut::In(_) => output.remove(changes[0].1->0 as int),
                InOut::Out(_) => output.remove(axis as int),
            };
            &&& can_add(new_input.len(), changed)
            &&& add_axes(new_input, changed) == new_output
        }),
{
    match io {
        InOut::In(_) => {
            lemma_add_dims_follows_input(input, axes, axis);
        },
        InOut::Out(_) => {
            if axes.contains(axis) {
                lemma_add_dims_absorbs(input, axes, axis);
            } else {
                lemma_add_dims_propagates(input, axes, axis);
            }
        },
    }
}

/// **Every axis change that the removing operator answers is sound.**
/// Where the wire that loses the axis has it, the operator that
/// `change_axes` puts in its place gives, for the input as the wire changes
/// leave it, the old output shape as the wire changes leave it.
pub proof fn lemma_rm_dims_change_is_sound<D>(input: Seq<D>, axes: Seq<usize>, io: InOut, axis: usize)
    requires
        input.len() <= usize::MAX,
        RmDims::change_fits(axes, io, axis),
        io is In ==> axis < input.len(),
        io is Out ==> axis < rm_axes(input, axes).len(),
    ensures
        ({
            let changed = RmDims::changed_axes(axes, io, axis);
            let changes = RmDims::wire_changes(axes, io, axis);
            let output = rm_axes(input, axes);
            let new_input = match io {
                InOut::In(_) => input.remove(axis as int),
                InOut::Out(_) => input.remove(changes[0].1->0 as int),
            };
            let new_output = match io {
                InOut::In(_) => if changes.len() == 0 {
                    output
                } else {
                    output.remove(changes[0].1->0 as int)
                },
                InOut::Out(_) => output.remove(axis as int),
            };
            rm_axes(new_input, changed) == new_output
        }),
{
    match io {
        InOut::In(_) => {
            if axes.contains(axis) {
                lemma_rm_dims_absorbs(input, axes, axis);
            } else {
                crate::rm_dims::lemma_distinct_and_kept(axes, axis);
                lemma_rm_dims_propagates(input, axes, axis);
            }
        },
        InOut::Out(_) => {
            lemma_rm_dims_follows_output(input, axes, axis);
        },
    }
}

/// **Adding back the axes that were taken out.** Where the axes rise, lie
/// in the shape and have length one there, the adding operator gives back
/// the shape that the removing operator was applied to.
pub proof fn lemma_add_after_rm_shape<D: DimLike>(shape: Seq<D>, axes: Seq<usize>)
    requires
        shape.len() <= usize::MAX,
        ascending(axes),
        forall|i: int| 0 <= i < axes.len() ==> axes[i] < shape.len() && shape[axes[i] as int] == D::unit(),
    ensures
        rm_axes(shape, axes).len() + axes.len() == shape.len(),
        can_add(rm_axes(shape, axes).len(), axes),
        add_axes(rm_axes(shape, axes), axes) == shape,
    decreases axes.len(),
{
    if axes.len() == 0 {
        assert forall|p: usize| p < shape.len() implies (axes.contains(p) <==> Seq::<
            usize,
        >::empty().contains(p)) by {}
        lemma_rm_axes_none(shape);
        lemma_rm_axes_by_membership(shape, axes, Seq::empty());
    } else {
        let init = axes.drop_last();
        let a = axes.last();
        assert(a == axes[axes.len() - 1]);
        assert forall|i: int| 0 <= i < init.len() implies init[i] < a by {
            assert(init[i] == axes[i]);
            assert(axes[i] < axes[axes.len() - 1]);
        }
        lemma_all_below(init, a);
        assert(init.push(a) =~= axes);
        assert(rm_axis(axes, a) == rm_axis(init, a));
        assert(axes.contains(a));
        lemma_rm_dims_absorbs(shape, axes, a);
        let shorter = shape.remove(a as int);
        assert forall|i: int| 0 <= i < init.len() implies init[i] < shorter.len()
            && shorter[init[i] as int] == D::unit() by {
            assert(init[i] == axes[i]);
        }
        assert forall|i: int, j: int| 0 <= i < j < init.len() implies init[i] < init[j] by {
            assert(init[i] == axes[i] && init[j] == axes[j]);
        }
        lemma_add_after_rm_shape(shorter, init);
        assert(shorter.insert(a as int, D::unit()) =~= shape);
        assert forall|j: int| 0 <= j < axes.len() implies #[trigger] axes[j] <= rm_axes(
            shape,
            axes,
        ).len() + j by {
            if j < init.len() {
                assert(axes[j] == init[j]);
            }
        }
    }
}

/// The operator that takes no axis out leaves a shape as it is.
proof fn lemma_rm_axes_none<D>(shape: Seq<D>)
    ensures
        rm_axes(shape, Seq::empty()) == shape,
    decreases shape.len(),
{
    if shape.len() > 0 {
        lemma_rm_axes_none(shape.drop_last());
        assert(shape.drop_last().push(shape.last()) =~= shape);
    }
}

/// **Adding back the axes that were taken out, on tensors.** Where the axes
/// rise, lie in the shape of the tensor and have length one there, the
/// removing operator succeeds on the tensor, the adding operator succeeds on
/// its result, and gives the tensor back.
pub proof fn lemma_add_after_rm_tensor(t: TensorView, axes: Seq<usize>)
    requires
        t.shape.len() <= usize::MAX,
        ascending(axes),
        forall|i: int| 0 <= i < axes.len() ==> axes[i] < t.shape.len() && t.shape[axes[i] as int] == 1,
    ensures
        product(rm_axes(t.shape, axes)) == product(t.shape),
        can_add(rm_axes(t.shape, axes).len(), axes),
        t.reshaped(rm_axes(t.shape, axes)).reshaped(add_axes(rm_axes(t.shape, axes), axes)) == t,
{
    lemma_add_after_rm_shape::<usize>(t.shape, axes);
    lemma_add_axes_product(rm_axes(t.shape, axes), axes);
}

/// Two shapes of one rank without one of their axes broadcast where the
/// shapes did, to the broadcast shape without that axis.
proof fn lemma_broadcast_without_axis<D: DimLike>(p: Seq<D>, q: Seq<D>, axis: int)
    requires
        p.len() == q.len(),
        0 <= axis < p.len(),
        compatible(p, q),
    ensures
        compatible(p.remove(axis), q.remove(axis)),
        broadcast_shape(p.remove(axis), q.remove(axis)) == broadcast_shape(p, q).remove(axis),
{
    let n = p.len();
    let m = (n - 1) as nat;
    let p_less = p.remove(axis);
    let q_less = q.remove(axis);
    assert(left_pad(p, n) == p);
    assert(left_pad(q, n) == q);
    assert(left_pad(p_less, m) == p_less);
    assert(left_pad(q_less, m) == q_less);
    assert(crate::broadcast::max_rank(p.len(), q.len()) == n);
    assert(crate::broadcast::max_rank(p_less.len(), q_less.len()) == m);
    assert forall|i: int| 0 <= i < m implies crate::broadcast::dims_agree(
        #[trigger] left_pad(p_less, crate::broadcast::max_rank(p_less.len(), q_less.len()))[i],
        left_pad(q_less, crate::broadcast::max_rank(p_less.len(), q_less.len()))[i],
    ) by {
        let k = if i < axis {
            i
        } else {
            i + 1
        };
        assert(p_less[i] == p[k] && q_less[i] == q[k]);
        assert(crate::broadcast::dims_agree(
            left_pad(p, crate::broadcast::max_rank(p.len(), q.len()))[k],
            left_pad(q, crate::broadcast::max_rank(p.len(), q.len()))[k],
        ));
    }
    assert(broadcast_shape(p_less, q_less) =~= broadcast_shape(p, q).remove(axis));
}

/// Operands of one rank of at least two are seen by the product as they
/// stand.
proof fn lemma_equal_ranks_need_no_padding<D: DimLike>(
    a: Seq<D>,
    b: Seq<D>,
    a_trans: bool,
    b_trans: bool,
)
    requires
        a.len() == b.len(),
        a.len() >= 2,
    ensures
        bc_a_shape(a, b, a_trans) == a,
        bc_b_shape(a, b, b_trans) == b,
{
    reveal(bc_a_shape);
    reveal(bc_b_shape);
}

/// **A product loses a prefix axis that both operands have.** Where the
/// operands have one rank of at least three and `axis` lies before their
/// matrix axes, the product of the operands without that axis has the shape
/// of the product without that axis, and can be inferred where the product
/// could.
pub proof fn lemma_product_without_axis<D: DimLike>(
    a: Seq<D>,
    b: Seq<D>,
    a_trans: bool,
    b_trans: bool,
    c_trans: bool,
    axis: int,
)
    requires
        a.len() == b.len(),
        0 <= axis < a.len() - 2,
        shapes_agree(a, b, a_trans, b_trans),
    ensures
        shapes_agree(a.remove(axis), b.remove(axis), a_trans, b_trans),
        bc_c_shape(a.remove(axis), b.remove(axis), a_trans, b_trans, c_trans) == bc_c_shape(
            a,
            b,
            a_trans,
            b_trans,
            c_trans,
        ).remove(axis),
        final_c_shape(a.remove(axis), b.remove(axis), a_trans, b_trans, c_trans) == final_c_shape(
            a,
            b,
            a_trans,
            b_trans,
            c_trans,
        ).remove(axis),
{
    let r = a.len();
    let a1 = a.remove(axis);
    let b1 = b.remove(axis);
    lemma_equal_ranks_need_no_padding(a, b, a_trans, b_trans);
    lemma_equal_ranks_need_no_padding(a1, b1, a_trans, b_trans);
    let pa = crate::shapes::prefix(a);
    let pb = crate::shapes::prefix(b);
    assert(crate::shapes::prefix(a1) =~= pa.remove(axis));
    assert(crate::shapes::prefix(b1) =~= pb.remove(axis));
    lemma_broadcast_without_axis(pa, pb, axis);
    let p = crate::shapes::c_prefix(a, b, a_trans, b_trans);
    let p_less = crate::shapes::c_prefix(a1, b1, a_trans, b_trans);
    assert(p_less == p.remove(axis) && p.len() == r - 2) by {
        reveal(crate::shapes::c_prefix);
    }
    assert(a1[r - 2] == a[r - 1] && a1[r - 3] == a[r - 2]);
    assert(b1[r - 2] == b[r - 1] && b1[r - 3] == b[r - 2]);
    reveal(bc_c_shape);
    reveal(final_c_shape);
    assert(bc_c_shape(a1, b1, a_trans, b_trans, c_trans) =~= bc_c_shape(
        a,
        b,
        a_trans,
        b_trans,
        c_trans,
    ).remove(axis));
    assert(final_c_shape(a1, b1, a_trans, b_trans, c_trans) =~= final_c_shape(
        a,
        b,
        a_trans,
        b_trans,
        c_trans,
    ).remove(axis));
}

/// The left operand, padded for a wire that lost an axis in front of it,
/// is the padded operand without that axis.
proof fn lemma_padding_without_axis<D: DimLike>(
    a: Seq<D>,
    b: Seq<D>,
    a_trans: bool,
    b_trans: bool,
    axis: int,
)
    requires
        b.len() >= 3,
        0 <= axis,
        expanded_rank(a.len()) + axis < b.len(),
        operands_admit(a.len(), b.len(), a_trans, b_trans),
    ensures
        operands_admit(a.len(), (b.len() - 1) as nat, a_trans, b_trans),
        bc_a_shape(a, b.remove(axis), a_trans) == bc_a_shape(a, b, a_trans).remove(axis),
        bc_b_shape(a, b.remove(axis), b_trans) == bc_b_shape(a, b, b_trans).remove(axis),
        bc_a_shape(a, b, a_trans).len() == b.len(),
        bc_b_shape(a, b, b_trans) == b,
{
    reveal(bc_a_shape);
    reveal(bc_b_shape);
    let e = expand_a(a, a_trans);
    assert(e.len() == expanded_rank(a.len()));
    assert(left_pad(e, (b.len() - 1) as nat) =~= left_pad(e, b.len()).remove(axis));
}

/// Squeezing the matrix axes of a shape and taking out an axis in front of
/// them can be done in either order.
proof fn lemma_squeeze_without_axis<D>(
    c: Seq<D>,
    drop_m: bool,
    drop_n: bool,
    c_trans: bool,
    axis: int,
)
    requires
        0 <= axis < c.len() - 2,
    ensures
        squeeze(c.remove(axis), drop_m, drop_n, c_trans) == squeeze(c, drop_m, drop_n, c_trans).remove(
            axis,
        ),
{
    assert(squeeze(c.remove(axis), drop_m, drop_n, c_trans) =~= squeeze(
        c,
        drop_m,
        drop_n,
        c_trans,
    ).remove(axis));
}

/// **A product loses a prefix axis that only the wire has.** Where `axis`
/// lies before every axis of the left operand, as the product sees it next
/// to the wire, the product of the operand and the wire without that axis
/// has the shape of the product without that axis, and can be inferred
/// where the product could.
pub proof fn lemma_product_without_wire_axis<D: DimLike>(
    a: Seq<D>,
    b: Seq<D>,
    a_trans: bool,
    b_trans: bool,
    c_trans: bool,
    axis: int,
)
    requires
        0 <= axis < b.len() - 2,
        expanded_rank(a.len()) + axis < b.len(),
        shapes_agree(a, b, a_trans, b_trans),
    ensures
        shapes_agree(a, b.remove(axis), a_trans, b_trans),
        final_c_shape(a, b.remove(axis), a_trans, b_trans, c_trans) == final_c_shape(
            a,
            b,
            a_trans,
            b_trans,
            c_trans,
        ).remove(axis),
{
    let b1 = b.remove(axis);
    lemma_padding_without_axis(a, b, a_trans, b_trans, axis);
    let pa = bc_a_shape(a, b, a_trans);
    let pb = bc_b_shape(a, b, b_trans);
    // The padded operands are operands of one rank.
    lemma_shape_round_trip(a, b, a_trans, b_trans, c_trans);
    lemma_padded_operands_are_fixed(a, b, a_trans, b_trans, c_trans);
    lemma_product_without_axis(pa, pb, a_trans, b_trans, c_trans, axis);
    // What holds of the padded operands without the axis holds of the
    // operand and the shorter wire, which are padded to them.
    lemma_padded_operands_are_fixed(a, b1, a_trans, b_trans, c_trans);
    lemma_agreement_by_padding(a, b1, a_trans, b_trans);
    lemma_final_shape_is_squeezed(a, b, a_trans, b_trans, c_trans);
    lemma_final_shape_is_squeezed(a, b1, a_trans, b_trans, c_trans);
    lemma_common_rank(a, b, a_trans, b_trans, c_trans);
    lemma_squeeze_without_axis(
        bc_c_shape(a, b, a_trans, b_trans, c_trans),
        implicit_m(a),
        implicit_n(b),
        c_trans,
        axis,
    );
}

/// The left operand without one of its prefix axes, padded for a wire that
/// lost the axis aligned with it, is the padded operand without that axis.
proof fn lemma_padding_without_aligned_axis<D: DimLike>(
    a: Seq<D>,
    b: Seq<D>,
    a_trans: bool,
    b_trans: bool,
    axis: int,
)
    requires
        a.len() <= b.len(),
        b.len() - a.len() <= axis < b.len() - 2,
    ensures
        operands_admit(a.len(), b.len(), a_trans, b_trans),
        operands_admit((a.len() - 1) as nat, (b.len() - 1) as nat, a_trans, b_trans),
        bc_a_shape(a.remove(axis - (b.len() - a.len())), b.remove(axis), a_trans) == bc_a_shape(
            a,
            b,
            a_trans,
        ).remove(axis),
        bc_b_shape(a.remove(axis - (b.len() - a.len())), b.remove(axis), b_trans) == bc_b_shape(
            a,
            b,
            b_trans,
        ).remove(axis),
        bc_a_shape(a, b, a_trans).len() == b.len(),
        bc_b_shape(a, b, b_trans) == b,
{
    reveal(bc_a_shape);
    reveal(bc_b_shape);
    let ahead = b.len() - a.len();
    let shorter = a.remove(axis - ahead);
    assert(left_pad(shorter, (b.len() - 1) as nat) =~= left_pad(a, b.len()).remove(axis));
}

/// **A product loses a prefix axis that the constant has too.** Where
/// `axis` lies before the matrix axes of the wire and is aligned, from the
/// right, with an axis of the left operand, the product of the operand
/// without its aligned axis and the wire without the axis has the shape of
/// the product without that axis, and can be inferred where the product
/// could.
pub proof fn lemma_product_without_aligned_axis<D: DimLike>(
    a: Seq<D>,
    b: Seq<D>,
    a_trans: bool,
    b_trans: bool,
    c_trans: bool,
    axis: int,
)
    requires
        a.len() <= b.len(),
        b.len() - a.len() <= axis < b.len() - 2,
        shapes_agree(a, b, a_trans, b_trans),
    ensures
        shapes_agree(a.remove(axis - (b.len() - a.len())), b.remove(axis), a_trans, b_trans),
        final_c_shape(
            a.remove(axis - (b.len() - a.len())),
            b.remove(axis),
            a_trans,
            b_trans,
            c_trans,
        ) == final_c_shape(a, b, a_trans, b_trans, c_trans).remove(axis),
{
    let a1 = a.remove(axis - (b.len() - a.len()));
    let b1 = b.remove(axis);
    lemma_padding_without_aligned_axis(a, b, a_trans, b_trans, axis);
    let pa = bc_a_shape(a, b, a_trans);
    let pb = bc_b_shape(a, b, b_trans);
    lemma_shape_round_trip(a, b, a_trans, b_trans, c_trans);
    lemma_padded_operands_are_fixed(a, b, a_trans, b_trans, c_trans);
    lemma_product_without_axis(pa, pb, a_trans, b_trans, c_trans, axis);
    lemma_padded_operands_are_fixed(a1, b1, a_trans, b_trans, c_trans);
    lemma_agreement_by_padding(a1, b1, a_trans, b_trans);
    lemma_final_shape_is_squeezed(a, b, a_trans, b_trans, c_trans);
    lemma_final_shape_is_squeezed(a1, b1, a_trans, b_trans, c_trans);
    lemma_common_rank(a, b, a_trans, b_trans, c_trans);
    lemma_squeeze_without_axis(
        bc_c_shape(a, b, a_trans, b_trans, c_trans),
        implicit_m(a),
        implicit_n(b),
        c_trans,
        axis,
    );
}

/// The product that `MatMulUnary::change_axes` leaves behind the removal
/// of `axis` from a wire of rank `b_rank`: the product with the constant
/// without its aligned axis where the constant changes, else the product as
/// it is.
pub open spec fn unary_after_removal(op: MatMulUnaryView, b_rank: nat, axis: usize) -> MatMulUnaryView {
    if crate::matmul::MatMulUnary::constant_changes(op, b_rank, axis) {
        MatMulUnaryView {
            a: op.a.without_axis(crate::matmul::MatMulUnary::constant_axis(op, b_rank, axis)),
            ..op
        }
    } else {
        op
    }
}

/// **Every axis change that a product with a constant accepts is sound.**
/// Where `MatMulUnary::change_axes` does not refuse the removal of `axis`,
/// the product that it leaves, fed the wire without that axis, has the fact
/// of the old product without that axis.
pub proof fn lemma_unary_change_is_sound(op: MatMulUnaryView, wire: TypedFactView, axis: usize)
    requires
        crate::matmul::MatMulUnary::accepts_removal(op, wire.shape.len(), axis),
        crate::matmul::MatMulUnary::constant_follows(op, wire.shape.len(), axis),
        shapes_agree(crate::dim::as_dims(op.a.shape), wire.shape, op.a_trans, op.b_trans),
    ensures
        ({
            let after = unary_after_removal(op, wire.shape.len(), axis);
            let shorter = TypedFactView { shape: wire.shape.remove(axis as int), ..wire };
            &&& shapes_agree(
                crate::dim::as_dims(after.a.shape),
                shorter.shape,
                after.a_trans,
                after.b_trans,
            )
            &&& crate::matmul::MatMulUnary::output_fact(after, shorter) == (TypedFactView {
                shape: crate::matmul::MatMulUnary::output_fact(op, wire).shape.remove(axis as int),
                ..crate::matmul::MatMulUnary::output_fact(op, wire)
            })
        }),
{
    let a = crate::dim::as_dims(op.a.shape);
    let b = wire.shape;
    if crate::matmul::MatMulUnary::constant_changes(op, b.len(), axis) {
        let at = crate::matmul::MatMulUnary::constant_axis(op, b.len(), axis);
        assert(crate::dim::as_dims(op.a.shape.remove(at)) =~= a.remove(at));
        lemma_product_without_aligned_axis(a, b, op.a_trans, op.b_trans, op.c_trans, axis as int);
    } else {
        lemma_product_without_wire_axis(a, b, op.a_trans, op.b_trans, op.c_trans, axis as int);
    }
}

/// Operands whose padded forms pass the tests of the product pass them
/// too.
proof fn lemma_agreement_by_padding<D: DimLike>(a: Seq<D>, b: Seq<D>, a_trans: bool, b_trans: bool)
    requires
        operands_admit(a.len(), b.len(), a_trans, b_trans),
        shapes_agree(bc_a_shape(a, b, a_trans), bc_b_shape(a, b, b_trans), a_trans, b_trans),
    ensures
        shapes_agree(a, b, a_trans, b_trans),
{
    lemma_padded_operands_are_fixed(a, b, a_trans, b_trans, false);
}

/// Two shapes that broadcast do so in either order, to one shape.
proof fn lemma_broadcast_either_way<D: DimLike>(p: Seq<D>, q: Seq<D>)
    requires
        compatible(p, q),
    ensures
        compatible(q, p),
        broadcast_shape(q, p) == broadcast_shape(p, q),
{
    let n = crate::broadcast::max_rank(p.len(), q.len());
    assert(crate::broadcast::max_rank(q.len(), p.len()) == n);
    assert forall|i: int| 0 <= i < n implies crate::broadcast::dims_agree(
        #[trigger] left_pad(q, crate::broadcast::max_rank(q.len(), p.len()))[i],
        left_pad(p, crate::broadcast::max_rank(q.len(), p.len()))[i],
    ) by {
        assert(crate::broadcast::dims_agree(left_pad(p, n)[i], left_pad(q, n)[i]));
    }
    assert forall|i: int| 0 <= i < n implies broadcast_shape(q, p)[i] == broadcast_shape(p, q)[i] by {
        assert(crate::broadcast::dims_agree(left_pad(p, n)[i], left_pad(q, n)[i]));
    }
    assert(broadcast_shape(q, p) =~= broadcast_shape(p, q));
}

/// The operands of a product, swapped and with their flags flipped, are
/// seen by the product as they were seen before, each in the place of the
/// other.
proof fn lemma_swapped_operands<D: DimLike>(a: Seq<D>, b: Seq<D>, a_trans: bool, b_trans: bool)
    requires
        operands_admit(a.len(), b.len(), a_trans, b_trans),
    ensures
        operands_admit(b.len(), a.len(), !b_trans, !a_trans),
        bc_a_shape(b, a, !b_trans) == bc_b_shape(a, b, b_trans),
        bc_b_shape(b, a, !a_trans) == bc_a_shape(a, b, a_trans),
        bc_a_shape(a, b, a_trans).len() == bc_b_shape(a, b, b_trans).len(),
        bc_a_shape(a, b, a_trans).len() >= 2,
{
    reveal(bc_a_shape);
    reveal(bc_b_shape);
}

/// **A product can be taken from the other side.** The product of the
/// operands in the other order, with every flag flipped, can be inferred
/// where the product could, and has the same shape.
pub proof fn lemma_swapped_product<D: DimLike>(
    a: Seq<D>,
    b: Seq<D>,
    a_trans: bool,
    b_trans: bool,
    c_trans: bool,
)
    requires
        shapes_agree(a, b, a_trans, b_trans),
    ensures
        shapes_agree(b, a, !b_trans, !a_trans),
        bc_c_shape(b, a, !b_trans, !a_trans, !c_trans) == bc_c_shape(a, b, a_trans, b_trans, c_trans),
        final_c_shape(b, a, !b_trans, !a_trans, !c_trans) == final_c_shape(
            a,
            b,
            a_trans,
            b_trans,
            c_trans,
        ),
{
    lemma_swapped_operands(a, b, a_trans, b_trans);
    let pa = crate::shapes::prefix(bc_a_shape(a, b, a_trans));
    let pb = crate::shapes::prefix(bc_b_shape(a, b, b_trans));
    lemma_broadcast_either_way(pa, pb);
    assert(crate::shapes::c_prefix(b, a, !b_trans, !a_trans) == crate::shapes::c_prefix(
        a,
        b,
        a_trans,
        b_trans,
    )) by {
        reveal(crate::shapes::c_prefix);
    }
    reveal(bc_c_shape);
    reveal(final_c_shape);
    assert(final_c_shape(b, a, !b_trans, !a_trans, !c_trans) =~= final_c_shape(
        a,
        b,
        a_trans,
        b_trans,
        c_trans,
    ));
}

/// **The product with a constant keeps the fact of the product.** In a
/// typed graph, where the operands of a product have one element type and
/// the fact of a constant operand has the shape of the constant, the
/// operator that `MatMul::declutter` puts in the place of the product has,
/// for the other operand, the fact that `MatMul::output_facts` gives the
/// product.
pub proof fn lemma_unary_keeps_the_fact(op: crate::matmul::MatMul, a: TypedFactView, b: TypedFactView)
    requires
        shapes_agree(a.shape, b.shape, op.a_trans, op.b_trans),
        a.datum_type == b.datum_type,
        a.konst is Some || b.konst is Some,
        a.konst is Some ==> crate::dim::as_dims(a.konst.unwrap().shape) == a.shape,
        b.konst is Some ==> crate::dim::as_dims(b.konst.unwrap().shape) == b.shape,
    ensures
        ({
            let ix = crate::matmul::MatMul::konst_ix(a, b);
            let konst = if ix == 0 {
                a
            } else {
                b
            };
            let var = if ix == 0 {
                b
            } else {
                a
            };
            let unary = crate::matmul::unary_for(op, konst.konst.unwrap(), ix);
            &&& shapes_agree(crate::dim::as_dims(unary.a.shape), var.shape, unary.a_trans, unary.b_trans)
            &&& crate::matmul::MatMulUnary::output_fact(unary, var) == TypedFactView::dt_shape(
                crate::matmul::product_type(op.q_params, a.datum_type),
                final_c_shape(a.shape, b.shape, op.a_trans, op.b_trans, op.c_trans),
            )
        }),
{
    if a.konst is None {
        lemma_swapped_product(a.shape, b.shape, op.a_trans, op.b_trans, op.c_trans);
    }
}

/// The node is a source or a constant.
pub open spec fn is_leaf(node: NodeView<TypedFactView>) -> bool {
    node.op is Source || node.op is Const
}

/// Every node of the patch is a source, a constant, a sum, or a product
/// with a constant that reads a source or a constant of the patch: none is a
/// product of two wires, none adds or takes out axes, and no product reads a
/// concatenation.
pub open spec fn is_settled(patch: PatchView) -> bool {
    forall|i: int|
        0 <= i < patch.model.nodes.len() ==> {
            let node = #[trigger] patch.model.nodes[i];
            ||| is_leaf(node)
            ||| node.op is Add
            ||| {
                &&& node.op is MatMulUnary
                &&& node.inputs.len() == 1
                &&& patch.model.has_outlet(node.inputs[0])
                &&& is_leaf(patch.model.nodes[node.inputs[0].node as int])
            }
        }
}

/// The parts of a split are settled.
proof fn lemma_split_parts_settled(
    model: ModelView<TypedFactView>,
    node: NodeView<TypedFactView>,
    concat_node: NodeView<TypedFactView>,
    concat: NormConcatView,
    op: MatMulUnaryView,
    offsets: Seq<usize>,
    upto: nat,
)
    requires
        split_parts(model, node, concat_node, concat, op, offsets, upto) is Ok,
        2 * upto <= usize::MAX,
    ensures
        is_settled(split_parts(model, node, concat_node, concat, op, offsets, upto)->Ok_0.patch),
        split_parts(model, node, concat_node, concat, op, offsets, upto)->Ok_0.patch.model.nodes.len()
            == 2 * upto,
    decreases upto,
{
    if upto > 0 {
        lemma_split_parts_settled(model, node, concat_node, concat, op, offsets, (upto - 1) as nat);
        let before = split_parts(
            model,
            node,
            concat_node,
            concat,
            op,
            offsets,
            (upto - 1) as nat,
        )->Ok_0;
        let after = split_parts(model, node, concat_node, concat, op, offsets, upto)->Ok_0;
        let n = before.patch.model.nodes.len() as int;
        assert(after.patch.model.nodes.len() == n + 2);
        assert(is_leaf(after.patch.model.nodes[n]));
        assert(after.patch.model.nodes[n].outputs.len() == 1);
        assert forall|i: int| 0 <= i < after.patch.model.nodes.len() implies {
            let x = #[trigger] after.patch.model.nodes[i];
            ||| is_leaf(x)
            ||| x.op is Add
            ||| {
                &&& x.op is MatMulUnary
                &&& x.inputs.len() == 1
                &&& after.patch.model.has_outlet(x.inputs[0])
                &&& is_leaf(after.patch.model.nodes[x.inputs[0].node as int])
            }
        } by {
            if i < n {
                let x = before.patch.model.nodes[i];
                assert(after.patch.model.nodes[i] == x);
                if x.op is MatMulUnary {
                    let o = x.inputs[0];
                    assert(before.patch.model.has_outlet(o));
                    assert(after.patch.model.nodes[o.node as int] == before.patch.model.nodes[o.node as int]);
                }
            } else if i == n + 1 {
                assert(after.patch.model.nodes[i].inputs[0] == (OutletId { node: n as usize, slot: 0 }));
            }
        }
    }
}

/// The sums of a settled split are settled.
proof fn lemma_sum_parts_settled(split: SplitView, node: Seq<char>, upto: nat)
    requires
        is_settled(split.patch),
        sum_parts(split, node, upto) is Ok,
    ensures
        is_settled(sum_parts(split, node, upto)->Ok_0.patch),
    decreases upto,
{
    if upto > 0 {
        lemma_sum_parts_settled(split, node, (upto - 1) as nat);
        let before = sum_parts(split, node, (upto - 1) as nat)->Ok_0;
        let after = sum_parts(split, node, upto)->Ok_0;
        let n = before.patch.model.nodes.len() as int;
        assert forall|i: int| 0 <= i < after.patch.model.nodes.len() implies {
            let x = #[trigger] after.patch.model.nodes[i];
            ||| is_leaf(x)
            ||| x.op is Add
            ||| {
                &&& x.op is MatMulUnary
                &&& x.inputs.len() == 1
                &&& after.patch.model.has_outlet(x.inputs[0])
                &&& is_leaf(after.patch.model.nodes[x.inputs[0].node as int])
            }
        } by {
            if i < n {
                let x = before.patch.model.nodes[i];
                assert(after.patch.model.nodes[i] == x);
                if x.op is MatMulUnary {
                    let o = x.inputs[0];
                    assert(before.patch.model.has_outlet(o));
                    assert(after.patch.model.nodes[o.node as int] == before.patch.model.nodes[o.node as int]);
                }
            }
        }
    }
}

/// **A split is not split again.** The patch that `MatMulUnary::declutter`
/// gives is settled: it holds no product of two wires, which
/// `MatMul::declutter` would rewrite, no operator that adds or takes out
/// axes, which could be elided, and no product that reads a concatenation.
/// The parts must be few enough for their nodes to be numbered.
pub proof fn lemma_split_is_settled(
    model: ModelView<TypedFactView>,
    node: NodeView<TypedFactView>,
    op: MatMulUnaryView,
)
    requires
        k_split(model, node, op) matches Ok(Some(_)),
        2 * model.nodes[node.inputs[0].node as int].op->NormConcat_0.slices.len() <= usize::MAX,
    ensures
        is_settled(k_split(model, node, op)->Ok_0->Some_0),
{
    let input = node.inputs[0];
    let producer = model.nodes[input.node as int];
    let concat = producer.op->NormConcat_0;
    let inputs = crate::split::facts_of(model, producer.inputs);
    let offsets = crate::split::k_offsets(concat, inputs)->Ok_0;
    let parts = concat.slices.len();
    lemma_split_parts_settled(model, node, producer, concat, op, offsets, parts);
    let split = split_parts(model, node, producer, concat, op, offsets, parts)->Ok_0;
    lemma_sum_parts_settled(split, node.name, (parts - 1) as nat);
}

/// **No rewrite applies to what a rewrite gave.** In a settled patch,
/// `MatMulUnary::declutter` leaves every product as it is; the other nodes
/// are of kinds that no rewrite touches.
pub proof fn lemma_settled_products_stay(patch: PatchView, i: int)
    requires
        is_settled(patch),
        0 <= i < patch.model.nodes.len(),
        patch.model.nodes[i].op is MatMulUnary,
    ensures
        k_split(patch.model, patch.model.nodes[i], patch.model.nodes[i].op->MatMulUnary_0) == Ok::<
            Option<PatchView>,
            crate::error::Error,
        >(None),
{
    let node = patch.model.nodes[i];
    assert(is_leaf(patch.model.nodes[node.inputs[0].node as int]));
}

/// **A product with a constant is not rewritten again.** The patch that
/// `MatMul::declutter` gives, one tap and the product with the constant
/// behind it, is settled.
pub proof fn lemma_unary_patch_is_settled(
    model: ModelView<TypedFactView>,
    node: NodeView<TypedFactView>,
    input: OutletId,
    op: MatMulUnaryView,
    fact: TypedFactView,
)
    ensures
        is_settled(
            PatchView::replace_single_op(model, node, seq![input], OpView::MatMulUnary(op), seq![fact]),
        ),
{
    let taps = PatchView::empty().tapped_all(model, seq![input]);
    assert(seq![input].drop_last() =~= Seq::<OutletId>::empty());
    assert(taps == PatchView::empty().tapped(model.fact(input), input)) by {
        reveal_with_fuel(PatchView::tapped_all, 2);
    }
    let wired = taps.wired(
        node.name,
        OpView::MatMulUnary(op),
        crate::model::outlets_of(0, 1).map_values(|o: OutletId| OutletId { node: o.slot, slot: 0 }),
        seq![fact],
    );
    let outs = crate::model::outlets_of(1, 1);
    assert(outs.drop_last() =~= Seq::<OutletId>::empty());
    let patch = wired.shunted_all(node.id, outs);
    assert(patch.model == wired.model) by {
        reveal_with_fuel(PatchView::shunted_all, 2);
    }
    assert(wired.model.nodes.len() == 2);
    assert(is_leaf(wired.model.nodes[0]));
    assert(wired.model.nodes[0].outputs.len() == 1);
    assert(wired.model.nodes[1].inputs[0] == (OutletId { node: 0, slot: 0 }));
}

/// **An elision is settled.** The patch that elides an operator that adds
/// or takes out no axis holds one tap and nothing else.
pub proof fn lemma_elision_is_settled(model: ModelView<TypedFactView>, node: NodeView<TypedFactView>)
    ensures
        is_settled(PatchView::shunt_one_op(model, node)),
{
    let patch = PatchView::shunt_one_op(model, node);
    assert(patch.model.nodes.len() == 1);
    assert(is_leaf(patch.model.nodes[0]));
}

} // verus!
