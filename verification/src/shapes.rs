use vstd::prelude::*;
use crate::broadcast::{
    broadcast, broadcast_shape, compatible, left_pad, lemma_left_pad_step, max_rank,
};
use crate::dim::{dup_prefix, dup_shape, DimLike};
use crate::error::Error;

verus! {

/// One for a set flag, zero for a cleared one.
pub open spec fn flag(b: bool) -> int {
    if b {
        1
    } else {
        0
    }
}

/// The operand ranks on which the shape of a product is defined: an operand
/// without axes cannot take its implicit axis behind a first one, and one of
/// the operands must have an axis.
pub open spec fn operands_admit(a_rank: nat, b_rank: nat, a_trans: bool, b_trans: bool) -> bool {
    &&& a_rank > 0 || !a_trans
    &&& b_rank > 0 || b_trans
    &&& a_rank > 0 || b_rank > 0
}

/// The left operand lacks its row axis: its rank is below two.
pub open spec fn implicit_m<D>(a: Seq<D>) -> bool {
    a.len() < 2
}

/// The right operand lacks its column axis: its rank is below two.
pub open spec fn implicit_n<D>(b: Seq<D>) -> bool {
    b.len() < 2
}

/// The left operand with its implicit row axis written out.
pub open spec fn expand_a<D: DimLike>(a: Seq<D>, a_trans: bool) -> Seq<D> {
    if implicit_m(a) {
        a.insert(flag(a_trans), D::unit())
    } else {
        a
    }
}

/// The right operand with its implicit column axis written out.
pub open spec fn expand_b<D: DimLike>(b: Seq<D>, b_trans: bool) -> Seq<D> {
    if implicit_n(b) {
        b.insert(flag(!b_trans), D::unit())
    } else {
        b
    }
}

/// The rank of an operand once its implicit axis is written out.
pub open spec fn expanded_rank(rank: nat) -> nat {
    if rank < 2 {
        rank + 1
    } else {
        rank
    }
}

/// The rank that both operands are padded to.
pub open spec fn common_rank<D>(a: Seq<D>, b: Seq<D>) -> nat {
    max_rank(expanded_rank(a.len()), expanded_rank(b.len()))
}

/// The left operand as the product sees it: expanded, then left-padded.
#[verifier::opaque]
pub open spec fn bc_a_shape<D: DimLike>(a: Seq<D>, b: Seq<D>, a_trans: bool) -> Seq<D> {
    left_pad(expand_a(a, a_trans), common_rank(a, b))
}

/// The right operand as the product sees it: expanded, then left-padded.
#[verifier::opaque]
pub open spec fn bc_b_shape<D: DimLike>(a: Seq<D>, b: Seq<D>, b_trans: bool) -> Seq<D> {
    left_pad(expand_b(b, b_trans), common_rank(a, b))
}

/// All axes of a shape but the last two.
pub open spec fn prefix<D>(s: Seq<D>) -> Seq<D> {
    s.take(s.len() - 2)
}

/// The row count of a padded left operand.
pub open spec fn dim_m<D>(bc_a: Seq<D>, a_trans: bool) -> D {
    bc_a[bc_a.len() - 2 + flag(a_trans)]
}

/// The inner dimension, as the padded left operand gives it.
pub open spec fn dim_k<D>(bc_a: Seq<D>, a_trans: bool) -> D {
    bc_a[bc_a.len() - 1 - flag(a_trans)]
}

/// The inner dimension, as the padded right operand gives it.
pub open spec fn dim_k_of_b<D>(bc_b: Seq<D>, b_trans: bool) -> D {
    bc_b[bc_b.len() - 2 + flag(b_trans)]
}

/// The column count of a padded right operand.
pub open spec fn dim_n<D>(bc_b: Seq<D>, b_trans: bool) -> D {
    bc_b[bc_b.len() - 1 - flag(b_trans)]
}

/// The leading axes of the product: the broadcast of the operands' prefixes.
#[verifier::opaque]
pub open spec fn c_prefix<D: DimLike>(a: Seq<D>, b: Seq<D>, a_trans: bool, b_trans: bool) -> Seq<
    D,
> {
    broadcast_shape(prefix(bc_a_shape(a, b, a_trans)), prefix(bc_b_shape(a, b, b_trans)))
}

/// The product's shape with both matrix axes present.
#[verifier::opaque]
pub open spec fn bc_c_shape<D: DimLike>(
    a: Seq<D>,
    b: Seq<D>,
    a_trans: bool,
    b_trans: bool,
    c_trans: bool,
) -> Seq<D> {
    let m = dim_m(bc_a_shape(a, b, a_trans), a_trans);
    let n = dim_n(bc_b_shape(a, b, b_trans), b_trans);
    if c_trans {
        c_prefix(a, b, a_trans, b_trans).push(n).push(m)
    } else {
        c_prefix(a, b, a_trans, b_trans).push(m).push(n)
    }
}

/// The product's shape as the caller sees it: a matrix axis is present only
/// where the operand that gives it had one.
#[verifier::opaque]
pub open spec fn final_c_shape<D: DimLike>(
    a: Seq<D>,
    b: Seq<D>,
    a_trans: bool,
    b_trans: bool,
    c_trans: bool,
) -> Seq<D> {
    let m = dim_m(bc_a_shape(a, b, a_trans), a_trans);
    let n = dim_n(bc_b_shape(a, b, b_trans), b_trans);
    let rows = if implicit_m(a) {
        Seq::<D>::empty()
    } else {
        seq![m]
    };
    let cols = if implicit_n(b) {
        Seq::<D>::empty()
    } else {
        seq![n]
    };
    if c_trans {
        c_prefix(a, b, a_trans, b_trans) + cols + rows
    } else {
        c_prefix(a, b, a_trans, b_trans) + rows + cols
    }
}

/// The operands' prefixes broadcast.
pub open spec fn prefixes_agree<D: DimLike>(
    a: Seq<D>,
    b: Seq<D>,
    a_trans: bool,
    b_trans: bool,
) -> bool {
    compatible(prefix(bc_a_shape(a, b, a_trans)), prefix(bc_b_shape(a, b, b_trans)))
}

/// Both operands give the same inner dimension.
pub open spec fn inner_dims_agree<D: DimLike>(
    a: Seq<D>,
    b: Seq<D>,
    a_trans: bool,
    b_trans: bool,
) -> bool {
    dim_k(bc_a_shape(a, b, a_trans), a_trans) == dim_k_of_b(bc_b_shape(a, b, b_trans), b_trans)
}

/// A product shape without the matrix axes that an operand left implicit.
pub open spec fn squeeze<D>(bc_c: Seq<D>, drop_m: bool, drop_n: bool, c_trans: bool) -> Seq<D> {
    let last = bc_c.len() - 1;
    if c_trans {
        let without_m = if drop_m {
            bc_c.remove(last)
        } else {
            bc_c
        };
        if drop_n {
            without_m.remove(last - 1)
        } else {
            without_m
        }
    } else {
        let without_n = if drop_n {
            bc_c.remove(last)
        } else {
            bc_c
        };
        if drop_m {
            without_n.remove(last - 1)
        } else {
            without_n
        }
    }
}

/// Squeezing `p ++ [x, y]`, where `y` is dropped first and `x` second, keeps
/// `p` and what was not dropped.
proof fn lemma_squeeze_tail<D>(p: Seq<D>, x: D, y: D, drop_x: bool, drop_y: bool)
    ensures
        ({
            let c = p.push(x).push(y);
            let without_y = if drop_y {
                c.remove(c.len() - 1)
            } else {
                c
            };
            let without_both = if drop_x {
                without_y.remove(c.len() - 2)
            } else {
                without_y
            };
            let xs = if drop_x {
                Seq::<D>::empty()
            } else {
                seq![x]
            };
            let ys = if drop_y {
                Seq::<D>::empty()
            } else {
                seq![y]
            };
            without_both == p + xs + ys
        }),
{
    let c = p.push(x).push(y);
    let without_y = if drop_y {
        c.remove(c.len() - 1)
    } else {
        c
    };
    let without_both = if drop_x {
        without_y.remove(c.len() - 2)
    } else {
        without_y
    };
    let xs = if drop_x {
        Seq::<D>::empty()
    } else {
        seq![x]
    };
    let ys = if drop_y {
        Seq::<D>::empty()
    } else {
        seq![y]
    };
    assert(without_both =~= p + xs + ys);
}

/// The shape that the caller of a product sees is the full product shape
/// without the matrix axes that an operand left implicit.
pub proof fn lemma_final_shape_is_squeezed<D: DimLike>(
    a: Seq<D>,
    b: Seq<D>,
    a_trans: bool,
    b_trans: bool,
    c_trans: bool,
)
    ensures
        final_c_shape(a, b, a_trans, b_trans, c_trans) == squeeze(
            bc_c_shape(a, b, a_trans, b_trans, c_trans),
            implicit_m(a),
            implicit_n(b),
            c_trans,
        ),
{
    reveal(bc_a_shape);
    reveal(bc_b_shape);
    reveal(bc_c_shape);
    reveal(final_c_shape);
    reveal(c_prefix);
    let p = c_prefix(a, b, a_trans, b_trans);
    let m = dim_m(bc_a_shape(a, b, a_trans), a_trans);
    let n = dim_n(bc_b_shape(a, b, b_trans), b_trans);
    if c_trans {
        lemma_squeeze_tail(p, n, m, implicit_n(b), implicit_m(a));
    } else {
        lemma_squeeze_tail(p, m, n, implicit_m(a), implicit_n(b));
    }
}

/// The padded operands of a product are operands that need no padding:
/// inferring from them gives them back, and the same product shape.
pub proof fn lemma_padded_operands_are_fixed<D: DimLike>(
    a: Seq<D>,
    b: Seq<D>,
    a_trans: bool,
    b_trans: bool,
    c_trans: bool,
)
    requires
        operands_admit(a.len(), b.len(), a_trans, b_trans),
    ensures
        ({
            let bc_a = bc_a_shape(a, b, a_trans);
            let bc_b = bc_b_shape(a, b, b_trans);
            let bc_c = bc_c_shape(a, b, a_trans, b_trans, c_trans);
            &&& operands_admit(bc_a.len(), bc_b.len(), a_trans, b_trans)
            &&& bc_a_shape(bc_a, bc_b, a_trans) == bc_a
            &&& bc_b_shape(bc_a, bc_b, b_trans) == bc_b
            &&& bc_c_shape(bc_a, bc_b, a_trans, b_trans, c_trans) == bc_c
            &&& final_c_shape(bc_a, bc_b, a_trans, b_trans, c_trans) == bc_c
        }),
{
    reveal(bc_a_shape);
    reveal(bc_b_shape);
    reveal(bc_c_shape);
    reveal(final_c_shape);
    reveal(c_prefix);
    let bc_a = bc_a_shape(a, b, a_trans);
    let bc_b = bc_b_shape(a, b, b_trans);
    let bc_c = bc_c_shape(a, b, a_trans, b_trans, c_trans);
    let r = common_rank(a, b);
    assert(r >= 2);
    assert(expand_a(a, a_trans).len() == expanded_rank(a.len()));
    assert(expand_b(b, b_trans).len() == expanded_rank(b.len()));
    assert(bc_a.len() == r);
    assert(bc_b.len() == r);
    assert(common_rank(bc_a, bc_b) == r);
    assert(expand_a(bc_a, a_trans) == bc_a);
    assert(expand_b(bc_b, b_trans) == bc_b);
    assert(bc_a_shape(bc_a, bc_b, a_trans) == bc_a);
    assert(bc_b_shape(bc_a, bc_b, b_trans) == bc_b);
    assert(c_prefix(bc_a, bc_b, a_trans, b_trans) == c_prefix(a, b, a_trans, b_trans));
    assert(bc_c_shape(bc_a, bc_b, a_trans, b_trans, c_trans) == bc_c);
    let p = c_prefix(a, b, a_trans, b_trans);
    let m = dim_m(bc_a, a_trans);
    let n = dim_n(bc_b, b_trans);
    assert(p + seq![m] + seq![n] =~= p.push(m).push(n));
    assert(p + seq![n] + seq![m] =~= p.push(n).push(m));
}

/// Where the shapes of a product can be inferred, the row and column counts
/// can be read back from the full product shape and the inner dimension from
/// either operand, and the padded operands pass the same tests again.
pub proof fn lemma_shape_round_trip<D: DimLike>(
    a: Seq<D>,
    b: Seq<D>,
    a_trans: bool,
    b_trans: bool,
    c_trans: bool,
)
    requires
        shapes_agree(a, b, a_trans, b_trans),
    ensures
        ({
            let bc_a = bc_a_shape(a, b, a_trans);
            let bc_b = bc_b_shape(a, b, b_trans);
            let bc_c = bc_c_shape(a, b, a_trans, b_trans, c_trans);
            &&& bc_c[bc_c.len() - 2 + flag(c_trans)] == dim_m(bc_a, a_trans)
            &&& bc_c[bc_c.len() - 1 - flag(c_trans)] == dim_n(bc_b, b_trans)
            &&& dim_k(bc_a, a_trans) == dim_k_of_b(bc_b, b_trans)
            &&& shapes_agree(bc_a, bc_b, a_trans, b_trans)
        }),
{
    reveal(bc_a_shape);
    reveal(bc_b_shape);
    reveal(bc_c_shape);
    reveal(c_prefix);
    lemma_padded_operands_are_fixed(a, b, a_trans, b_trans, c_trans);
}

/// The padded operands and the full product shape have one rank, which is
/// at least two.
pub proof fn lemma_common_rank<D: DimLike>(
    a: Seq<D>,
    b: Seq<D>,
    a_trans: bool,
    b_trans: bool,
    c_trans: bool,
)
    requires
        operands_admit(a.len(), b.len(), a_trans, b_trans),
    ensures
        common_rank(a, b) >= 2,
        bc_a_shape(a, b, a_trans).len() == common_rank(a, b),
        bc_b_shape(a, b, b_trans).len() == common_rank(a, b),
        bc_c_shape(a, b, a_trans, b_trans, c_trans).len() == common_rank(a, b),
{
    reveal(bc_a_shape);
    reveal(bc_b_shape);
    reveal(bc_c_shape);
    reveal(c_prefix);
}

/// The two operands as the product sees them: each with its implicit axis
/// written out, then the shorter one left-padded to the rank of the other.
fn pad_operands<D: DimLike>(
    ashape_orig: Vec<D>,
    bshape_orig: Vec<D>,
    a_trans: bool,
    b_trans: bool,
) -> (r:
    (Vec<D>, Vec<D>))
    requires
        operands_admit(ashape_orig@.len(), bshape_orig@.len(), a_trans, b_trans),
    ensures
        r.0@ == bc_a_shape(ashape_orig@, bshape_orig@, a_trans),
        r.1@ == bc_b_shape(ashape_orig@, bshape_orig@, b_trans),
        r.0@.len() == common_rank(ashape_orig@, bshape_orig@),
        r.1@.len() == common_rank(ashape_orig@, bshape_orig@),
        common_rank(ashape_orig@, bshape_orig@) >= 2,
{
    reveal(bc_a_shape);
    reveal(bc_b_shape);
    reveal(bc_c_shape);
    reveal(final_c_shape);
    reveal(c_prefix);
    let ghost ea = expand_a(ashape_orig@, a_trans);
    let ghost eb = expand_b(bshape_orig@, b_trans);
    let mut ashape = ashape_orig;
    let mut bshape = bshape_orig;
    if ashape.len() < 2 {
        ashape.insert(if a_trans { 1 } else { 0 }, D::one());
    }
    if bshape.len() < 2 {
        bshape.insert(if b_trans { 0 } else { 1 }, D::one());
    }
    assert(ashape@ == ea);
    assert(bshape@ == eb);
    while ashape.len() < bshape.len()
        invariant
            bshape@ == eb,
            ashape@.len() >= ea.len(),
            ashape@.len() <= max_rank(ea.len(), eb.len()),
            ashape@ == left_pad(ea, ashape@.len()),
        decreases bshape.len() - ashape.len(),
    {
        proof {
            lemma_left_pad_step(ea, ashape@.len());
        }
        ashape.insert(0, D::one());
    }
    while bshape.len() < ashape.len()
        invariant
            ashape@.len() == max_rank(ea.len(), eb.len()),
            ashape@ == left_pad(ea, ashape@.len()),
            bshape@.len() >= eb.len(),
            bshape@.len() <= ashape@.len(),
            bshape@ == left_pad(eb, bshape@.len()),
        decreases ashape.len() - bshape.len(),
    {
        proof {
            lemma_left_pad_step(eb, bshape@.len());
        }
        bshape.insert(0, D::one());
    }
    (ashape, bshape)
}

/// Whether the shape of a product is defined on operands of these ranks.
pub fn operands_ok(a_rank: usize, b_rank: usize, a_trans: bool, b_trans: bool) -> (r: bool)
    ensures
        r == operands_admit(a_rank as nat, b_rank as nat, a_trans, b_trans),
{
    (a_rank > 0 || !a_trans) && (b_rank > 0 || b_trans) && (a_rank > 0 || b_rank > 0)
}

/// The shapes of a product can be inferred: the ranks admit it, the
/// prefixes broadcast and the inner dimensions agree.
pub open spec fn shapes_agree<D: DimLike>(
    a: Seq<D>,
    b: Seq<D>,
    a_trans: bool,
    b_trans: bool,
) -> bool {
    &&& operands_admit(a.len(), b.len(), a_trans, b_trans)
    &&& prefixes_agree(a, b, a_trans, b_trans)
    &&& inner_dims_agree(a, b, a_trans, b_trans)
}

/// Why the shapes of a product cannot be inferred: the first of the three
/// tests that fails.
pub open spec fn shape_error<D: DimLike>(
    a: Seq<D>,
    b: Seq<D>,
    a_trans: bool,
    b_trans: bool,
) -> Error {
    if !operands_admit(a.len(), b.len(), a_trans, b_trans) {
        Error::RankMismatch
    } else if !prefixes_agree(a, b, a_trans, b_trans) {
        Error::Broadcast
    } else {
        Error::InconsistentMatMul
    }
}

/// The shapes of a matrix product. Returns the two operands as the product
/// sees them (implicit axes written out, left-padded to a common rank), the
/// product's shape with both matrix axes, and the product's shape as the
/// caller sees it. Fails with `RankMismatch` where an operand without axes
/// cannot take its implicit axis, else with `Broadcast` where the prefixes do
/// not broadcast, else with `InconsistentMatMul` where the inner dimensions
/// differ.
pub fn infer_shapes<D: DimLike>(
    ashape_orig: Vec<D>,
    bshape_orig: Vec<D>,
    a_trans: bool,
    b_trans: bool,
    c_trans: bool,
) -> (r: Result<(Vec<D>, Vec<D>, Vec<D>, Vec<D>), Error>)
    ensures
        r is Ok <==> shapes_agree(ashape_orig@, bshape_orig@, a_trans, b_trans),
        r matches Ok(s) ==> {
            &&& s.0@.len() >= 2
            &&& s.0@.len() == s.1@.len() == s.2@.len()
            &&& s.0@ == bc_a_shape(ashape_orig@, bshape_orig@, a_trans)
            &&& s.1@ == bc_b_shape(ashape_orig@, bshape_orig@, b_trans)
            &&& s.2@ == bc_c_shape(ashape_orig@, bshape_orig@, a_trans, b_trans, c_trans)
            &&& s.3@ == final_c_shape(ashape_orig@, bshape_orig@, a_trans, b_trans, c_trans)
        },
        r matches Err(e) ==> e == shape_error(ashape_orig@, bshape_orig@, a_trans, b_trans),
{
    reveal(bc_a_shape);
    reveal(bc_b_shape);
    reveal(bc_c_shape);
    reveal(final_c_shape);
    reveal(c_prefix);
    if !operands_ok(ashape_orig.len(), bshape_orig.len(), a_trans, b_trans) {
        return Err(Error::RankMismatch);
    }
    let implicit_m = ashape_orig.len() < 2;
    let implicit_n = bshape_orig.len() < 2;
    let ghost a0 = ashape_orig@;
    let ghost b0 = bshape_orig@;
    let (ashape, bshape) = pad_operands(ashape_orig, bshape_orig, a_trans, b_trans);
    let rank = ashape.len();
    let a_prefix = dup_prefix(&ashape, rank - 2);
    let b_prefix = dup_prefix(&bshape, rank - 2);
    let c_bc_shape_prefix = match broadcast(&a_prefix, &b_prefix) {
        Some(p) => p,
        None => {
            return Err(Error::Broadcast);
        },
    };
    let m = if a_trans { ashape[rank - 1].dup() } else { ashape[rank - 2].dup() };
    let ka = if a_trans { &ashape[rank - 2] } else { &ashape[rank - 1] };
    let kb = if b_trans { &bshape[rank - 1] } else { &bshape[rank - 2] };
    let n = if b_trans { bshape[rank - 2].dup() } else { bshape[rank - 1].dup() };
    if !ka.same(kb) {
        return Err(Error::InconsistentMatMul);
    }
    let mut c_bc_shape = dup_shape(&c_bc_shape_prefix);
    let mut c_shape_final = c_bc_shape_prefix;
    if c_trans {
        c_bc_shape.push(n.dup());
        c_bc_shape.push(m.dup());
        if !implicit_n {
            c_shape_final.push(n);
        }
        if !implicit_m {
            c_shape_final.push(m);
        }
    } else {
        c_bc_shape.push(m.dup());
        c_bc_shape.push(n.dup());
        if !implicit_m {
            c_shape_final.push(m);
        }
        if !implicit_n {
            c_shape_final.push(n);
        }
    }
    assert(c_shape_final@ =~= final_c_shape(a0, b0, a_trans, b_trans, c_trans));
    Ok((ashape, bshape, c_bc_shape, c_shape_final))
}

} // verus!
