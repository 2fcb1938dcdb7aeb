use vstd::prelude::*;
use crate::dim::DimLike;

verus! {

/// `s` with length-one axes put in front until it has `n` axes.
pub open spec fn left_pad<D: DimLike>(s: Seq<D>, n: nat) -> Seq<D> {
    if s.len() >= n {
        s
    } else {
        Seq::new((n - s.len()) as nat, |i: int| D::unit()) + s
    }
}

/// Putting one more length-one axis in front of a padded shape pads it by one.
pub proof fn lemma_left_pad_step<D: DimLike>(s: Seq<D>, n: nat)
    requires
        n >= s.len(),
    ensures
        left_pad(s, n).insert(0, D::unit()) == left_pad(s, n + 1),
{
    assert(left_pad(s, n).insert(0, D::unit()) =~= left_pad(s, n + 1));
}

/// The longer of two ranks.
pub open spec fn max_rank(a: nat, b: nat) -> nat {
    if a >= b {
        a
    } else {
        b
    }
}

/// Two dims that can share an axis: equal, or one of them is one.
pub open spec fn dims_agree<D: DimLike>(x: D, y: D) -> bool {
    x == y || x == D::unit() || y == D::unit()
}

/// The dim of an axis shared by `x` and `y`.
pub open spec fn broadcast_dim<D: DimLike>(x: D, y: D) -> D {
    if x == D::unit() {
        y
    } else {
        x
    }
}

/// Right-aligned, each pair of dims is equal or one side is one.
pub open spec fn compatible<D: DimLike>(a: Seq<D>, b: Seq<D>) -> bool {
    let n = max_rank(a.len(), b.len());
    forall|i: int|
        0 <= i < n ==> dims_agree(#[trigger] left_pad(a, n)[i], left_pad(b, n)[i])
}

/// The shape that two compatible shapes broadcast to.
pub open spec fn broadcast_shape<D: DimLike>(a: Seq<D>, b: Seq<D>) -> Seq<D> {
    let n = max_rank(a.len(), b.len());
    Seq::new(n, |i: int| broadcast_dim(left_pad(a, n)[i], left_pad(b, n)[i]))
}

/// Broadcasts two shapes, right-aligned. `None` where some pair of dims
/// differs and neither is one.
pub fn broadcast<D: DimLike>(a: &Vec<D>, b: &Vec<D>) -> (r: Option<Vec<D>>)
    ensures
        r is Some <==> compatible(a@, b@),
        r matches Some(s) ==> s@ == broadcast_shape(a@, b@),
{
    let n = if a.len() >= b.len() { a.len() } else { b.len() };
    let skip_a = n - a.len();
    let skip_b = n - b.len();
    let ghost pa = left_pad(a@, n as nat);
    let ghost pb = left_pad(b@, n as nat);
    let one = D::one();
    let mut shape: Vec<D> = Vec::new();
    let mut i: usize = 0;
    while i < n
        invariant
            i <= n,
            n == max_rank(a@.len(), b@.len()),
            skip_a == n - a.len(),
            skip_b == n - b.len(),
            pa == left_pad(a@, n as nat),
            pb == left_pad(b@, n as nat),
            one == D::unit(),
            shape@.len() == i,
            forall|j: int| 0 <= j < i ==> dims_agree(#[trigger] pa[j], pb[j]),
            forall|j: int| 0 <= j < i ==> #[trigger] shape@[j] == broadcast_dim(pa[j], pb[j]),
        decreases n - i,
    {
        let x = if i < skip_a { &one } else { &a[i - skip_a] };
        let y = if i < skip_b { &one } else { &b[i - skip_b] };
        assert(*x == pa[i as int]);
        assert(*y == pb[i as int]);
        if x.same(&one) {
            shape.push(y.dup());
        } else if y.same(&one) || x.same(y) {
            shape.push(x.dup());
        } else {
            assert(!dims_agree(pa[i as int], pb[i as int]));
            return None;
        }
        i += 1;
    }
    assert(shape@ =~= broadcast_shape(a@, b@));
    Some(shape)
}

/// A shape with axes of length one put in front until it has `rank` axes.
pub fn pad_left<D: DimLike>(shape: &Vec<D>, rank: usize) -> (r: Vec<D>)
    ensures
        r@ == left_pad(shape@, rank as nat),
{
    let mut out = crate::dim::dup_shape(shape);
    while out.len() < rank
        invariant
            out@.len() >= shape@.len(),
            out@.len() <= rank || out@.len() == shape@.len(),
            out@ == left_pad(shape@, out@.len()),
        decreases rank - out.len(),
    {
        proof {
            lemma_left_pad_step(shape@, out@.len());
        }
        out.insert(0, D::one());
    }
    out
}

} // verus!
