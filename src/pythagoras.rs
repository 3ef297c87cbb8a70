//! Pythagoras tree on the Gaussian integers.
//!
//! A branch from `s` along the vector `v` ends at `e = s + v`; from `e` grow
//! two branches along `v * (1 - i) / 2` and `v * (1 + i) / 2`, that is `v`
//! turned by 45 degrees either way and shortened by the square root of two.
//! With the plane's `y` axis pointing down, as on a screen, the first one
//! turns counterclockwise. A branch of level zero is not drawn.
//!
//! `tree(n)` starts with the vector `(2^(n-1), 0)` from `(0, 0)`, so that
//! every point it produces has integer coordinates.
use vstd::prelude::*;
use crate::lattice::{
    lemma_segs_view_injective,    abs, lemma_halve_bound, lemma_power_monotone, lemma_power_positive, lemma_segs_view_push,
    lemma_unit_bound, power, segs_view, step, times_one_minus_i, times_one_plus_i, Point, Pt,
    Seg, Segment, COORD_LIMIT, SPAN,
};

verus! {

/// Largest iteration count accepted by `tree`.
pub const PYTHAGORAS_MAX_ITERATIONS: u32 = 24;

/// Branches of the tree of `n` levels from `s`, whose trunk is
/// `2^(n-1) * u`, in drawing order: each branch before its two subtrees.
pub open spec fn tree_from(s: Pt, u: Pt, n: nat) -> Seq<Seg>
    decreases n,
{
    if n == 0 {
        Seq::empty()
    } else {
        let e = step(s, power(2, (n - 1) as nat), u);
        seq![(s, e)] + tree_from(e, times_one_minus_i(u), (n - 1) as nat) + tree_from(
            e,
            times_one_plus_i(u),
            (n - 1) as nat,
        )
    }
}

/// The Pythagoras tree of `n` levels from `(0, 0)` with trunk `(2^(n-1), 0)`.
pub open spec fn pythagoras_tree(n: nat) -> Seq<Seg> {
    tree_from((0, 0), (1, 0), n)
}

fn tree_into(out: &mut Vec<Segment>, s: Point, u: Point, n: u32, scale: i64)
    requires
        n >= 1 ==> scale == power(2, (n - 1) as nat),
        n >= 1 ==> abs(u.x as int) * scale <= SPAN,
        n >= 1 ==> abs(u.y as int) * scale <= SPAN,
        abs(s.x as int) + (n + 1) * SPAN <= COORD_LIMIT,
        abs(s.y as int) + (n + 1) * SPAN <= COORD_LIMIT,
    ensures
        segs_view(final(out)@) == segs_view(old(out)@) + tree_from(s@, u@, n as nat),
    decreases n,
{
    if n == 0 {
        proof {
            assert(segs_view(out@) =~= segs_view(old(out)@) + tree_from(s@, u@, n as nat));
        }
        return;
    }
    proof {
        lemma_power_positive(2, (n - 1) as nat);
        lemma_unit_bound(u.x as int, scale as int);
        lemma_unit_bound(u.y as int, scale as int);
        assert(abs(scale * u.x) <= SPAN && abs(scale * u.y) <= SPAN) by (nonlinear_arith)
            requires
                abs(u.x as int) * scale <= SPAN,
                abs(u.y as int) * scale <= SPAN,
                scale >= 1,
        ;
    }
    let e = Point { x: s.x + scale * u.x, y: s.y + scale * u.y };
    let left = Point { x: u.x + u.y, y: u.y - u.x };
    let right = Point { x: u.x - u.y, y: u.x + u.y };
    let half = scale / 2;
    proof {
        if n >= 2 {
            lemma_power_positive(2, (n - 2) as nat);
            lemma_halve_bound(u.x as int, u.y as int, left.x as int, scale as int, half as int);
            lemma_halve_bound(u.x as int, u.y as int, left.y as int, scale as int, half as int);
            lemma_halve_bound(u.x as int, u.y as int, right.x as int, scale as int, half as int);
            lemma_halve_bound(u.x as int, u.y as int, right.y as int, scale as int, half as int);
        }
    }
    let g = Segment { start: s, end: e };
    proof {
        lemma_segs_view_push(out@, g);
    }
    let ghost before = segs_view(out@);
    out.push(g);
    tree_into(out, e, left, n - 1, half);
    tree_into(out, e, right, n - 1, half);
    proof {
        let m = (n - 1) as nat;
        let a = tree_from(e@, left@, m);
        let b = tree_from(e@, right@, m);
        assert(e@ == step(s@, power(2, m), u@));
        assert(tree_from(s@, u@, n as nat) == seq![(s@, e@)] + a + b);
        assert(segs_view(out@) =~= before + (seq![(s@, e@)] + a + b));
    }
}

/// The branches of the Pythagoras tree of `iterations` levels, each branch
/// before the two subtrees that grow from its end, in Gaussian coordinates
/// where the trunk runs from `(0, 0)` to `(2^(iterations-1), 0)`.
pub fn tree(iterations: u32) -> (r: Vec<Segment>)
    requires
        iterations <= PYTHAGORAS_MAX_ITERATIONS,
    ensures
        segs_view(r@) == pythagoras_tree(iterations as nat),
{
    let mut scale: i64 = 1;
    let mut i: u32 = 1;
    while i < iterations
        invariant
            1 <= i,
            i <= iterations || iterations == 0,
            iterations <= PYTHAGORAS_MAX_ITERATIONS,
            scale == power(2, (i - 1) as nat),
        decreases iterations - i,
    {
        proof {
            lemma_power_monotone(2, (i - 1) as nat, 22);
            reveal_with_fuel(power, 23);
            assert(power(2, 22) == 4_194_304);
        }
        scale = scale * 2;
        i = i + 1;
    }
    let unit = Point { x: 1, y: 0 };
    proof {
        if iterations >= 1 {
            assert(i == iterations);
            lemma_power_monotone(2, (iterations - 1) as nat, 23);
            reveal_with_fuel(power, 24);
            assert(power(2, 23) == 8_388_608);
        }
        let (ax, ay) = (abs(unit.x as int), abs(unit.y as int));
        assert(ax == 1 && ay == 0);
        assert(ax * scale == scale && ay * scale == 0) by (nonlinear_arith)
            requires
                ax == 1,
                ay == 0,
        ;
    }
    let mut out: Vec<Segment> = Vec::new();
    proof {
        assert(segs_view(out@) =~= Seq::<Seg>::empty());
    }
    tree_into(&mut out, Point { x: 0, y: 0 }, unit, iterations, scale);
    proof {
        assert(segs_view(out@) =~= pythagoras_tree(iterations as nat));
    }
    out
}

/// A tree of `n` levels has exactly `2^n - 1` branches.
pub proof fn lemma_tree_from_len(s: Pt, u: Pt, n: nat)
    ensures
        tree_from(s, u, n).len() == power(2, n) - 1,
    decreases n,
{
    if n > 0 {
        let m = (n - 1) as nat;
        let e = step(s, power(2, m), u);
        lemma_tree_from_len(e, times_one_minus_i(u), m);
        lemma_tree_from_len(e, times_one_plus_i(u), m);
    }
}

/// Count law: a tree of `n` levels has exactly `2^n - 1` branches; with no
/// level it has none.
pub proof fn law_pythagoras_count(n: nat)
    ensures
        pythagoras_tree(n).len() == power(2, n) - 1,
        n == 0 ==> pythagoras_tree(n).len() == 0,
{
    lemma_tree_from_len((0, 0), (1, 0), n);
}

/// Determinism law: two results of `tree` for the same iteration count
/// are the same segments in the same order.
pub proof fn law_pythagoras_deterministic(n: nat, a: Seq<Segment>, b: Seq<Segment>)
    requires
        segs_view(a) == pythagoras_tree(n),
        segs_view(b) == pythagoras_tree(n),
    ensures
        a == b,
{
    lemma_segs_view_injective(a, b);
}

} // verus!
