//! Dragon curve on the Gaussian integers.
//!
//! A segment from `s` to `e` is replaced by two segments meeting at a point
//! `m` off the segment's middle: `m - s == (e - s) * (1 + i) / 2` when the
//! segment turns right, `(e - s) * (1 - i) / 2` when it turns left. The first
//! half always turns right and the second always left.
//!
//! `curve(n)` subdivides the segment from `(0, 0)` to `(2^n, 0)`, so that
//! every point it produces has integer coordinates.
use vstd::prelude::*;
use crate::lattice::{
    lemma_segs_view_injective,    abs, lemma_power_monotone, lemma_power_positive, lemma_segs_view_push, power, pt_add,
    segs_view, step, times_one_minus_i, times_one_plus_i, Point, Pt, Seg, Segment, COORD_LIMIT,
    SPAN, lemma_halve_bound, lemma_unit_bound,
};

verus! {

/// Largest iteration count accepted by `curve`.
pub const DRAGON_MAX_ITERATIONS: u32 = 24;

/// Leaf segments of the dragon recursion on the segment from `s` to
/// `s + 2^n * u`.
pub open spec fn dragon_from(s: Pt, u: Pt, n: nat, right: bool) -> Seq<Seg>
    decreases n,
{
    if n == 0 {
        seq![(s, pt_add(s, u))]
    } else {
        let u1 = if right { times_one_plus_i(u) } else { times_one_minus_i(u) };
        let u2 = if right { times_one_minus_i(u) } else { times_one_plus_i(u) };
        let mid = step(s, power(2, (n - 1) as nat), u1);
        dragon_from(s, u1, (n - 1) as nat, true) + dragon_from(mid, u2, (n - 1) as nat, false)
    }
}

/// The dragon curve after `n` iterations, from `(0, 0)` to `(2^n, 0)`.
pub open spec fn dragon_curve(n: nat) -> Seq<Seg> {
    dragon_from((0, 0), (1, 0), n, true)
}

fn dragon_into(out: &mut Vec<Segment>, s: Point, u: Point, n: u32, scale: i64, right: bool)
    requires
        scale == power(2, n as nat),
        abs(u.x as int) * scale <= SPAN,
        abs(u.y as int) * scale <= SPAN,
        abs(s.x as int) + (n + 1) * SPAN <= COORD_LIMIT,
        abs(s.y as int) + (n + 1) * SPAN <= COORD_LIMIT,
    ensures
        segs_view(final(out)@) == segs_view(old(out)@) + dragon_from(s@, u@, n as nat, right),
    decreases n,
{
    proof {
        lemma_power_positive(2, n as nat);
        lemma_unit_bound(u.x as int, scale as int);
        lemma_unit_bound(u.y as int, scale as int);
    }
    if n == 0 {
        let g = Segment { start: s, end: Point { x: s.x + u.x, y: s.y + u.y } };
        proof {
            lemma_segs_view_push(out@, g);
        }
        out.push(g);
        proof {
            assert(segs_view(out@) =~= segs_view(old(out)@) + dragon_from(s@, u@, n as nat, right));
        }
    } else {
        let half = scale / 2;
        let plus = Point { x: u.x - u.y, y: u.x + u.y };
        let minus = Point { x: u.x + u.y, y: u.y - u.x };
        let u1 = if right { plus } else { minus };
        let u2 = if right { minus } else { plus };
        proof {
            lemma_halve_bound(u.x as int, u.y as int, plus.x as int, scale as int, half as int);
            lemma_halve_bound(u.x as int, u.y as int, plus.y as int, scale as int, half as int);
            lemma_halve_bound(u.x as int, u.y as int, minus.x as int, scale as int, half as int);
            lemma_halve_bound(u.x as int, u.y as int, minus.y as int, scale as int, half as int);
        }
        let mid = Point { x: s.x + half * u1.x, y: s.y + half * u1.y };
        let ghost before = segs_view(out@);
        dragon_into(out, s, u1, n - 1, half, true);
        let ghost first = segs_view(out@);
        dragon_into(out, mid, u2, n - 1, half, false);
        proof {
            let a = dragon_from(s@, u1@, (n - 1) as nat, true);
            let b = dragon_from(mid@, u2@, (n - 1) as nat, false);
            assert(mid@ == step(s@, power(2, (n - 1) as nat), u1@));
            assert(segs_view(out@) =~= before + (a + b));
        }
    }
}

/// The recursion on `n` iterations yields exactly `2^n` segments.
pub proof fn lemma_dragon_from_len(s: Pt, u: Pt, n: nat, right: bool)
    ensures
        dragon_from(s, u, n, right).len() == power(2, n),
    decreases n,
{
    if n > 0 {
        let u1 = if right { times_one_plus_i(u) } else { times_one_minus_i(u) };
        let u2 = if right { times_one_minus_i(u) } else { times_one_plus_i(u) };
        let mid = step(s, power(2, (n - 1) as nat), u1);
        lemma_dragon_from_len(s, u1, (n - 1) as nat, true);
        lemma_dragon_from_len(mid, u2, (n - 1) as nat, false);
    }
}

/// The recursion's first segment starts at `s` and its last one ends at
/// `s + 2^n * u`.
pub proof fn lemma_dragon_from_ends(s: Pt, u: Pt, n: nat, right: bool)
    ensures
        dragon_from(s, u, n, right).len() > 0,
        dragon_from(s, u, n, right).first().0 == s,
        dragon_from(s, u, n, right).last().1 == step(s, power(2, n), u),
    decreases n,
{
    if n > 0 {
        let h = power(2, (n - 1) as nat);
        let u1 = if right { times_one_plus_i(u) } else { times_one_minus_i(u) };
        let u2 = if right { times_one_minus_i(u) } else { times_one_plus_i(u) };
        let mid = step(s, h, u1);
        lemma_dragon_from_ends(s, u1, (n - 1) as nat, true);
        lemma_dragon_from_ends(mid, u2, (n - 1) as nat, false);
        let a = dragon_from(s, u1, (n - 1) as nat, true);
        let b = dragon_from(mid, u2, (n - 1) as nat, false);
        assert((a + b).first() == a.first());
        assert((a + b).last() == b.last());
        assert(u1.0 + u2.0 == 2 * u.0 && u1.1 + u2.1 == 2 * u.1);
        assert(h * u1.0 + h * u2.0 == power(2, n) * u.0 && h * u1.1 + h * u2.1 == power(2, n) * u.1)
            by (nonlinear_arith)
            requires
                u1.0 + u2.0 == 2 * u.0,
                u1.1 + u2.1 == 2 * u.1,
                power(2, n) == 2 * h,
        ;
    } else {
        assert(power(2, 0) == 1);
        assert(step(s, 1, u) == pt_add(s, u));
    }
}

/// Consecutive leaf segments of the recursion meet.
pub proof fn lemma_dragon_from_connected(s: Pt, u: Pt, n: nat, right: bool)
    ensures
        forall|j: int|
            0 < j < dragon_from(s, u, n, right).len() ==> (#[trigger] dragon_from(s, u, n, right)[j]).0
                == dragon_from(s, u, n, right)[j - 1].1,
    decreases n,
{
    if n > 0 {
        let h = power(2, (n - 1) as nat);
        let u1 = if right { times_one_plus_i(u) } else { times_one_minus_i(u) };
        let u2 = if right { times_one_minus_i(u) } else { times_one_plus_i(u) };
        let mid = step(s, h, u1);
        let a = dragon_from(s, u1, (n - 1) as nat, true);
        let b = dragon_from(mid, u2, (n - 1) as nat, false);
        lemma_dragon_from_connected(s, u1, (n - 1) as nat, true);
        lemma_dragon_from_connected(mid, u2, (n - 1) as nat, false);
        lemma_dragon_from_ends(s, u1, (n - 1) as nat, true);
        lemma_dragon_from_ends(mid, u2, (n - 1) as nat, false);
        let all = a + b;
        assert forall|j: int| 0 < j < all.len() implies (#[trigger] all[j]).0 == all[j - 1].1 by {
            if j < a.len() {
                assert(all[j] == a[j] && all[j - 1] == a[j - 1]);
            } else if j == a.len() {
                assert(all[j] == b[0] && all[j - 1] == a.last());
            } else {
                assert(all[j] == b[j - a.len()] && all[j - 1] == b[j - 1 - a.len()]);
            }
        }
    }
}

/// Path law: the dragon curve is one connected path; each segment starts
/// where the previous one ends.
pub proof fn law_dragon_connected(n: nat)
    ensures
        forall|j: int|
            0 < j < dragon_curve(n).len() ==> (#[trigger] dragon_curve(n)[j]).0 == dragon_curve(n)[j
                - 1].1,
{
    lemma_dragon_from_connected((0, 0), (1, 0), n, true);
}

/// Count law: after `n` iterations the dragon curve has exactly `2^n`
/// segments; with no iteration it is the single starting segment.
pub proof fn law_dragon_count(n: nat)
    ensures
        dragon_curve(n).len() == power(2, n),
        n == 0 ==> dragon_curve(n) == seq![((0int, 0int), (1int, 0int))],
{
    lemma_dragon_from_len((0, 0), (1, 0), n, true);
}

/// Endpoint law: for every iteration count the first segment starts at the
/// curve's start `(0, 0)` and the last one ends at its end `(2^n, 0)`.
pub proof fn law_dragon_endpoints(n: nat)
    ensures
        dragon_curve(n).first().0 == (0int, 0int),
        dragon_curve(n).last().1 == (power(2, n), 0int),
{
    lemma_dragon_from_ends((0, 0), (1, 0), n, true);
    let p = power(2, n);
    assert(p * 1 == p && p * 0 == 0) by (nonlinear_arith);
}

/// The leaf segments of the dragon curve after `iterations` iterations, in
/// drawing order, in lattice coordinates where the curve runs from `(0, 0)`
/// to `(2^iterations, 0)`.
pub fn curve(iterations: u32) -> (r: Vec<Segment>)
    requires
        iterations <= DRAGON_MAX_ITERATIONS,
    ensures
        segs_view(r@) == dragon_curve(iterations as nat),
{
    let mut scale: i64 = 1;
    let mut i: u32 = 0;
    while i < iterations
        invariant
            i <= iterations <= DRAGON_MAX_ITERATIONS,
            scale == power(2, i as nat),
        decreases iterations - i,
    {
        proof {
            lemma_power_monotone(2, i as nat, 23);
            reveal_with_fuel(power, 24);
            assert(power(2, 23) == 8_388_608);
        }
        scale = scale * 2;
        i = i + 1;
    }
    proof {
        lemma_power_monotone(2, iterations as nat, 24);
        reveal_with_fuel(power, 25);
        assert(power(2, 24) == 16_777_216);
    }
    let unit = Point { x: 1, y: 0 };
    proof {
        let (ax, ay) = (abs(unit.x as int), abs(unit.y as int));
        assert(ax == 1 && ay == 0);
        assert(ax * scale == scale && ay * scale == 0) by (nonlinear_arith)
            requires
                ax == 1,
                ay == 0,
        ;
    }
    let mut out: Vec<Segment> = Vec::new();
    proof {
        assert(segs_view(out@) =~= Seq::<Seg>::empty());
    }
    dragon_into(&mut out, Point { x: 0, y: 0 }, unit, iterations, scale, true);
    proof {
        assert(segs_view(out@) =~= dragon_curve(iterations as nat));
    }
    out
}

/// Determinism law: two results of `curve` for the same iteration count
/// are the same segments in the same order.
pub proof fn law_dragon_deterministic(n: nat, a: Seq<Segment>, b: Seq<Segment>)
    requires
        segs_view(a) == dragon_curve(n),
        segs_view(b) == dragon_curve(n),
    ensures
        a == b,
{
    lemma_segs_view_injective(a, b);
}

} // verus!
