//! Koch snowflake on the Eisenstein integers.
//!
//! Lattice point `(a, b)` stands for `a + b*w` with `w = e^(i*pi/3)`. A side
//! from `s` in direction `w^k` at scale `3^n` is cut into thirds; the middle
//! third is replaced by the two sides of an equilateral bump, and the four
//! pieces are subdivided again. The bump's first side is the third turned by
//! -60 degrees, its second side the third turned by +60 degrees.
//!
//! `snowflake(n)` starts from the triangle with corners `0`, `3^n` and
//! `3^n * w`, whose side is `3^n` lattice units long. Its corners run
//! counterclockwise, so the inside lies to the left of every side and each
//! bump, turned to the right, points outward.
use vstd::prelude::*;
use crate::lattice::{
    abs, lemma_segs_view_injective, eis_norm, eis_unit, eis_unit_exec, lemma_power_monotone, lemma_power_positive,
    lemma_segs_view_push, power, pt_add, pt_sub, segs_view, step, Point, Pt, Seg, Segment,
    COORD_LIMIT,
};

verus! {

/// Largest iteration count accepted by `snowflake`.
pub const KOCH_MAX_ITERATIONS: u32 = 16;

/// Leaf segments of one side from `s`, in direction `w^k`, of length `3^n`.
pub open spec fn koch_side(s: Pt, k: nat, n: nat) -> Seq<Seg>
    decreases n,
{
    if n == 0 {
        seq![(s, pt_add(s, eis_unit(k as int)))]
    } else {
        let t = power(3, (n - 1) as nat);
        let p2 = step(s, t, eis_unit(k as int));
        let p3 = step(p2, t, eis_unit(((k + 5) % 6) as int));
        let p4 = step(s, 2 * t, eis_unit(k as int));
        koch_side(s, k, (n - 1) as nat) + koch_side(p2, (k + 5) % 6, (n - 1) as nat) + koch_side(
            p3,
            (k + 1) % 6,
            (n - 1) as nat,
        ) + koch_side(p4, k, (n - 1) as nat)
    }
}

/// The three corners of the starting triangle for `n` iterations.
pub open spec fn koch_corners(n: nat) -> (Pt, Pt, Pt) {
    ((0, 0), (power(3, n), 0), (0, power(3, n)))
}

/// The snowflake after `n` iterations: the three subdivided sides, from the
/// first corner to the second, the second to the third, the third back to
/// the first.
pub open spec fn koch_snowflake(n: nat) -> Seq<Seg> {
    let (c1, c2, c3) = koch_corners(n);
    koch_side(c1, 0, n) + koch_side(c2, 2, n) + koch_side(c3, 4, n)
}

/// `t * w^k` for `k < 6`.
fn scaled_unit(k: u8, t: i64) -> (r: Point)
    requires
        k < 6,
        0 <= t <= COORD_LIMIT,
    ensures
        r@ == step((0, 0), t as int, eis_unit(k as int)),
        abs(r.x as int) <= t,
        abs(r.y as int) <= t,
{
    if k == 0 {
        Point { x: t, y: 0 }
    } else if k == 1 {
        Point { x: 0, y: t }
    } else if k == 2 {
        Point { x: -t, y: t }
    } else if k == 3 {
        Point { x: -t, y: 0 }
    } else if k == 4 {
        Point { x: 0, y: -t }
    } else {
        Point { x: t, y: -t }
    }
}

#[verifier::rlimit(40)]
fn koch_into(out: &mut Vec<Segment>, s: Point, k: u8, n: u32, scale: i64)
    requires
        k < 6,
        scale == power(3, n as nat),
        abs(s.x as int) + 2 * scale <= COORD_LIMIT,
        abs(s.y as int) + 2 * scale <= COORD_LIMIT,
    ensures
        segs_view(final(out)@) == segs_view(old(out)@) + koch_side(s@, k as nat, n as nat),
    decreases n,
{
    proof {
        lemma_power_positive(3, n as nat);
    }
    if n == 0 {
        let u = eis_unit_exec(k);
        let g = Segment { start: s, end: Point { x: s.x + u.x, y: s.y + u.y } };
        proof {
            lemma_segs_view_push(out@, g);
        }
        out.push(g);
        proof {
            assert(segs_view(out@) =~= segs_view(old(out)@) + koch_side(s@, k as nat, n as nat));
        }
    } else {
        let t = scale / 3;
        let k1 = (k + 1) % 6;
        let k5 = (k + 5) % 6;
        let a = scaled_unit(k, t);
        let b = scaled_unit(k5, t);
        let p2 = Point { x: s.x + a.x, y: s.y + a.y };
        let p3 = Point { x: p2.x + b.x, y: p2.y + b.y };
        let p4 = Point { x: p2.x + a.x, y: p2.y + a.y };
        proof {
            assert(p4@ == step(s@, 2 * t, eis_unit(k as int)));
        }
        let ghost before = segs_view(out@);
        koch_into(out, s, k, n - 1, t);
        koch_into(out, p2, k5, n - 1, t);
        koch_into(out, p3, k1, n - 1, t);
        koch_into(out, p4, k, n - 1, t);
        proof {
            let m = (n - 1) as nat;
            let q1 = koch_side(s@, k as nat, m);
            let q2 = koch_side(p2@, k5 as nat, m);
            let q3 = koch_side(p3@, k1 as nat, m);
            let q4 = koch_side(p4@, k as nat, m);
            assert(koch_side(s@, k as nat, n as nat) == q1 + q2 + q3 + q4);
            assert(segs_view(out@) =~= before + (q1 + q2 + q3 + q4));
        }
    }
}

/// The segments of the Koch snowflake after `iterations` iterations, side
/// by side in drawing order, in Eisenstein coordinates where the starting
/// triangle has corners `(0, 0)`, `(3^iterations, 0)` and `(0, 3^iterations)`.
pub fn snowflake(iterations: u32) -> (r: Vec<Segment>)
    requires
        iterations <= KOCH_MAX_ITERATIONS,
    ensures
        segs_view(r@) == koch_snowflake(iterations as nat),
{
    let mut scale: i64 = 1;
    let mut i: u32 = 0;
    while i < iterations
        invariant
            i <= iterations <= KOCH_MAX_ITERATIONS,
            scale == power(3, i as nat),
        decreases iterations - i,
    {
        proof {
            lemma_power_monotone(3, i as nat, 15);
            reveal_with_fuel(power, 16);
            assert(power(3, 15) == 14_348_907);
        }
        scale = scale * 3;
        i = i + 1;
    }
    proof {
        lemma_power_monotone(3, iterations as nat, 16);
        reveal_with_fuel(power, 17);
        assert(power(3, 16) == 43_046_721);
    }
    let c1 = Point { x: 0, y: 0 };
    let c2 = Point { x: scale, y: 0 };
    let c3 = Point { x: 0, y: scale };
    let mut out: Vec<Segment> = Vec::new();
    proof {
        assert(segs_view(out@) =~= Seq::<Seg>::empty());
    }
    koch_into(&mut out, c1, 0, iterations, scale);
    koch_into(&mut out, c2, 2, iterations, scale);
    koch_into(&mut out, c3, 4, iterations, scale);
    proof {
        let n = iterations as nat;
        assert(segs_view(out@) =~= koch_snowflake(n));
    }
    out
}

/// One side at scale `3^n` yields exactly `4^n` segments.
pub proof fn lemma_koch_side_len(s: Pt, k: nat, n: nat)
    ensures
        koch_side(s, k, n).len() == power(4, n),
    decreases n,
{
    if n > 0 {
        let m = (n - 1) as nat;
        let t = power(3, m);
        let p2 = step(s, t, eis_unit(k as int));
        let p3 = step(p2, t, eis_unit(((k + 5) % 6) as int));
        let p4 = step(s, 2 * t, eis_unit(k as int));
        lemma_koch_side_len(s, k, m);
        lemma_koch_side_len(p2, (k + 5) % 6, m);
        lemma_koch_side_len(p3, (k + 1) % 6, m);
        lemma_koch_side_len(p4, k, m);
    }
}

/// Each segment starts where the previous one ends.
pub open spec fn connected(g: Seq<Seg>) -> bool {
    forall|j: int| 0 < j < g.len() ==> (#[trigger] g[j]).0 == g[j - 1].1
}

/// Two connected runs of segments, the second starting where the first
/// ends, form one connected run.
proof fn lemma_connected_concat(a: Seq<Seg>, b: Seq<Seg>)
    requires
        connected(a),
        connected(b),
        a.len() > 0,
        b.len() > 0,
        b.first().0 == a.last().1,
    ensures
        connected(a + b),
        (a + b).first() == a.first(),
        (a + b).last() == b.last(),
{
    let all = a + b;
    assert forall|j: int| 0 < j < all.len() implies (#[trigger] all[j]).0 == all[j - 1].1 by {
        if j < a.len() {
            assert(all[j] == a[j] && all[j - 1] == a[j - 1]);
        } else if j == a.len() {
            assert(all[j] == b[0] && all[j - 1] == a.last());
        } else {
            assert(all[j] == b[j - a.len()] && all[j - 1] == b[j - 1 - a.len()]);
        }
    }
}

/// Turning by -60 degrees and then by +60 degrees adds up to going
/// straight: `w^(k+1) == w^k - w^(k+5)`.
proof fn lemma_eis_turns(k: nat)
    requires
        k < 6,
    ensures
        eis_unit(((k + 1) % 6) as int).0 == eis_unit(k as int).0 - eis_unit(((k + 5) % 6) as int).0,
        eis_unit(((k + 1) % 6) as int).1 == eis_unit(k as int).1 - eis_unit(((k + 5) % 6) as int).1,
{
    if k == 0 {
    } else if k == 1 {
    } else if k == 2 {
    } else if k == 3 {
    } else if k == 4 {
    } else {
    }
}

/// The corners of the bump: going `t * u`, `t * v` and then `t * (u - v)`
/// from `s` lands at `s + 2t * u`, and one more
/// `t * u` at `s + 3t * u`.
proof fn lemma_third_steps(s: Pt, t: int, u: Pt, v: Pt, w: Pt)
    requires
        w.0 == u.0 - v.0,
        w.1 == u.1 - v.1,
    ensures
        step(step(step(s, t, u), t, v), t, w) == step(s, 2 * t, u),
        step(step(s, 2 * t, u), t, u) == step(s, 3 * t, u),
        step(s, 2 * t, u) == step(step(s, t, u), t, u),
{
    assert(t * w.0 == t * u.0 - t * v.0 && t * w.1 == t * u.1 - t * v.1) by (nonlinear_arith)
        requires
            w.0 == u.0 - v.0,
            w.1 == u.1 - v.1,
    ;
    assert(2 * t * u.0 == t * u.0 + t * u.0 && 2 * t * u.1 == t * u.1 + t * u.1) by (nonlinear_arith);
    assert(3 * t * u.0 == 2 * t * u.0 + t * u.0 && 3 * t * u.1 == 2 * t * u.1 + t * u.1)
        by (nonlinear_arith);
}

/// A side is a connected run from `s` to `s + 3^n * w^k`.
#[verifier::rlimit(40)]
pub proof fn lemma_koch_side_path(s: Pt, k: nat, n: nat)
    requires
        k < 6,
    ensures
        koch_side(s, k, n).len() > 0,
        connected(koch_side(s, k, n)),
        koch_side(s, k, n).first().0 == s,
        koch_side(s, k, n).last().1 == step(s, power(3, n), eis_unit(k as int)),
    decreases n,
{
    if n == 0 {
        assert(step(s, 1, eis_unit(k as int)) == pt_add(s, eis_unit(k as int)));
    } else {
        let m = (n - 1) as nat;
        let t = power(3, m);
        let u = eis_unit(k as int);
        let v = eis_unit(((k + 5) % 6) as int);
        let w = eis_unit(((k + 1) % 6) as int);
        let p2 = step(s, t, u);
        let p3 = step(p2, t, v);
        let p4 = step(s, 2 * t, u);
        lemma_eis_turns(k);
        lemma_koch_side_path(s, k, m);
        lemma_koch_side_path(p2, (k + 5) % 6, m);
        lemma_koch_side_path(p3, (k + 1) % 6, m);
        lemma_koch_side_path(p4, k, m);
        let q1 = koch_side(s, k, m);
        let q2 = koch_side(p2, (k + 5) % 6, m);
        let q3 = koch_side(p3, (k + 1) % 6, m);
        let q4 = koch_side(p4, k, m);
        lemma_third_steps(s, t, u, v, w);
        assert(power(3, n) == 3 * t);
        assert(koch_side(s, k, n) == q1 + q2 + q3 + q4);
        lemma_connected_concat(q1, q2);
        lemma_connected_concat(q1 + q2, q3);
        lemma_connected_concat(q1 + q2 + q3, q4);
    }
}

/// Path law: the snowflake is one closed path; each segment starts where
/// the previous one ends, and the last one ends where the first starts.
pub proof fn law_koch_closed_path(n: nat)
    ensures
        connected(koch_snowflake(n)),
        koch_snowflake(n).last().1 == koch_snowflake(n).first().0,
{
    let (c1, c2, c3) = koch_corners(n);
    let p = power(3, n);
    lemma_koch_side_path(c1, 0, n);
    lemma_koch_side_path(c2, 2, n);
    lemma_koch_side_path(c3, 4, n);
    assert(step(c1, p, eis_unit(0)) == c2 && step(c2, p, eis_unit(2)) == c3 && step(
        c3,
        p,
        eis_unit(4),
    ) == c1) by {
        assert(p * 1 == p && p * 0 == 0 && p * -1 == -p) by (nonlinear_arith);
    }
    let a = koch_side(c1, 0, n);
    let b = koch_side(c2, 2, n);
    let c = koch_side(c3, 4, n);
    lemma_connected_concat(a, b);
    lemma_connected_concat(a + b, c);
}

/// Cross product of two vectors in Eisenstein coordinates. The basis
/// `(1, w)` is positively oriented, so its sign is that of the Euclidean
/// cross product: positive when `q` lies to the left of `p`.
pub open spec fn cross(p: Pt, q: Pt) -> int {
    p.0 * q.1 - p.1 * q.0
}

/// `q` and `o` lie strictly on opposite sides of the line through `a` and `b`.
pub open spec fn opposite_sides(a: Pt, b: Pt, q: Pt, o: Pt) -> bool {
    cross(pt_sub(b, a), pt_sub(q, a)) * cross(pt_sub(b, a), pt_sub(o, a)) < 0
}

/// The tip of the outermost bump of the `j`-th side (`j < 3`) of the
/// snowflake after `n >= 1` iterations: the end of the segment that closes
/// the second quarter of that side.
pub open spec fn bump_apex(n: nat, j: int) -> Pt {
    koch_snowflake(n)[j * power(4, n) + 2 * power(4, (n - 1) as nat) - 1].1
}

/// The outermost bump of a side from `s` in direction `w^k` of length `3^n`
/// (`n >= 1`) has its tip at `s + t * w^k + t * w^(k+5)`, `t = 3^(n-1)`.
proof fn lemma_koch_apex(s: Pt, k: nat, n: nat)
    requires
        k < 6,
        n >= 1,
    ensures
        koch_side(s, k, n).len() == power(4, n),
        koch_side(s, k, n)[2 * power(4, (n - 1) as nat) - 1].1 == step(
            step(s, power(3, (n - 1) as nat), eis_unit(k as int)),
            power(3, (n - 1) as nat),
            eis_unit(((k + 5) % 6) as int),
        ),
{
    let m = (n - 1) as nat;
    let t = power(3, m);
    let p2 = step(s, t, eis_unit(k as int));
    let p3 = step(p2, t, eis_unit(((k + 5) % 6) as int));
    let p4 = step(s, 2 * t, eis_unit(k as int));
    let q1 = koch_side(s, k, m);
    let q2 = koch_side(p2, (k + 5) % 6, m);
    let q3 = koch_side(p3, (k + 1) % 6, m);
    let q4 = koch_side(p4, k, m);
    lemma_koch_side_len(s, k, n);
    lemma_koch_side_len(s, k, m);
    lemma_koch_side_len(p2, (k + 5) % 6, m);
    lemma_koch_side_path(p2, (k + 5) % 6, m);
    lemma_power_positive(4, m);
    let l = power(4, m);
    assert(koch_side(s, k, n) == q1 + q2 + q3 + q4);
    assert((q1 + q2 + q3 + q4)[2 * l - 1] == q2[l - 1]);
}

/// Bump law: after any number `n >= 1` of iterations, the outermost bump
/// of each of the three sides points outward: its tip and the opposite
/// corner of the starting triangle lie on opposite sides of that side.
pub proof fn law_koch_bumps_outward(n: nat)
    requires
        n >= 1,
    ensures
        opposite_sides(koch_corners(n).0, koch_corners(n).1, bump_apex(n, 0), koch_corners(n).2),
        opposite_sides(koch_corners(n).1, koch_corners(n).2, bump_apex(n, 1), koch_corners(n).0),
        opposite_sides(koch_corners(n).2, koch_corners(n).0, bump_apex(n, 2), koch_corners(n).1),
{
    let (c1, c2, c3) = koch_corners(n);
    let p = power(3, n);
    let t = power(3, (n - 1) as nat);
    let l = power(4, n);
    let h = 2 * power(4, (n - 1) as nat) - 1;
    lemma_power_positive(3, (n - 1) as nat);
    lemma_power_positive(4, (n - 1) as nat);
    assert(p == 3 * t);
    lemma_koch_apex(c1, 0, n);
    lemma_koch_apex(c2, 2, n);
    lemma_koch_apex(c3, 4, n);
    let a = koch_side(c1, 0, n);
    let b = koch_side(c2, 2, n);
    let c = koch_side(c3, 4, n);
    assert(0 <= h < l) by {
        assert(power(4, n) == 4 * power(4, (n - 1) as nat));
    }
    assert(koch_snowflake(n)[h] == a[h]);
    assert(koch_snowflake(n)[l + h] == b[h]);
    assert(koch_snowflake(n)[2 * l + h] == c[h]);
    assert(bump_apex(n, 0) == (2 * t, -t)) by {
        assert(1 * l + h == l + h);
        assert(t * 1 == t && t * 0 == 0 && t * -1 == -t) by (nonlinear_arith);
    }
    assert(bump_apex(n, 1) == (p - t, 2 * t)) by {
        assert(1 * l + h == l + h);
        assert(t * 1 == t && t * 0 == 0 && t * -1 == -t) by (nonlinear_arith);
    }
    assert(bump_apex(n, 2) == (-t, p - t)) by {
        assert(2 * l + h == 2 * l + h);
        assert(t * 1 == t && t * 0 == 0 && t * -1 == -t) by (nonlinear_arith);
    }
    assert(p * (-t) * (p * p) < 0) by (nonlinear_arith)
        requires
            p >= 1,
            t >= 1,
    ;
    assert(cross((p, 0), (2 * t, -t)) == p * (-t) && cross((p, 0), (0, p)) == p * p)
        by (nonlinear_arith);
    assert(cross((-p, p), (-t, 2 * t)) == p * (-t) && cross((-p, p), (-p, 0)) == p * p)
        by (nonlinear_arith)
        requires
            p == 3 * t,
    ;
    assert(cross((0, -p), (-t, -t)) == p * (-t) && cross((0, -p), (p, -p)) == p * p)
        by (nonlinear_arith);
}

/// Count law: after `n` iterations the snowflake has exactly `3 * 4^n`
/// segments; with no iteration it is the three sides of the triangle.
pub proof fn law_koch_count(n: nat)
    ensures
        koch_snowflake(n).len() == 3 * power(4, n),
        n == 0 ==> koch_snowflake(n) == seq![
            ((0int, 0int), (1int, 0int)),
            ((1int, 0int), (0int, 1int)),
            ((0int, 1int), (0int, 0int)),
        ],
{
    let (c1, c2, c3) = koch_corners(n);
    lemma_koch_side_len(c1, 0, n);
    lemma_koch_side_len(c2, 2, n);
    lemma_koch_side_len(c3, 4, n);
    if n == 0 {
        assert(koch_snowflake(n) =~= seq![
            ((0int, 0int), (1int, 0int)),
            ((1int, 0int), (0int, 1int)),
            ((0int, 1int), (0int, 0int)),
        ]);
    }
}

/// Seed law: the three corners of the starting triangle are pairwise at the
/// same distance, the side length `3^n`: the squared Euclidean length of
/// each side (the Eisenstein norm of the difference) is `(3^n)^2`.
pub proof fn law_koch_seed_equilateral(n: nat)
    ensures
        eis_norm(pt_sub(koch_corners(n).1, koch_corners(n).0)) == power(3, n) * power(3, n),
        eis_norm(pt_sub(koch_corners(n).2, koch_corners(n).1)) == power(3, n) * power(3, n),
        eis_norm(pt_sub(koch_corners(n).0, koch_corners(n).2)) == power(3, n) * power(3, n),
{
    let p = power(3, n);
    assert(p * p + p * 0 + 0 * 0 == p * p) by (nonlinear_arith);
    assert((-p) * (-p) + (-p) * p + p * p == p * p) by (nonlinear_arith);
    assert(0 * 0 + 0 * (-p) + (-p) * (-p) == p * p) by (nonlinear_arith);
}

/// Determinism law: two results of `snowflake` for the same iteration count
/// are the same segments in the same order.
pub proof fn law_koch_deterministic(n: nat, a: Seq<Segment>, b: Seq<Segment>)
    requires
        segs_view(a) == koch_snowflake(n),
        segs_view(b) == koch_snowflake(n),
    ensures
        a == b,
{
    lemma_segs_view_injective(a, b);
}

} // verus!
