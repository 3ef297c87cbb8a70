//! Sierpinski triangle on the Eisenstein integers.
//!
//! Lattice point `(a, b)` stands for `a + b*w` with `w = e^(i*pi/3)`. An
//! equilateral triangle with corner `s` and side `2^n` is split into three
//! triangles of half the side: at `s`, at `s + 2^(n-1)` and at
//! `s + 2^(n-1) * w`. The leaves are triangles of side one.
use vstd::prelude::*;
use crate::lattice::{
    lemma_tris_view_injective,    lemma_power_monotone, lemma_power_positive, lemma_tris_view_push, power, tris_view, Point, Pt,
    Tri, COORD_LIMIT,
};

verus! {

/// Largest iteration count accepted by `triangle`.
pub const SIERPINSKI_MAX_ITERATIONS: u32 = 20;

/// The leaf triangle with corner `s` and side one.
pub open spec fn unit_triangle(s: Pt) -> (Pt, Pt, Pt) {
    (s, (s.0 + 1, s.1), (s.0, s.1 + 1))
}

/// Leaf triangles of the subdivision of the triangle with corner `s` and
/// side `2^n`.
pub open spec fn sierpinski_from(s: Pt, n: nat) -> Seq<(Pt, Pt, Pt)>
    decreases n,
{
    if n == 0 {
        seq![unit_triangle(s)]
    } else {
        let h = power(2, (n - 1) as nat);
        sierpinski_from(s, (n - 1) as nat) + sierpinski_from((s.0 + h, s.1), (n - 1) as nat)
            + sierpinski_from((s.0, s.1 + h), (n - 1) as nat)
    }
}

/// The Sierpinski triangle after `n` iterations, inside the triangle with
/// corners `(0, 0)`, `(2^n, 0)` and `(0, 2^n)`.
pub open spec fn sierpinski(n: nat) -> Seq<(Pt, Pt, Pt)> {
    sierpinski_from((0, 0), n)
}

fn sierpinski_into(out: &mut Vec<Tri>, s: Point, n: u32, scale: i64)
    requires
        scale == power(2, n as nat),
        0 <= s.x,
        0 <= s.y,
        s.x + scale <= COORD_LIMIT,
        s.y + scale <= COORD_LIMIT,
    ensures
        tris_view(final(out)@) == tris_view(old(out)@) + sierpinski_from(s@, n as nat),
    decreases n,
{
    proof {
        lemma_power_positive(2, n as nat);
    }
    if n == 0 {
        let g = Tri { p1: s, p2: Point { x: s.x + 1, y: s.y }, p3: Point { x: s.x, y: s.y + 1 } };
        proof {
            lemma_tris_view_push(out@, g);
        }
        out.push(g);
        proof {
            assert(tris_view(out@) =~= tris_view(old(out)@) + sierpinski_from(s@, n as nat));
        }
    } else {
        let h = scale / 2;
        let right = Point { x: s.x + h, y: s.y };
        let up = Point { x: s.x, y: s.y + h };
        let ghost before = tris_view(out@);
        sierpinski_into(out, s, n - 1, h);
        sierpinski_into(out, right, n - 1, h);
        sierpinski_into(out, up, n - 1, h);
        proof {
            let m = (n - 1) as nat;
            let a = sierpinski_from(s@, m);
            let b = sierpinski_from(right@, m);
            let c = sierpinski_from(up@, m);
            assert(sierpinski_from(s@, n as nat) == a + b + c);
            assert(tris_view(out@) =~= before + (a + b + c));
        }
    }
}

/// The leaf triangles of the Sierpinski triangle after `iterations`
/// iterations, in Eisenstein coordinates where the whole figure has corners
/// `(0, 0)`, `(2^iterations, 0)` and `(0, 2^iterations)`.
pub fn triangle(iterations: u32) -> (r: Vec<Tri>)
    requires
        iterations <= SIERPINSKI_MAX_ITERATIONS,
    ensures
        tris_view(r@) == sierpinski(iterations as nat),
{
    let mut scale: i64 = 1;
    let mut i: u32 = 0;
    while i < iterations
        invariant
            i <= iterations <= SIERPINSKI_MAX_ITERATIONS,
            scale == power(2, i as nat),
        decreases iterations - i,
    {
        proof {
            lemma_power_monotone(2, i as nat, 19);
            reveal_with_fuel(power, 20);
            assert(power(2, 19) == 524_288);
        }
        scale = scale * 2;
        i = i + 1;
    }
    proof {
        lemma_power_monotone(2, iterations as nat, 20);
        reveal_with_fuel(power, 21);
        assert(power(2, 20) == 1_048_576);
    }
    let mut out: Vec<Tri> = Vec::new();
    proof {
        assert(tris_view(out@) =~= Seq::<(Pt, Pt, Pt)>::empty());
    }
    sierpinski_into(&mut out, Point { x: 0, y: 0 }, iterations, scale);
    proof {
        assert(tris_view(out@) =~= sierpinski(iterations as nat));
    }
    out
}

/// The subdivision of a triangle of side `2^n` yields exactly `3^n` leaves.
pub proof fn lemma_sierpinski_from_len(s: Pt, n: nat)
    ensures
        sierpinski_from(s, n).len() == power(3, n),
    decreases n,
{
    if n > 0 {
        let m = (n - 1) as nat;
        let h = power(2, m);
        lemma_sierpinski_from_len(s, m);
        lemma_sierpinski_from_len((s.0 + h, s.1), m);
        lemma_sierpinski_from_len((s.0, s.1 + h), m);
    }
}

/// Count law: after `n` iterations the Sierpinski triangle has exactly
/// `3^n` leaf triangles; with no iteration it is the one starting triangle.
pub proof fn law_sierpinski_count(n: nat)
    ensures
        sierpinski(n).len() == power(3, n),
        n == 0 ==> sierpinski(n) == seq![((0int, 0int), (1int, 0int), (0int, 1int))],
{
    lemma_sierpinski_from_len((0, 0), n);
}

/// Determinism law: two results of `triangle` for the same iteration count
/// are the same triangles in the same order.
pub proof fn law_sierpinski_deterministic(n: nat, a: Seq<Tri>, b: Seq<Tri>)
    requires
        tris_view(a) == sierpinski(n),
        tris_view(b) == sierpinski(n),
    ensures
        a == b,
{
    lemma_tris_view_injective(a, b);
}

} // verus!
