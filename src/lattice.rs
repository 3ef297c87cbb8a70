//! Exact lattice coordinates shared by the generators.
//!
//! Every generator works on an integer lattice chosen so that all of its
//! subdivisions are exact: Gaussian integers `x + y*i` for the dragon curve
//! and the Pythagoras tree, Eisenstein integers `x + y*w` (with `w` the
//! sixth root of unity `e^(i*pi/3)`) for the Koch snowflake and the
//! Sierpinski triangle, and integer combinations of the first four eighth
//! roots of unity for the circle packing. Mapping a lattice point to the
//! plane is an affine map chosen by the caller (origin, unit length and
//! rotation).
use vstd::prelude::*;

verus! {

/// Largest magnitude allowed for any coordinate that a generator produces.
pub const COORD_LIMIT: i64 = 0x4000_0000_0000_0000;

/// Bound on the length, per coordinate, of the Gaussian vectors that the
/// dragon curve and the Pythagoras tree build: `2^24`.
pub const SPAN: i64 = 16_777_216;

/// A point of an integer lattice, in lattice coordinates.
#[derive(Clone, Copy, Debug, PartialEq, Eq, Structural)]
pub struct Point {
    pub x: i64,
    pub y: i64,
}

/// A straight segment between two lattice points.
#[derive(Clone, Copy, Debug, PartialEq, Eq, Structural)]
pub struct Segment {
    pub start: Point,
    pub end: Point,
}

/// A triangle given by its three corners.
#[derive(Clone, Copy, Debug, PartialEq, Eq, Structural)]
pub struct Tri {
    pub p1: Point,
    pub p2: Point,
    pub p3: Point,
}

/// Mathematical point: a pair of integers.
pub type Pt = (int, int);

/// Mathematical segment: start and end.
pub type Seg = (Pt, Pt);

impl View for Point {
    type V = Pt;

    open spec fn view(&self) -> Pt {
        (self.x as int, self.y as int)
    }
}

impl View for Segment {
    type V = Seg;

    open spec fn view(&self) -> Seg {
        (self.start@, self.end@)
    }
}

impl View for Tri {
    type V = (Pt, Pt, Pt);

    open spec fn view(&self) -> (Pt, Pt, Pt) {
        (self.p1@, self.p2@, self.p3@)
    }
}

impl Point {
    pub fn new(x: i64, y: i64) -> (r: Point)
        ensures
            r@ == (x as int, y as int),
    {
        Point { x, y }
    }
}

/// The models of a sequence of segments.
pub open spec fn segs_view(v: Seq<Segment>) -> Seq<Seg> {
    v.map_values(|g: Segment| g@)
}

/// The models of a sequence of triangles.
pub open spec fn tris_view(v: Seq<Tri>) -> Seq<(Pt, Pt, Pt)> {
    v.map_values(|g: Tri| g@)
}

pub open spec fn abs(a: int) -> int {
    if a < 0 {
        -a
    } else {
        a
    }
}

/// `base` raised to the power `n`.
pub open spec fn power(base: int, n: nat) -> int
    decreases n,
{
    if n == 0 {
        1
    } else {
        base * power(base, (n - 1) as nat)
    }
}

pub proof fn lemma_power_positive(base: int, n: nat)
    requires
        base >= 1,
    ensures
        power(base, n) >= 1,
    decreases n,
{
    if n > 0 {
        lemma_power_positive(base, (n - 1) as nat);
        assert(base * power(base, (n - 1) as nat) >= 1) by (nonlinear_arith)
            requires
                base >= 1,
                power(base, (n - 1) as nat) >= 1,
        ;
    }
}

pub proof fn lemma_power_monotone(base: int, m: nat, n: nat)
    requires
        base >= 1,
        m <= n,
    ensures
        power(base, m) <= power(base, n),
    decreases n,
{
    if m < n {
        lemma_power_monotone(base, m, (n - 1) as nat);
        lemma_power_positive(base, (n - 1) as nat);
        assert(power(base, (n - 1) as nat) <= base * power(base, (n - 1) as nat)) by (nonlinear_arith)
            requires
                base >= 1,
                power(base, (n - 1) as nat) >= 1,
        ;
    }
}

/// Sum of two points.
pub open spec fn pt_add(p: Pt, q: Pt) -> Pt {
    (p.0 + q.0, p.1 + q.1)
}

/// Difference of two points.
pub open spec fn pt_sub(p: Pt, q: Pt) -> Pt {
    (p.0 - q.0, p.1 - q.1)
}

/// A point moved by `k` times the vector `v`.
pub open spec fn step(p: Pt, k: int, v: Pt) -> Pt {
    (p.0 + k * v.0, p.1 + k * v.1)
}

/// Gaussian product `v * (1 + i)`: a turn by 45 degrees, scaled by the square root of two.
pub open spec fn times_one_plus_i(v: Pt) -> Pt {
    (v.0 - v.1, v.0 + v.1)
}

/// Gaussian product `v * (1 - i)`: a turn by -45 degrees, scaled by the square root of two.
pub open spec fn times_one_minus_i(v: Pt) -> Pt {
    (v.0 + v.1, v.1 - v.0)
}

/// The sixth root of unity `w^k` in Eisenstein coordinates `(a, b)` for `a + b*w`.
pub open spec fn eis_unit(k: int) -> Pt {
    let m = k % 6;
    if m == 0 {
        (1, 0)
    } else if m == 1 {
        (0, 1)
    } else if m == 2 {
        (-1, 1)
    } else if m == 3 {
        (-1, 0)
    } else if m == 4 {
        (0, -1)
    } else {
        (1, -1)
    }
}

/// Squared length of the Eisenstein integer `a + b*w`.
pub open spec fn eis_norm(p: Pt) -> int {
    p.0 * p.0 + p.0 * p.1 + p.1 * p.1
}

/// Executable sixth root of unity `w^k`, for `k < 6`.
pub fn eis_unit_exec(k: u8) -> (r: Point)
    requires
        k < 6,
    ensures
        r@ == eis_unit(k as int),
{
    if k == 0 {
        Point { x: 1, y: 0 }
    } else if k == 1 {
        Point { x: 0, y: 1 }
    } else if k == 2 {
        Point { x: -1, y: 1 }
    } else if k == 3 {
        Point { x: -1, y: 0 }
    } else if k == 4 {
        Point { x: 0, y: -1 }
    } else {
        Point { x: 1, y: -1 }
    }
}

pub proof fn lemma_segs_view_push(v: Seq<Segment>, g: Segment)
    ensures
        segs_view(v.push(g)) == segs_view(v).push(g@),
{
    assert(segs_view(v.push(g)) =~= segs_view(v).push(g@));
}

pub proof fn lemma_tris_view_push(v: Seq<Tri>, g: Tri)
    ensures
        tris_view(v.push(g)) == tris_view(v).push(g@),
{
    assert(tris_view(v.push(g)) =~= tris_view(v).push(g@));
}

/// A vector whose length times a positive scale is bounded is bounded itself.
pub proof fn lemma_unit_bound(a: int, scale: int)
    requires
        scale >= 1,
        abs(a) * scale <= SPAN,
    ensures
        abs(a) <= SPAN,
{
    assert(abs(a) <= abs(a) * scale) by (nonlinear_arith)
        requires
            scale >= 1,
            abs(a) >= 0,
    ;
}

/// Turning a bounded vector by 45 degrees while halving the scale keeps it bounded.
pub proof fn lemma_halve_bound(a: int, b: int, c: int, scale: int, half: int)
    requires
        half >= 1,
        scale == 2 * half,
        abs(a) * scale <= SPAN,
        abs(b) * scale <= SPAN,
        c == a + b || c == a - b || c == b - a,
    ensures
        abs(c) * half <= SPAN,
        abs(half * c) <= SPAN,
{
    let x = abs(a);
    let y = abs(b);
    let z = abs(c);
    assert(z <= x + y);
    assert(z * half <= SPAN) by (nonlinear_arith)
        requires
            z <= x + y,
            x >= 0,
            y >= 0,
            half >= 1,
            x * (2 * half) <= SPAN,
            y * (2 * half) <= SPAN,
    ;
    assert(abs(half * c) == z * half) by (nonlinear_arith)
        requires
            half >= 1,
            z == abs(c),
    ;
}

/// Segments with the same models are the same segments.
pub proof fn lemma_segs_view_injective(a: Seq<Segment>, b: Seq<Segment>)
    requires
        segs_view(a) == segs_view(b),
    ensures
        a == b,
{
    assert(a.len() == segs_view(a).len() && b.len() == segs_view(b).len());
    assert forall|i: int| 0 <= i < a.len() implies a[i] == b[i] by {
        assert(segs_view(a)[i] == segs_view(b)[i]);
    }
    assert(a =~= b);
}

/// Triangles with the same models are the same triangles.
pub proof fn lemma_tris_view_injective(a: Seq<Tri>, b: Seq<Tri>)
    requires
        tris_view(a) == tris_view(b),
    ensures
        a == b,
{
    assert(a.len() == tris_view(a).len() && b.len() == tris_view(b).len());
    assert forall|i: int| 0 <= i < a.len() implies a[i] == b[i] by {
        assert(tris_view(a)[i] == tris_view(b)[i]);
    }
    assert(a =~= b);
}

} // verus!
