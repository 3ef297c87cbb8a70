//! Circle packing in the manner of Sierpinski.
//!
//! A circle of radius `r` is drawn, then nine circles of radius `r / 3` are
//! packed into it: eight around, their centers at distance `2r / 3` in the
//! directions `z^i` (`i < 8`, `z = e^(i*pi/4)`), and one at the same center.
//! Each of the nine is packed in the same way, down to the requested depth.
//!
//! Centers are exact: lattice point `(a, b, c, d)` stands for
//! `a + b*z + c*z^2 + d*z^3` (and `z^4 == -1`). `circles(n)` starts from the
//! circle of radius `3^n` at the origin, so that every radius and every
//! offset is an integer. A rotation of the whole figure (the angle at which
//! the first of the eight children stands) is part of the map from lattice
//! to plane.
use vstd::prelude::*;
use crate::lattice::{lemma_power_monotone, lemma_power_positive, power, COORD_LIMIT};

verus! {

/// Largest depth accepted by `circles`.
pub const PACKING_MAX_DEPTH: u32 = 12;

/// A center: the integer combination `c0 + c1*z + c2*z^2 + c3*z^3` of the
/// eighth roots of unity.
#[derive(Clone, Copy, Debug, PartialEq, Eq, Structural)]
pub struct Octo {
    pub c0: i64,
    pub c1: i64,
    pub c2: i64,
    pub c3: i64,
}

/// A circle: its center and radius, in lattice units.
#[derive(Clone, Copy, Debug, PartialEq, Eq, Structural)]
pub struct Disc {
    pub center: Octo,
    pub radius: i64,
}

/// Mathematical center.
pub type Q4 = (int, int, int, int);

impl View for Octo {
    type V = Q4;

    open spec fn view(&self) -> Q4 {
        (self.c0 as int, self.c1 as int, self.c2 as int, self.c3 as int)
    }
}

impl View for Disc {
    type V = (Q4, int);

    open spec fn view(&self) -> (Q4, int) {
        (self.center@, self.radius as int)
    }
}

/// The models of a sequence of circles.
pub open spec fn discs_view(v: Seq<Disc>) -> Seq<(Q4, int)> {
    v.map_values(|g: Disc| g@)
}

/// `c + d * z^i`, for `i < 8`.
pub open spec fn root_step(c: Q4, i: int, d: int) -> Q4 {
    if i == 0 {
        (c.0 + d, c.1, c.2, c.3)
    } else if i == 1 {
        (c.0, c.1 + d, c.2, c.3)
    } else if i == 2 {
        (c.0, c.1, c.2 + d, c.3)
    } else if i == 3 {
        (c.0, c.1, c.2, c.3 + d)
    } else if i == 4 {
        (c.0 - d, c.1, c.2, c.3)
    } else if i == 5 {
        (c.0, c.1 - d, c.2, c.3)
    } else if i == 6 {
        (c.0, c.1, c.2 - d, c.3)
    } else {
        (c.0, c.1, c.2, c.3 - d)
    }
}

/// Distance from a circle of radius `3^n` to the centers of its eight
/// outer children: two thirds of the radius.
pub open spec fn child_offset(n: nat) -> int {
    2 * power(3, (n - 1) as nat)
}

/// Center of the `i`-th child (`i < 9`) of the circle at `c` with radius
/// `3^n`: the eight outer ones first, the middle one last.
pub open spec fn child_center(c: Q4, n: nat, i: int) -> Q4 {
    if i < 8 {
        root_step(c, i, child_offset(n))
    } else {
        c
    }
}

/// The circles packed into the circle at `c` of radius `3^n`, that circle
/// first, then the packing of each child in turn.
pub open spec fn packing_from(c: Q4, n: nat) -> Seq<(Q4, int)>
    decreases n, 10nat,
{
    if n == 0 {
        Seq::empty()
    } else {
        seq![(c, power(3, n))] + children_prefix(c, n, 9)
    }
}

/// The packings of the first `i` children of the circle at `c` of radius
/// `3^n`, one after the other.
pub open spec fn children_prefix(c: Q4, n: nat, i: nat) -> Seq<(Q4, int)>
    decreases n, i,
{
    if n == 0 || i == 0 {
        Seq::empty()
    } else {
        children_prefix(c, n, (i - 1) as nat) + packing_from(
            child_center(c, n, i - 1),
            (n - 1) as nat,
        )
    }
}

/// The packing of depth `n` around the origin.
pub open spec fn circle_packing(n: nat) -> Seq<(Q4, int)> {
    packing_from((0, 0, 0, 0), n)
}

pub open spec fn bounded(c: Q4, margin: int) -> bool {
    &&& -COORD_LIMIT + margin <= c.0 <= COORD_LIMIT - margin
    &&& -COORD_LIMIT + margin <= c.1 <= COORD_LIMIT - margin
    &&& -COORD_LIMIT + margin <= c.2 <= COORD_LIMIT - margin
    &&& -COORD_LIMIT + margin <= c.3 <= COORD_LIMIT - margin
}

/// `c + d * z^i`.
fn root_step_exec(c: Octo, i: u8, d: i64) -> (r: Octo)
    requires
        i < 8,
        0 <= d,
        bounded(c@, d as int),
    ensures
        r@ == root_step(c@, i as int, d as int),
{
    if i == 0 {
        Octo { c0: c.c0 + d, ..c }
    } else if i == 1 {
        Octo { c1: c.c1 + d, ..c }
    } else if i == 2 {
        Octo { c2: c.c2 + d, ..c }
    } else if i == 3 {
        Octo { c3: c.c3 + d, ..c }
    } else if i == 4 {
        Octo { c0: c.c0 - d, ..c }
    } else if i == 5 {
        Octo { c1: c.c1 - d, ..c }
    } else if i == 6 {
        Octo { c2: c.c2 - d, ..c }
    } else {
        Octo { c3: c.c3 - d, ..c }
    }
}

fn packing_into(out: &mut Vec<Disc>, c: Octo, n: u32, scale: i64)
    requires
        scale == power(3, n as nat),
        bounded(c@, scale as int),
    ensures
        discs_view(final(out)@) == discs_view(old(out)@) + packing_from(c@, n as nat),
    decreases n,
{
    if n == 0 {
        proof {
            assert(discs_view(out@) =~= discs_view(old(out)@) + packing_from(c@, n as nat));
        }
        return;
    }
    proof {
        lemma_power_positive(3, (n - 1) as nat);
    }
    let g = Disc { center: c, radius: scale };
    let ghost before = discs_view(out@);
    out.push(g);
    proof {
        assert(discs_view(out@) =~= before + seq![(c@, power(3, n as nat))]
            + children_prefix(c@, n as nat, 0));
    }
    let t = scale / 3;
    let d = 2 * t;
    let mut i: u8 = 0;
    while i < 9
        invariant
            0 < n,
            i <= 9,
            scale == power(3, n as nat),
            t == power(3, (n - 1) as nat),
            d == 2 * t,
            t >= 1,
            bounded(c@, scale as int),
            discs_view(out@) == before + seq![(c@, power(3, n as nat))] + children_prefix(
                c@,
                n as nat,
                i as nat,
            ),
        decreases 9 - i,
    {
        let child = if i < 8 { root_step_exec(c, i, d) } else { c };
        let ghost mid = discs_view(out@);
        packing_into(out, child, n - 1, t);
        proof {
            assert(child@ == child_center(c@, n as nat, i as int));
            assert(children_prefix(c@, n as nat, (i + 1) as nat) == children_prefix(
                c@,
                n as nat,
                i as nat,
            ) + packing_from(child@, (n - 1) as nat));
            assert(discs_view(out@) =~= before + seq![(c@, power(3, n as nat))] + children_prefix(
                c@,
                n as nat,
                (i + 1) as nat,
            ));
        }
        i = i + 1;
    }
    proof {
        assert(discs_view(out@) =~= discs_view(old(out)@) + packing_from(c@, n as nat));
    }
}

/// The circles of the packing of depth `depth`, each circle before the
/// packings of its nine children (the eight outer ones in the order of
/// their directions, then the middle one), centered at the origin with
/// outer radius `3^depth`.
pub fn circles(depth: u32) -> (r: Vec<Disc>)
    requires
        depth <= PACKING_MAX_DEPTH,
    ensures
        discs_view(r@) == circle_packing(depth as nat),
{
    let mut scale: i64 = 1;
    let mut i: u32 = 0;
    while i < depth
        invariant
            i <= depth <= PACKING_MAX_DEPTH,
            scale == power(3, i as nat),
        decreases depth - i,
    {
        proof {
            lemma_power_monotone(3, i as nat, 11);
            reveal_with_fuel(power, 12);
            assert(power(3, 11) == 177_147);
        }
        scale = scale * 3;
        i = i + 1;
    }
    proof {
        lemma_power_monotone(3, depth as nat, 12);
        reveal_with_fuel(power, 13);
        assert(power(3, 12) == 531_441);
    }
    let mut out: Vec<Disc> = Vec::new();
    proof {
        assert(discs_view(out@) =~= Seq::<(Q4, int)>::empty());
    }
    packing_into(&mut out, Octo { c0: 0, c1: 0, c2: 0, c3: 0 }, depth, scale);
    proof {
        assert(discs_view(out@) =~= circle_packing(depth as nat));
    }
    out
}

/// Every circle of a packing has a positive radius.
pub proof fn lemma_packing_radii(c: Q4, n: nat)
    ensures
        forall|j: int| 0 <= j < packing_from(c, n).len() ==> #[trigger] packing_from(c, n)[j].1 >= 1,
    decreases n, 10nat,
{
    if n > 0 {
        lemma_power_positive(3, n);
        lemma_children_prefix_radii(c, n, 9);
        let a = seq![(c, power(3, n))];
        let b = children_prefix(c, n, 9);
        assert forall|j: int| 0 <= j < (a + b).len() implies #[trigger] (a + b)[j].1 >= 1 by {
            if j >= 1 {
                assert((a + b)[j] == b[j - 1]);
            }
        }
    }
}

proof fn lemma_children_prefix_radii(c: Q4, n: nat, i: nat)
    requires
        n > 0,
    ensures
        forall|j: int|
            0 <= j < children_prefix(c, n, i).len() ==> #[trigger] children_prefix(c, n, i)[j].1 >= 1,
    decreases n, i,
{
    if i > 0 {
        let k = (i - 1) as nat;
        lemma_children_prefix_radii(c, n, k);
        lemma_packing_radii(child_center(c, n, k as int), (n - 1) as nat);
        let a = children_prefix(c, n, k);
        let b = packing_from(child_center(c, n, k as int), (n - 1) as nat);
        assert(children_prefix(c, n, i) == a + b);
        assert forall|j: int| 0 <= j < (a + b).len() implies #[trigger] (a + b)[j].1 >= 1 by {
            if j >= a.len() {
                assert((a + b)[j] == b[j - a.len()]);
            } else {
                assert((a + b)[j] == a[j]);
            }
        }
    }
}

/// `9^0 + 9^1 + ... + 9^(n-1)`.
pub open spec fn sum_pow9(n: nat) -> int
    decreases n,
{
    if n == 0 {
        0
    } else {
        sum_pow9((n - 1) as nat) + power(9, (n - 1) as nat)
    }
}

proof fn lemma_sum_pow9_step(n: nat)
    requires
        n >= 1,
    ensures
        sum_pow9(n) == 1 + 9 * sum_pow9((n - 1) as nat),
    decreases n,
{
    if n >= 2 {
        lemma_sum_pow9_step((n - 1) as nat);
        assert(power(9, (n - 1) as nat) == 9 * power(9, (n - 2) as nat));
    }
}

/// A packing of depth `n` holds `9^0 + ... + 9^(n-1)` circles, wherever it
/// is centered.
pub proof fn lemma_packing_from_len(c: Q4, n: nat)
    ensures
        packing_from(c, n).len() == sum_pow9(n),
    decreases n, 10nat,
{
    if n > 0 {
        lemma_children_prefix_len(c, n, 9);
        lemma_sum_pow9_step(n);
    }
}

proof fn lemma_children_prefix_len(c: Q4, n: nat, i: nat)
    requires
        n > 0,
    ensures
        children_prefix(c, n, i).len() == i * sum_pow9((n - 1) as nat),
    decreases n, i,
{
    if i > 0 {
        let j = (i - 1) as nat;
        let m = (n - 1) as nat;
        lemma_children_prefix_len(c, n, j);
        lemma_packing_from_len(child_center(c, n, j as int), m);
        let t = sum_pow9(m);
        assert(j * t + t == i * t) by (nonlinear_arith)
            requires
                i == j + 1,
        ;
        assert(children_prefix(c, n, i) == children_prefix(c, n, j) + packing_from(
            child_center(c, n, j as int),
            m,
        ));
    } else {
        let t = sum_pow9((n - 1) as nat);
        assert(0 * t == 0) by (nonlinear_arith);
    }
}

/// Count law: the packing of depth `n` has exactly `9^0 + ... + 9^(n-1)`
/// circles; at depth zero it has none.
pub proof fn law_packing_count(n: nat)
    ensures
        circle_packing(n).len() == sum_pow9(n),
        n == 0 ==> circle_packing(n).len() == 0,
{
    lemma_packing_from_len((0, 0, 0, 0), n);
}

/// Branching law: at every depth `n >= 1` the packing is the circle itself
/// followed by exactly nine packings of depth `n - 1`; the first eight are
/// centered at distance two thirds of the radius in the directions `z^i`
/// (the displacement is `d * z^i` with `3 * d == 2 * 3^n`), the ninth at
/// the same center.
pub proof fn law_packing_children(c: Q4, n: nat)
    requires
        n >= 1,
    ensures
        packing_from(c, n) == seq![(c, power(3, n))]
            + packing_from(child_center(c, n, 0), (n - 1) as nat)
            + packing_from(child_center(c, n, 1), (n - 1) as nat)
            + packing_from(child_center(c, n, 2), (n - 1) as nat)
            + packing_from(child_center(c, n, 3), (n - 1) as nat)
            + packing_from(child_center(c, n, 4), (n - 1) as nat)
            + packing_from(child_center(c, n, 5), (n - 1) as nat)
            + packing_from(child_center(c, n, 6), (n - 1) as nat)
            + packing_from(child_center(c, n, 7), (n - 1) as nat)
            + packing_from(child_center(c, n, 8), (n - 1) as nat),
        3 * child_offset(n) == 2 * power(3, n),
        forall|i: int|
            0 <= i < 8 ==> #[trigger] child_center(c, n, i) == root_step(c, i, child_offset(n)),
        child_center(c, n, 8) == c,
{
    let m = (n - 1) as nat;
    let q0 = packing_from(child_center(c, n, 0), m);
    let q1 = packing_from(child_center(c, n, 1), m);
    let q2 = packing_from(child_center(c, n, 2), m);
    let q3 = packing_from(child_center(c, n, 3), m);
    let q4 = packing_from(child_center(c, n, 4), m);
    let q5 = packing_from(child_center(c, n, 5), m);
    let q6 = packing_from(child_center(c, n, 6), m);
    let q7 = packing_from(child_center(c, n, 7), m);
    let q8 = packing_from(child_center(c, n, 8), m);
    assert(children_prefix(c, n, 0) == Seq::<(Q4, int)>::empty());
    assert(children_prefix(c, n, 1) =~= q0);
    assert(children_prefix(c, n, 2) == children_prefix(c, n, 1) + q1);
    assert(children_prefix(c, n, 3) == children_prefix(c, n, 2) + q2);
    assert(children_prefix(c, n, 4) == children_prefix(c, n, 3) + q3);
    assert(children_prefix(c, n, 5) == children_prefix(c, n, 4) + q4);
    assert(children_prefix(c, n, 6) == children_prefix(c, n, 5) + q5);
    assert(children_prefix(c, n, 7) == children_prefix(c, n, 6) + q6);
    assert(children_prefix(c, n, 8) == children_prefix(c, n, 7) + q7);
    assert(children_prefix(c, n, 9) == children_prefix(c, n, 8) + q8);
    assert(packing_from(c, n) =~= seq![(c, power(3, n))] + q0 + q1 + q2 + q3 + q4 + q5 + q6 + q7
        + q8);
}

/// Determinism law: two results of `circles` for the same depth are the
/// same circles in the same order.
pub proof fn law_packing_deterministic(depth: nat, a: Seq<Disc>, b: Seq<Disc>)
    requires
        discs_view(a) == circle_packing(depth),
        discs_view(b) == circle_packing(depth),
    ensures
        a == b,
{
    assert(a.len() == discs_view(a).len() && b.len() == discs_view(b).len());
    assert forall|i: int| 0 <= i < a.len() implies a[i] == b[i] by {
        assert(discs_view(a)[i] == discs_view(b)[i]);
    }
    assert(a =~= b);
}

} // verus!
