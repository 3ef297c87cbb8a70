//! Conversion of generated geometry to drawable primitives.
//!
//! Segments and triangles become independently colored paths, one per
//! piece, or one shared path; circles become quads. Conversion changes the
//! representation only: the points are the generator's, in order.
use vstd::prelude::*;
use crate::lattice::{Point, Segment, Tri};
use crate::packing::{
    circle_packing, circles, discs_view, lemma_packing_radii, packing_from, Disc, Octo, Q4,
    PACKING_MAX_DEPTH,
};
use crate::shapes::{
    circle, line, transparent_black_spec, triangle, white_spec, Bounds, Color, Path, PathBuilder,
    PathCommand, Quad,
};

verus! {

/// The commands that draw one segment.
pub open spec fn segment_commands(g: Segment) -> Seq<PathCommand<Point>> {
    seq![PathCommand::MoveTo(g.start), PathCommand::LineTo(g.end)]
}

/// The commands that draw a triangle outline, closed back to its first
/// corner.
pub open spec fn triangle_commands(t: Tri) -> Seq<PathCommand<Point>> {
    seq![
        PathCommand::MoveTo(t.p1),
        PathCommand::LineTo(t.p2),
        PathCommand::LineTo(t.p3),
        PathCommand::LineTo(t.p1),
    ]
}

/// The commands of all segments, one after the other.
pub open spec fn joined_commands(segs: Seq<Segment>) -> Seq<PathCommand<Point>>
    decreases segs.len(),
{
    if segs.len() == 0 {
        Seq::empty()
    } else {
        joined_commands(segs.drop_last()) + segment_commands(segs.last())
    }
}

/// Output-mode law: the shared path traces exactly the pieces that the
/// per-segment paths trace, in the same order: commands `2i` and `2i + 1`
/// of the shared path are the two commands of segment `i`.
pub proof fn law_output_modes_agree(segs: Seq<Segment>)
    ensures
        joined_commands(segs).len() == 2 * segs.len(),
        forall|i: int|
            0 <= i < segs.len() ==> joined_commands(segs).subrange(2 * i, 2 * i + 2)
                == segment_commands(#[trigger] segs[i]),
    decreases segs.len(),
{
    if segs.len() > 0 {
        let init = segs.drop_last();
        law_output_modes_agree(init);
        let all = joined_commands(segs);
        assert forall|i: int| 0 <= i < segs.len() implies all.subrange(2 * i, 2 * i + 2)
            == segment_commands(#[trigger] segs[i]) by {
            if i < init.len() {
                assert(init[i] == segs[i]);
                assert(all.subrange(2 * i, 2 * i + 2) =~= joined_commands(init).subrange(
                    2 * i,
                    2 * i + 2,
                ));
            } else {
                assert(all.subrange(2 * i, 2 * i + 2) =~= segment_commands(segs.last()));
            }
        }
    }
}

/// Each segment as a white path of width one.
pub fn segment_paths(segs: &Vec<Segment>) -> (r: Vec<(Path<Point>, Color)>)
    ensures
        r.len() == segs.len(),
        forall|i: int|
            0 <= i < r.len() ==> (#[trigger] r[i]).0@ == (segment_commands(segs[i]), 1u32) && r[i].1
                == white_spec(),
{
    let mut out: Vec<(Path<Point>, Color)> = Vec::new();
    let mut i: usize = 0;
    while i < segs.len()
        invariant
            i <= segs.len(),
            out.len() == i,
            forall|j: int|
                0 <= j < i ==> (#[trigger] out[j]).0@ == (segment_commands(segs[j]), 1u32)
                    && out[j].1 == white_spec(),
        decreases segs.len() - i,
    {
        let g = segs[i];
        out.push(line(g.start, g.end).paint());
        i = i + 1;
    }
    out
}

/// Each triangle as a closed white outline of width one.
pub fn triangle_paths(tris: &Vec<Tri>) -> (r: Vec<(Path<Point>, Color)>)
    ensures
        r.len() == tris.len(),
        forall|i: int|
            0 <= i < r.len() ==> (#[trigger] r[i]).0@ == (triangle_commands(tris[i]), 1u32) && r[i].1
                == white_spec(),
{
    let mut out: Vec<(Path<Point>, Color)> = Vec::new();
    let mut i: usize = 0;
    while i < tris.len()
        invariant
            i <= tris.len(),
            out.len() == i,
            forall|j: int|
                0 <= j < i ==> (#[trigger] out[j]).0@ == (triangle_commands(tris[j]), 1u32)
                    && out[j].1 == white_spec(),
        decreases tris.len() - i,
    {
        let t = tris[i];
        out.push(triangle(t.p1, t.p2, t.p3).paint());
        i = i + 1;
    }
    out
}

/// All segments traced on one path of the given width; `None` when there
/// is no segment.
pub fn single_path(segs: &Vec<Segment>, width: u32) -> (r: Option<Path<Point>>)
    ensures
        r is None <==> segs.len() == 0,
        r matches Some(p) ==> p@ == (joined_commands(segs@), width),
{
    let mut b: PathBuilder<Point> = PathBuilder::new(width);
    let mut i: usize = 0;
    while i < segs.len()
        invariant
            i <= segs.len(),
            b@ == (joined_commands(segs@.take(i as int)), width),
            b@.0.len() == 2 * i,
        decreases segs.len() - i,
    {
        let g = segs[i];
        b.move_to(g.start);
        b.line_to(g.end);
        proof {
            let t = segs@.take((i + 1) as int);
            assert(t.drop_last() =~= segs@.take(i as int));
            assert(t.last() == g);
            assert(b@.0 =~= joined_commands(t));
        }
        i = i + 1;
    }
    proof {
        assert(segs@.take(segs.len() as int) =~= segs@);
    }
    b.build()
}

/// The commands that trace one triangle on a shared path: to the first
/// corner, along to the second and third, and closed back to the first.
pub open spec fn closed_triangle_commands(t: Tri) -> Seq<PathCommand<Point>> {
    seq![
        PathCommand::MoveTo(t.p1),
        PathCommand::LineTo(t.p2),
        PathCommand::LineTo(t.p3),
        PathCommand::Close,
    ]
}

/// The commands of all triangles, one after the other.
pub open spec fn joined_triangle_commands(tris: Seq<Tri>) -> Seq<PathCommand<Point>>
    decreases tris.len(),
{
    if tris.len() == 0 {
        Seq::empty()
    } else {
        joined_triangle_commands(tris.drop_last()) + closed_triangle_commands(tris.last())
    }
}

/// All triangles traced on one path of the given width; `None` when there
/// is no triangle.
pub fn single_triangle_path(tris: &Vec<Tri>, width: u32) -> (r: Option<Path<Point>>)
    ensures
        r is None <==> tris.len() == 0,
        r matches Some(p) ==> p@ == (joined_triangle_commands(tris@), width),
{
    let mut b: PathBuilder<Point> = PathBuilder::new(width);
    let mut i: usize = 0;
    while i < tris.len()
        invariant
            i <= tris.len(),
            b@ == (joined_triangle_commands(tris@.take(i as int)), width),
            b@.0.len() == 4 * i,
        decreases tris.len() - i,
    {
        let t = tris[i];
        b.move_to(t.p1);
        b.line_to(t.p2);
        b.line_to(t.p3);
        b.close();
        proof {
            let pre = tris@.take((i + 1) as int);
            assert(pre.drop_last() =~= tris@.take(i as int));
            assert(pre.last() == t);
            assert(b@.0 =~= joined_triangle_commands(pre));
        }
        i = i + 1;
    }
    proof {
        assert(tris@.take(tris.len() as int) =~= tris@);
    }
    b.build()
}

/// The quad that draws a circle of the packing with the default outline.
pub open spec fn disc_quad(q: Quad<Octo>, d: (Q4, int)) -> bool {
    &&& q.bounds matches Bounds::Centered { center, size } && center@ == d.0 && size == 2 * d.1
    &&& q.corner_radius == d.1
    &&& q.background == transparent_black_spec()
    &&& q.border_width == 1
    &&& q.border_color == white_spec()
}

/// The circles of the packing of depth `depth` (see `circles`) as quads:
/// white outline of width one, transparent fill.
pub fn carpet(depth: u32) -> (r: Vec<Quad<Octo>>)
    requires
        depth <= PACKING_MAX_DEPTH,
    ensures
        r.len() == circle_packing(depth as nat).len(),
        forall|i: int| 0 <= i < r.len() ==> disc_quad(#[trigger] r[i], circle_packing(depth as nat)[i]),
{
    let discs = circles(depth);
    let ghost model = circle_packing(depth as nat);
    proof {
        lemma_packing_radii((0, 0, 0, 0), depth as nat);
        assert forall|j: int| 0 <= j < discs.len() implies (#[trigger] discs[j])@ == model[j] by {
            assert(discs_view(discs@)[j] == discs@[j]@);
        }
        assert forall|j: int| 0 <= j < discs.len() implies (#[trigger] discs[j]).radius >= 1 by {
            assert(discs_view(discs@)[j] == discs@[j]@);
            assert(model == packing_from((0, 0, 0, 0), depth as nat));
            assert(packing_from((0, 0, 0, 0), depth as nat)[j].1 >= 1);
        }
    }
    let mut out: Vec<Quad<Octo>> = Vec::new();
    let mut i: usize = 0;
    while i < discs.len()
        invariant
            i <= discs.len(),
            discs.len() == model.len(),
            forall|j: int| 0 <= j < discs.len() ==> (#[trigger] discs[j])@ == model[j],
            forall|j: int| 0 <= j < discs.len() ==> (#[trigger] discs[j]).radius >= 1,
            out.len() == i,
            forall|j: int| 0 <= j < i ==> disc_quad(#[trigger] out[j], model[j]),
        decreases discs.len() - i,
    {
        let d: Disc = discs[i];
        let q = circle(d.radius as u64, d.center).quad();
        proof {
            assert(d@ == model[i as int]);
            assert(disc_quad(q, model[i as int]));
        }
        out.push(q);
        i = i + 1;
    }
    out
}

/// Determinism law: two results of `carpet` for the same depth are the
/// same quads in the same order.
pub proof fn law_carpet_deterministic(depth: nat, a: Seq<Quad<Octo>>, b: Seq<Quad<Octo>>)
    requires
        a.len() == circle_packing(depth).len(),
        b.len() == circle_packing(depth).len(),
        forall|i: int| 0 <= i < a.len() ==> disc_quad(#[trigger] a[i], circle_packing(depth)[i]),
        forall|i: int| 0 <= i < b.len() ==> disc_quad(#[trigger] b[i], circle_packing(depth)[i]),
    ensures
        a == b,
{
    assert forall|i: int| 0 <= i < a.len() implies a[i] == b[i] by {
        assert(disc_quad(a[i], circle_packing(depth)[i]));
        assert(disc_quad(b[i], circle_packing(depth)[i]));
    }
    assert(a =~= b);
}

} // verus!
