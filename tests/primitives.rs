use fractal_geometry::animation::{is_commit_epoch, step_epoch, EpochAction, EpochStep};
use fractal_geometry::julia::generate;
use fractal_geometry::lattice::{Point, Segment, Tri};
use fractal_geometry::output::{
    carpet, segment_paths, single_path, single_triangle_path, triangle_paths,
};
use fractal_geometry::packing::Octo;
use fractal_geometry::shapes;
use fractal_geometry::shapes::{
    circle, pixel, transparent_black, triangle, white, Bounds, Color, PathBuilder,
    PathCommand, Quad, Stroke,
};

fn pt(x: i64, y: i64) -> Point {
    Point::new(x, y)
}

fn red() -> Color {
    Color { hue_num: 0, hue_den: 1, saturation: 100, lightness: 50, alpha: 100 }
}

#[test]
fn stroke_from_color_has_width_one() {
    let s: Stroke = red().into();
    assert_eq!(s, Stroke { width: 1, color: red() });
}

#[test]
fn circle_defaults_and_quad() {
    let c = circle(5, pt(10, 20));
    assert_eq!(c.size, 10);
    assert_eq!(c.stroke, Stroke { width: 1, color: white() });
    assert_eq!(c.fill, transparent_black());
    assert_eq!(
        c.quad(),
        Quad {
            bounds: Bounds::Centered { center: pt(10, 20), size: 10 },
            corner_radius: 5,
            background: transparent_black(),
            border_width: 1,
            border_color: white(),
        }
    );
}

#[test]
fn circle_setters() {
    let c = circle(2, pt(0, 0)).stroke_width(3).stroke_color(red()).fill(white());
    assert_eq!(c.stroke, Stroke { width: 3, color: red() });
    assert_eq!(c.fill, white());
    let q = c.no_stroke().quad();
    assert_eq!(q.border_width, 0);
    assert_eq!(q.border_color, transparent_black());
    assert_eq!(q.background, white());
}

#[test]
fn pixel_quad_is_a_unit_square() {
    let p = pixel(pt(3, 4)).color(red());
    assert_eq!(
        p.quad(),
        Quad {
            bounds: Bounds::FromTopLeft { origin: pt(3, 4), size: 1 },
            corner_radius: 0,
            background: red(),
            border_width: 0,
            border_color: transparent_black(),
        }
    );
    assert_eq!(pixel(pt(0, 0)).color, white());
}

#[test]
fn line_paints_one_segment() {
    let (path, color) = shapes::line(pt(1, 2), pt(3, 4)).stroke_width(2).stroke_color(red()).paint();
    assert_eq!(
        path.commands().clone(),
        vec![PathCommand::MoveTo(pt(1, 2)), PathCommand::LineTo(pt(3, 4))]
    );
    assert_eq!(path.width(), 2);
    assert_eq!(color, red());
}

#[test]
fn triangle_paints_a_closed_outline() {
    let t = triangle(pt(0, 0), pt(1, 0), pt(0, 1)).stroke_width(4).stroke_color(red());
    let (path, color) = t.paint();
    assert_eq!(
        path.commands().clone(),
        vec![
            PathCommand::MoveTo(pt(0, 0)),
            PathCommand::LineTo(pt(1, 0)),
            PathCommand::LineTo(pt(0, 1)),
            PathCommand::LineTo(pt(0, 0)),
        ]
    );
    assert_eq!(path.width(), 4);
    assert_eq!(color, red());
}

#[test]
fn empty_builder_fails_to_build() {
    let b: PathBuilder<Point> = PathBuilder::new(1);
    assert!(b.build().is_none());
}

#[test]
fn builder_keeps_commands_in_order() {
    let mut b = PathBuilder::new(3);
    b.move_to(pt(0, 0));
    b.line_to(pt(5, 0));
    b.line_to(pt(5, 5));
    b.close();
    let p = b.build().unwrap();
    assert_eq!(
        p.commands().clone(),
        vec![
            PathCommand::MoveTo(pt(0, 0)),
            PathCommand::LineTo(pt(5, 0)),
            PathCommand::LineTo(pt(5, 5)),
            PathCommand::Close,
        ]
    );
    assert_eq!(p.width(), 3);
}

#[test]
fn segments_as_colored_paths_and_as_one_path_agree() {
    let segs = vec![
        Segment { start: pt(0, 0), end: pt(1, 1) },
        Segment { start: pt(1, 1), end: pt(2, 0) },
    ];
    let each = segment_paths(&segs);
    assert_eq!(each.len(), 2);
    let one = single_path(&segs, 1).unwrap();
    let mut joined = Vec::new();
    for (p, c) in each.iter() {
        assert_eq!(*c, white());
        assert_eq!(p.width(), 1);
        joined.extend(p.commands().iter().copied());
    }
    assert_eq!(one.commands().clone(), joined);
    assert!(single_path(&Vec::new(), 1).is_none());
}

#[test]
fn triangles_as_colored_paths() {
    let tris = vec![Tri { p1: pt(0, 0), p2: pt(1, 0), p3: pt(0, 1) }];
    let paths = triangle_paths(&tris);
    assert_eq!(paths.len(), 1);
    assert_eq!(paths[0].0.commands().len(), 4);
    assert_eq!(paths[0].0.commands()[3], PathCommand::LineTo(pt(0, 0)));
}

#[test]
fn triangles_on_one_shared_path() {
    assert!(single_triangle_path(&Vec::new(), 1).is_none());
    let tris = vec![
        Tri { p1: pt(0, 0), p2: pt(1, 0), p3: pt(0, 1) },
        Tri { p1: pt(1, 0), p2: pt(2, 0), p3: pt(1, 1) },
    ];
    let p = single_triangle_path(&tris, 2).unwrap();
    assert_eq!(p.width(), 2);
    assert_eq!(
        p.commands().clone(),
        vec![
            PathCommand::MoveTo(pt(0, 0)),
            PathCommand::LineTo(pt(1, 0)),
            PathCommand::LineTo(pt(0, 1)),
            PathCommand::Close,
            PathCommand::MoveTo(pt(1, 0)),
            PathCommand::LineTo(pt(2, 0)),
            PathCommand::LineTo(pt(1, 1)),
            PathCommand::Close,
        ]
    );
}

#[test]
fn carpet_quads_follow_the_circles() {
    assert!(carpet(0).is_empty());
    let q = carpet(2);
    assert_eq!(q.len(), 10);
    assert_eq!(
        q[0],
        Quad {
            bounds: Bounds::Centered { center: Octo { c0: 0, c1: 0, c2: 0, c3: 0 }, size: 18 },
            corner_radius: 9,
            background: transparent_black(),
            border_width: 1,
            border_color: white(),
        }
    );
    assert_eq!(
        q[1].bounds,
        Bounds::Centered { center: Octo { c0: 6, c1: 0, c2: 0, c3: 0 }, size: 6 }
    );
}

#[test]
fn julia_single_pixel_escaping_at_once_is_drawn() {
    let q = generate(1, 1, &vec![0], 1);
    assert_eq!(q.len(), 1);
    assert_eq!(q[0].bounds, Bounds::FromTopLeft { origin: pt(0, 0), size: 1 });
    assert_eq!(
        q[0].background,
        Color { hue_num: 0, hue_den: 1, saturation: 100, lightness: 50, alpha: 100 }
    );
}

#[test]
fn julia_single_pixel_that_stays_is_not_drawn() {
    assert!(generate(1, 1, &vec![1], 1).is_empty());
}

#[test]
fn julia_grid_row_major() {
    // counts[y * width + x]
    let q = generate(2, 2, &vec![0, 3, 1, 2], 3);
    assert_eq!(q.len(), 3);
    assert_eq!(q[0].bounds, Bounds::FromTopLeft { origin: pt(0, 0), size: 1 });
    assert_eq!(q[1].bounds, Bounds::FromTopLeft { origin: pt(0, 1), size: 1 });
    assert_eq!(q[2].bounds, Bounds::FromTopLeft { origin: pt(1, 1), size: 1 });
    assert_eq!(q[2].background.hue_num, 2);
    assert_eq!(q[2].background.hue_den, 3);
    assert!(generate(0, 0, &Vec::new(), 5).is_empty());
}

#[test]
fn epoch_steps_forward_and_commits_every_eighth() {
    assert_eq!(step_epoch(0), EpochStep { epoch: 1, action: EpochAction::Discard });
    assert_eq!(step_epoch(7), EpochStep { epoch: 8, action: EpochAction::Commit });
    assert_eq!(step_epoch(510), EpochStep { epoch: 511, action: EpochAction::Discard });
    assert!(is_commit_epoch(16));
    assert!(!is_commit_epoch(17));
}

#[test]
fn epoch_stops_at_the_last() {
    assert_eq!(step_epoch(511), EpochStep { epoch: 511, action: EpochAction::Stop });
}

#[test]
fn epoch_runs_backward_on_odd_cycles() {
    assert_eq!(step_epoch(512), EpochStep { epoch: 511, action: EpochAction::Discard });
    assert_eq!(step_epoch(1024 + 9), EpochStep { epoch: 10, action: EpochAction::Discard });
    assert_eq!(step_epoch(1), EpochStep { epoch: 2, action: EpochAction::Discard });
}

#[test]
fn epoch_clears_when_a_cycle_wraps() {
    assert_eq!(step_epoch(513), EpochStep { epoch: 0, action: EpochAction::Clear });
}
