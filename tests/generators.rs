use fractal_geometry::dragon::curve;
use fractal_geometry::koch::snowflake;
use fractal_geometry::lattice::{Point, Segment, Tri};
use fractal_geometry::packing::{circles, Disc, Octo};
use fractal_geometry::pythagoras::tree;
use fractal_geometry::sierpinski::triangle;

fn seg(a: (i64, i64), b: (i64, i64)) -> Segment {
    Segment { start: Point::new(a.0, a.1), end: Point::new(b.0, b.1) }
}

fn tri(a: (i64, i64), b: (i64, i64), c: (i64, i64)) -> Tri {
    Tri { p1: Point::new(a.0, a.1), p2: Point::new(b.0, b.1), p3: Point::new(c.0, c.1) }
}

fn octo(c0: i64, c1: i64, c2: i64, c3: i64) -> Octo {
    Octo { c0, c1, c2, c3 }
}

#[test]
fn dragon_zero_iterations_is_the_segment() {
    assert_eq!(curve(0), vec![seg((0, 0), (1, 0))]);
}

#[test]
fn dragon_one_iteration_turns_right_first() {
    assert_eq!(curve(1), vec![seg((0, 0), (1, 1)), seg((1, 1), (2, 0))]);
}

#[test]
fn dragon_two_iterations() {
    assert_eq!(
        curve(2),
        vec![
            seg((0, 0), (0, 2)),
            seg((0, 2), (2, 2)),
            seg((2, 2), (2, 0)),
            seg((2, 0), (4, 0)),
        ]
    );
}

#[test]
fn dragon_count_doubles() {
    for n in 0..12u32 {
        assert_eq!(curve(n).len(), 1usize << n);
    }
}

#[test]
fn dragon_endpoints_are_kept() {
    for n in 0..12u32 {
        let c = curve(n);
        assert_eq!(c[0].start, Point::new(0, 0));
        assert_eq!(c[c.len() - 1].end, Point::new(1i64 << n, 0));
    }
}

#[test]
fn dragon_is_connected() {
    let c = curve(9);
    for w in c.windows(2) {
        assert_eq!(w[0].end, w[1].start);
    }
}

#[test]
fn koch_zero_iterations_is_the_triangle() {
    assert_eq!(
        snowflake(0),
        vec![seg((0, 0), (1, 0)), seg((1, 0), (0, 1)), seg((0, 1), (0, 0))]
    );
}

#[test]
fn koch_one_iteration_first_side() {
    let s = snowflake(1);
    assert_eq!(s.len(), 12);
    assert_eq!(
        s[0..4].to_vec(),
        vec![seg((0, 0), (1, 0)), seg((1, 0), (2, -1)), seg((2, -1), (2, 0)), seg((2, 0), (3, 0))]
    );
    assert_eq!(s[4].start, Point::new(3, 0));
    assert_eq!(s[8].start, Point::new(0, 3));
    assert_eq!(s[11].end, Point::new(0, 0));
}

#[test]
fn koch_bumps_point_outward() {
    // Cross product in Eisenstein coordinates has the sign of the Euclidean one.
    let cross = |p: (i64, i64), q: (i64, i64)| p.0 * q.1 - p.1 * q.0;
    let sub = |p: Point, q: Point| (p.x - q.x, p.y - q.y);
    for n in 1..5u32 {
        let s = snowflake(n);
        let side = s.len() / 3;
        let corners = [s[0].start, s[side].start, s[2 * side].start];
        for j in 0..3 {
            let (a, b, o) = (corners[j], corners[(j + 1) % 3], corners[(j + 2) % 3]);
            let apex = s[j * side + side / 2 - 1].end;
            let inside = cross(sub(b, a), sub(o, a));
            let tip = cross(sub(b, a), sub(apex, a));
            assert!(inside > 0);
            assert!(tip < 0);
        }
    }
}

#[test]
fn koch_count_is_three_times_powers_of_four() {
    for n in 0..7u32 {
        assert_eq!(snowflake(n).len(), 3 * 4usize.pow(n));
    }
}

#[test]
fn koch_seed_is_equilateral() {
    // Squared length of a + b*w is a^2 + ab + b^2.
    let norm = |p: Point, q: Point| {
        let (a, b) = (q.x - p.x, q.y - p.y);
        a * a + a * b + b * b
    };
    let s = snowflake(0);
    let (c1, c2, c3) = (s[0].start, s[1].start, s[2].start);
    assert_eq!(norm(c1, c2), 1);
    assert_eq!(norm(c2, c3), 1);
    assert_eq!(norm(c3, c1), 1);
    let s = snowflake(3);
    let side = s.len() / 3;
    let (c1, c2, c3) = (s[0].start, s[side].start, s[2 * side].start);
    assert_eq!(norm(c1, c2), 729);
    assert_eq!(norm(c2, c3), 729);
    assert_eq!(norm(c3, c1), 729);
}

#[test]
fn koch_is_closed_and_connected() {
    let s = snowflake(4);
    for w in s.windows(2) {
        assert_eq!(w[0].end, w[1].start);
    }
    assert_eq!(s[s.len() - 1].end, s[0].start);
}

#[test]
fn sierpinski_zero_iterations_is_one_triangle() {
    assert_eq!(triangle(0), vec![tri((0, 0), (1, 0), (0, 1))]);
}

#[test]
fn sierpinski_one_iteration() {
    assert_eq!(
        triangle(1),
        vec![
            tri((0, 0), (1, 0), (0, 1)),
            tri((1, 0), (2, 0), (1, 1)),
            tri((0, 1), (1, 1), (0, 2)),
        ]
    );
}

#[test]
fn sierpinski_count_is_powers_of_three() {
    for n in 0..9u32 {
        assert_eq!(triangle(n).len(), 3usize.pow(n));
    }
}

#[test]
fn pythagoras_zero_iterations_is_empty() {
    assert!(tree(0).is_empty());
}

#[test]
fn pythagoras_one_iteration_is_the_trunk() {
    assert_eq!(tree(1), vec![seg((0, 0), (1, 0))]);
}

#[test]
fn pythagoras_two_iterations() {
    assert_eq!(
        tree(2),
        vec![seg((0, 0), (2, 0)), seg((2, 0), (3, -1)), seg((2, 0), (3, 1))]
    );
}

#[test]
fn pythagoras_count() {
    for n in 0..14u32 {
        assert_eq!(tree(n).len(), (1usize << n) - 1);
    }
}

#[test]
fn packing_depth_zero_is_empty() {
    assert!(circles(0).is_empty());
}

#[test]
fn packing_depth_one_is_one_circle() {
    assert_eq!(circles(1), vec![Disc { center: octo(0, 0, 0, 0), radius: 3 }]);
}

#[test]
fn packing_depth_two_has_nine_children() {
    let c = circles(2);
    assert_eq!(
        c,
        vec![
            Disc { center: octo(0, 0, 0, 0), radius: 9 },
            Disc { center: octo(6, 0, 0, 0), radius: 3 },
            Disc { center: octo(0, 6, 0, 0), radius: 3 },
            Disc { center: octo(0, 0, 6, 0), radius: 3 },
            Disc { center: octo(0, 0, 0, 6), radius: 3 },
            Disc { center: octo(-6, 0, 0, 0), radius: 3 },
            Disc { center: octo(0, -6, 0, 0), radius: 3 },
            Disc { center: octo(0, 0, -6, 0), radius: 3 },
            Disc { center: octo(0, 0, 0, -6), radius: 3 },
            Disc { center: octo(0, 0, 0, 0), radius: 3 },
        ]
    );
}

#[test]
fn packing_outer_children_at_two_thirds_of_radius() {
    // z^i for i < 8 in the basis 1, z, z^2, z^3 (z^4 == -1).
    let c = circles(3);
    let parent = c[0];
    assert_eq!(parent.radius, 27);
    let mut at = 1;
    for i in 0..9 {
        let child = c[at];
        assert_eq!(child.radius, 9);
        let d = [
            child.center.c0 - parent.center.c0,
            child.center.c1 - parent.center.c1,
            child.center.c2 - parent.center.c2,
            child.center.c3 - parent.center.c3,
        ];
        let mut expected = [0i64; 4];
        if i < 8 {
            expected[i % 4] = if i < 4 { 18 } else { -18 };
        }
        assert_eq!(d, expected);
        assert_eq!(3 * 18, 2 * parent.radius);
        at += 10;
    }
    assert_eq!(at, c.len());
}

#[test]
fn packing_count_is_sum_of_powers_of_nine() {
    let mut expected = 0usize;
    for n in 0..6u32 {
        assert_eq!(circles(n).len(), expected);
        expected = expected * 9 + 1;
    }
}

#[test]
fn generators_are_deterministic() {
    assert_eq!(curve(7), curve(7));
    assert_eq!(snowflake(3), snowflake(3));
    assert_eq!(triangle(5), triangle(5));
    assert_eq!(tree(8), tree(8));
    assert_eq!(circles(3), circles(3));
}

#[test]
fn generators_complete_at_practical_caps() {
    assert_eq!(curve(16).len(), 65_536);
    assert_eq!(snowflake(8).len(), 196_608);
    assert_eq!(triangle(10).len(), 59_049);
    assert_eq!(tree(16).len(), 65_535);
    assert_eq!(circles(6).len(), 66_430);
}
