//! Pixel selection of the escape-time Julia set.
//!
//! Pixel `(x, y)` of a `width` by `height` grid stands for the complex
//! number `z0 = (4x / width - 2) + (4y / height - 2) i`. Its escape count is
//! the number of steps `z <- z^2 + c` taken, at most `max_iterations`, while
//! `|z| <= 2`. The arithmetic on complex numbers is the caller's; from the
//! counts, in row-major order, this module decides which pixels are drawn
//! and in which color: a pixel is drawn when it escaped before
//! `max_iterations`, with the hue `count / max_iterations`.
use vstd::prelude::*;
use vstd::arithmetic::div_mod::{lemma_fundamental_div_mod, lemma_fundamental_div_mod_converse};
use crate::lattice::{Point, Pt};
use crate::shapes::{transparent_black_spec, Bounds, Color, Quad, pixel};

verus! {

/// Largest width and height accepted by `generate`.
pub const MAX_SIDE: usize = 0x4000_0000;

/// A pixel is drawn when its escape count is below the iteration limit.
pub open spec fn escapes(count: u32, max_iterations: u32) -> bool {
    count < max_iterations
}

/// The color of a pixel that escaped after `count` steps: hue
/// `count / max_iterations` of the full circle, full saturation, half
/// lightness, opaque.
pub open spec fn escape_color(count: u32, max_iterations: u32) -> Color {
    Color { hue_num: count, hue_den: max_iterations, saturation: 100, lightness: 50, alpha: 100 }
}

/// The drawn pixels among the first `k` pixels in row-major order, with
/// their positions and escape counts.
pub open spec fn julia_pixels(width: nat, counts: Seq<u32>, max_iterations: u32, k: nat) -> Seq<(Pt, u32)>
    decreases k,
{
    if k == 0 {
        Seq::empty()
    } else {
        let j = (k - 1) as int;
        let prev = julia_pixels(width, counts, max_iterations, (k - 1) as nat);
        if escapes(counts[j], max_iterations) {
            prev.push(((j % width as int, j / width as int), counts[j]))
        } else {
            prev
        }
    }
}

/// The quad that draws a pixel at `pos` that escaped after `count` steps.
pub open spec fn pixel_quad(q: Quad<Point>, pos: Pt, count: u32, max_iterations: u32) -> bool {
    &&& q.bounds matches Bounds::FromTopLeft { origin, size } && origin@ == pos && size == 1
    &&& q.corner_radius == 0
    &&& q.background == escape_color(count, max_iterations)
    &&& q.border_width == 0
    &&& q.border_color == transparent_black_spec()
}

/// The unit pixels of the Julia set, given the escape count of every pixel
/// of the `width` by `height` grid in row-major order (`counts[y * width + x]`).
pub fn generate(width: usize, height: usize, counts: &Vec<u32>, max_iterations: u32) -> (r: Vec<
    Quad<Point>,
>)
    requires
        width <= MAX_SIDE,
        height <= MAX_SIDE,
        counts.len() == width * height,
    ensures
        r.len() == julia_pixels(width as nat, counts@, max_iterations, (width * height) as nat).len(),
        forall|i: int|
            0 <= i < r.len() ==> pixel_quad(
                #[trigger] r[i],
                julia_pixels(width as nat, counts@, max_iterations, (width * height) as nat)[i].0,
                julia_pixels(width as nat, counts@, max_iterations, (width * height) as nat)[i].1,
                max_iterations,
            ),
{
    let mut quads: Vec<Quad<Point>> = Vec::new();
    let mut y: usize = 0;
    while y < height
        invariant
            y <= height <= MAX_SIDE,
            width <= MAX_SIDE,
            counts.len() == width * height,
            quads.len() == julia_pixels(width as nat, counts@, max_iterations, (y * width) as nat).len(),
            forall|i: int|
                0 <= i < quads.len() ==> pixel_quad(
                    #[trigger] quads[i],
                    julia_pixels(width as nat, counts@, max_iterations, (y * width) as nat)[i].0,
                    julia_pixels(width as nat, counts@, max_iterations, (y * width) as nat)[i].1,
                    max_iterations,
                ),
        decreases height - y,
    {
        proof {
            assert(y * width + width <= width * height) by (nonlinear_arith)
                requires
                    y < height,
            ;
        }
        let mut x: usize = 0;
        while x < width
            invariant
                y < height <= MAX_SIDE,
                x <= width <= MAX_SIDE,
                counts.len() == width * height,
                y * width + width <= width * height,
                quads.len() == julia_pixels(width as nat, counts@, max_iterations, (y * width + x) as nat).len(),
                forall|i: int|
                    0 <= i < quads.len() ==> pixel_quad(
                        #[trigger] quads[i],
                        julia_pixels(width as nat, counts@, max_iterations, (y * width + x) as nat)[i].0,
                        julia_pixels(width as nat, counts@, max_iterations, (y * width + x) as nat)[i].1,
                        max_iterations,
                    ),
            decreases width - x,
        {
            let k = y * width + x;
            let count = counts[k];
            let ghost prev = julia_pixels(width as nat, counts@, max_iterations, k as nat);
            let ghost before = quads@;
            proof {
                assert(k as int == y as int * width as int + x as int);
                lemma_fundamental_div_mod_converse(k as int, width as int, y as int, x as int);
                assert(x as int == k as int % width as int);
                assert(counts@[k as int] == count);
                assert(k as int % width as int == x as int && k as int / width as int == y as int);
                let next = julia_pixels(width as nat, counts@, max_iterations, (k + 1) as nat);
                assert(next == if escapes(count, max_iterations) {
                    prev.push(((x as int, y as int), count))
                } else {
                    prev
                });
            }
            if count < max_iterations {
                let color = Color {
                    hue_num: count,
                    hue_den: max_iterations,
                    saturation: 100,
                    lightness: 50,
                    alpha: 100,
                };
                let p = pixel(Point { x: x as i64, y: y as i64 }).color(color);
                let q = p.quad();
                quads.push(q);
                proof {
                    assert(pixel_quad(q, (x as int, y as int), count, max_iterations));
                    assert(quads@ == before.push(q));
                }
            }
            proof {
                let next = julia_pixels(width as nat, counts@, max_iterations, (k + 1) as nat);
                assert(forall|i: int|
                    0 <= i < quads.len() ==> pixel_quad(
                        #[trigger] quads[i],
                        next[i].0,
                        next[i].1,
                        max_iterations,
                    )) by {
                    assert forall|i: int| 0 <= i < quads.len() implies pixel_quad(
                        #[trigger] quads[i],
                        next[i].0,
                        next[i].1,
                        max_iterations,
                    ) by {
                        if i < prev.len() {
                            assert(next[i] == prev[i]);
                            assert(quads[i] == before[i]);
                        }
                    }
                }
            }
            x = x + 1;
        }
        proof {
            assert((y + 1) * width == y * width + width) by (nonlinear_arith);
        }
        y = y + 1;
    }
    proof {
        assert(y * width == width * height) by (nonlinear_arith)
            requires
                y == height,
        ;
    }
    quads
}

/// Single-pixel law: on a one by one grid with an iteration limit of one,
/// at most one pixel is drawn, and it is drawn exactly when the point
/// escaped at once (its count is zero, that is `|z0| > 2`).
pub proof fn law_julia_single_pixel(counts: Seq<u32>)
    requires
        counts.len() == 1,
    ensures
        julia_pixels(1, counts, 1, 1).len() <= 1,
        julia_pixels(1, counts, 1, 1).len() == 1 <==> counts[0] == 0,
        julia_pixels(1, counts, 1, 1).len() == 1 ==> julia_pixels(1, counts, 1, 1)[0] == ((0int, 0int), 0u32),
{
    assert(julia_pixels(1, counts, 1, 0).len() == 0);
}

/// Determinism law: two results of `generate` for the same grid and the
/// same escape counts are the same quads in the same order.
pub proof fn law_julia_deterministic(
    width: nat,
    counts: Seq<u32>,
    max_iterations: u32,
    a: Seq<Quad<Point>>,
    b: Seq<Quad<Point>>,
)
    requires
        a.len() == julia_pixels(width, counts, max_iterations, counts.len()).len(),
        b.len() == julia_pixels(width, counts, max_iterations, counts.len()).len(),
        forall|i: int|
            0 <= i < a.len() ==> pixel_quad(
                #[trigger] a[i],
                julia_pixels(width, counts, max_iterations, counts.len())[i].0,
                julia_pixels(width, counts, max_iterations, counts.len())[i].1,
                max_iterations,
            ),
        forall|i: int|
            0 <= i < b.len() ==> pixel_quad(
                #[trigger] b[i],
                julia_pixels(width, counts, max_iterations, counts.len())[i].0,
                julia_pixels(width, counts, max_iterations, counts.len())[i].1,
                max_iterations,
            ),
    ensures
        a == b,
{
    assert forall|i: int| 0 <= i < a.len() implies a[i] == b[i] by {
        let px = julia_pixels(width, counts, max_iterations, counts.len())[i];
        assert(pixel_quad(a[i], px.0, px.1, max_iterations));
        assert(pixel_quad(b[i], px.0, px.1, max_iterations));
    }
    assert(a =~= b);
}

/// Among the first `k` pixels, the pixel of index `target` is listed, with
/// its own count, exactly when it is one of them and escaped.
proof fn lemma_julia_pixels_contains(
    width: nat,
    counts: Seq<u32>,
    max_iterations: u32,
    k: nat,
    target: int,
)
    requires
        width > 0,
        k <= counts.len(),
        0 <= target < counts.len(),
    ensures
        julia_pixels(width, counts, max_iterations, k).contains(
            ((target % width as int, target / width as int), counts[target]),
        ) <==> (target < k && escapes(counts[target], max_iterations)),
    decreases k,
{
    let e = ((target % width as int, target / width as int), counts[target]);
    if k > 0 {
        let j = (k - 1) as int;
        let prev = julia_pixels(width, counts, max_iterations, (k - 1) as nat);
        let ej = ((j % width as int, j / width as int), counts[j]);
        lemma_julia_pixels_contains(width, counts, max_iterations, (k - 1) as nat, target);
        lemma_fundamental_div_mod(j, width as int);
        lemma_fundamental_div_mod(target, width as int);
        assert(ej.0 == e.0 ==> j == target);
        if escapes(counts[j], max_iterations) {
            let all = prev.push(ej);
            if all.contains(e) {
                let w = choose|w: int| 0 <= w < all.len() && all[w] == e;
                if w < prev.len() {
                    assert(prev[w] == e);
                }
            }
            if prev.contains(e) {
                let w = choose|w: int| 0 <= w < prev.len() && prev[w] == e;
                assert(all[w] == e);
            }
            if target == j {
                assert(all[prev.len() as int] == e);
            }
        }
    }
}

/// Selection law: on a grid of positive width, the pixel at `(x, y)` is
/// drawn, with the escape count of that pixel, exactly when that count is
/// below the iteration limit.
pub proof fn law_julia_selection(width: nat, counts: Seq<u32>, max_iterations: u32, x: int, y: int)
    requires
        width > 0,
        0 <= x < width,
        0 <= y,
        y * width + x < counts.len(),
    ensures
        julia_pixels(width, counts, max_iterations, counts.len()).contains(
            ((x, y), counts[y * width + x]),
        ) <==> counts[y * width + x] < max_iterations,
{
    let k = y * width + x;
    let w = width as int;
    assert(0 <= y * w + x) by (nonlinear_arith)
        requires
            0 <= y,
            0 <= x,
            w > 0,
    ;
    lemma_fundamental_div_mod_converse(k, width as int, y, x);
    lemma_julia_pixels_contains(width, counts, max_iterations, counts.len(), k);
}

} // verus!
