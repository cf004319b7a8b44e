use vstd::prelude::*;
use crate::geometry::{Mat4, Vertex};
use crate::raster::{
    ScreenTriangle,
    Tile,
    area,
    SUB,
    VIEWPORT_LIMIT,
    lemma_index_of,
    lemma_px_py,
    project_triangle,
    screen_triangle,
};
use crate::utilities::{COORD_LIMIT, argb, edge_function, to_argb};
use rand::rngs::StdRng;
use rand::{Rng, SeedableRng};

verus! {

/// Largest magnitude of a line end point, in pixels.
pub const LINE_LIMIT: i64 = 0x200_0000;

/// Number of steps of the line from `(x0, y0)` to `(x1, y1)`: the larger of
/// its horizontal and vertical extent.
pub open spec fn line_steps(x0: int, y0: int, x1: int, y1: int) -> int {
    let dx = if x1 >= x0 { x1 - x0 } else { x0 - x1 };
    let dy = if y1 >= y0 { y1 - y0 } else { y0 - y1 };
    if dx >= dy { dx } else { dy }
}

/// `a / n` rounded to the nearest integer, halves rounded up.
pub open spec fn round_div(a: int, n: int) -> int {
    (2 * a + n) / (2 * n)
}

/// The `j`-th pixel of the line: one pixel per step along the longer axis.
pub open spec fn line_point(x0: int, y0: int, x1: int, y1: int, j: int) -> (int, int) {
    let n = line_steps(x0, y0, x1, y1);
    if n == 0 {
        (x0, y0)
    } else {
        (x0 + round_div(j * (x1 - x0), n), y0 + round_div(j * (y1 - y0), n))
    }
}

/// Pixel `(x, y)` is one of the first `k` pixels of the line.
pub open spec fn on_line_upto(x0: int, y0: int, x1: int, y1: int, k: int, x: int, y: int) -> bool {
    exists|j: int| 0 <= j < k && #[trigger] line_point(x0, y0, x1, y1, j) == (x, y)
}

/// Pixel `(x, y)` lies on the line from `(x0, y0)` to `(x1, y1)`, both ends
/// included.
pub open spec fn on_line(x0: int, y0: int, x1: int, y1: int, x: int, y: int) -> bool {
    on_line_upto(x0, y0, x1, y1, line_steps(x0, y0, x1, y1) + 1, x, y)
}

/// A buffer over `region` after painting the line in `color`: the on-screen
/// pixels of the line change, no other.
pub open spec fn paint_line(
    width: int,
    height: int,
    region: Tile,
    color: u32,
    x0: int,
    y0: int,
    x1: int,
    y1: int,
    c: Seq<u32>,
) -> Seq<u32> {
    Seq::new(
        c.len(),
        |i: int|
            if region.px(i) < width && region.py(i) < height && on_line(
                x0,
                y0,
                x1,
                y1,
                region.px(i),
                region.py(i),
            ) {
                color
            } else {
                c[i]
            },
    )
}

fn abs_diff(a: i64, b: i64) -> (r: i64)
    requires
        -LINE_LIMIT <= a <= LINE_LIMIT,
        -LINE_LIMIT <= b <= LINE_LIMIT,
    ensures
        r == if b >= a { b - a } else { a - b },
{
    if b >= a {
        b - a
    } else {
        a - b
    }
}

/// Draws a one-pixel line in `color` between two pixels, into a buffer
/// covering `region`; pixels off the screen or outside `region` are skipped.
pub fn draw_line(
    buffer: &mut Vec<u32>,
    width: usize,
    height: usize,
    region: Tile,
    color: u32,
    x0: i64,
    y0: i64,
    x1: i64,
    y1: i64,
)
    requires
        old(buffer)@.len() == region.len(),
        region.wf(),
        region.max_x <= 0x8000,
        region.max_y <= 0x8000,
        width <= VIEWPORT_LIMIT,
        height <= VIEWPORT_LIMIT,
        -LINE_LIMIT <= x0 <= LINE_LIMIT,
        -LINE_LIMIT <= y0 <= LINE_LIMIT,
        -LINE_LIMIT <= x1 <= LINE_LIMIT,
        -LINE_LIMIT <= y1 <= LINE_LIMIT,
    ensures
        final(buffer)@ == paint_line(
            width as int,
            height as int,
            region,
            color,
            x0 as int,
            y0 as int,
            x1 as int,
            y1 as int,
            old(buffer)@,
        ),
{
    let ghost c0 = buffer@;
    let ghost (gx0, gy0, gx1, gy1) = (x0 as int, y0 as int, x1 as int, y1 as int);
    let dx = abs_diff(x0, x1);
    let dy = abs_diff(y0, y1);
    let n: i64 = if dx >= dy { dx } else { dy };
    let rw = region.max_x - region.min_x;
    let blen = buffer.len();
    let mut j: i64 = 0;
    while j <= n
        invariant
            0 <= j <= n + 1,
            n == line_steps(gx0, gy0, gx1, gy1),
            0 <= n <= 2 * LINE_LIMIT,
            gx0 == x0 && gy0 == y0 && gx1 == x1 && gy1 == y1,
            -LINE_LIMIT <= x0 <= LINE_LIMIT,
            -LINE_LIMIT <= y0 <= LINE_LIMIT,
            -LINE_LIMIT <= x1 <= LINE_LIMIT,
            -LINE_LIMIT <= y1 <= LINE_LIMIT,
            region.wf(),
            region.max_x <= 0x8000,
            region.max_y <= 0x8000,
            width <= VIEWPORT_LIMIT,
            height <= VIEWPORT_LIMIT,
            rw == region.width(),
            blen == region.len(),
            buffer@.len() == region.len(),
            c0.len() == region.len(),
            forall|i: int|
                0 <= i < region.len() ==> #[trigger] buffer@[i] == if region.px(i) < width && region.py(i) < height
                    && on_line_upto(gx0, gy0, gx1, gy1, j as int, region.px(i), region.py(i)) {
                    color
                } else {
                    c0[i]
                },
        decreases n + 1 - j,
    {
        let (px, py) = if n == 0 {
            (x0, y0)
        } else {
            assert(-0x10_0000_0000_0000 <= j * (x1 - x0) <= 0x10_0000_0000_0000) by (nonlinear_arith)
                requires
                    0 <= j <= 0x400_0000,
                    -0x400_0000 <= x1 - x0 <= 0x400_0000,
            ;
            assert(-0x10_0000_0000_0000 <= j * (y1 - y0) <= 0x10_0000_0000_0000) by (nonlinear_arith)
                requires
                    0 <= j <= 0x400_0000,
                    -0x400_0000 <= y1 - y0 <= 0x400_0000,
            ;
            let ax = 2 * (j * (x1 - x0)) + n;
            let ay = 2 * (j * (y1 - y0)) + n;
            let qx = match ax.checked_div_euclid(2 * n) {
                Some(q) => q,
                None => 0,
            };
            let qy = match ay.checked_div_euclid(2 * n) {
                Some(q) => q,
                None => 0,
            };
            proof {
                crate::raster::lemma_div_abs_bound(ax as int, 2 * n as int, 0x30_0000_0000_0000);
                crate::raster::lemma_div_abs_bound(ay as int, 2 * n as int, 0x30_0000_0000_0000);
            }
            (x0 + qx, y0 + qy)
        };
        let ghost k = j as int;
        assert((px as int, py as int) == line_point(gx0, gy0, gx1, gy1, k));
        if px >= region.min_x as i64 && px < region.max_x as i64 && px < width as i64 && py >= region.min_y as i64 && py
            < region.max_y as i64 && py < height as i64 {
            let x = px as usize;
            let y = py as usize;
            proof {
                lemma_index_of(region, x as int, y as int);
                assert((y - region.min_y) * rw <= region.index_of(x as int, y as int));
            }
            let idx = (x - region.min_x) + (y - region.min_y) * rw;
            buffer.set(idx, color);
            proof {
                assert forall|i: int|
                    0 <= i < region.len() implies #[trigger] buffer@[i] == if region.px(i) < width && region.py(i)
                        < height && on_line_upto(gx0, gy0, gx1, gy1, k + 1, region.px(i), region.py(i)) {
                        color
                    } else {
                        c0[i]
                    } by {
                    lemma_px_py(region, i);
                    if i == idx {
                        assert(line_point(gx0, gy0, gx1, gy1, k) == (region.px(i), region.py(i)));
                    } else if on_line_upto(gx0, gy0, gx1, gy1, k + 1, region.px(i), region.py(i)) {
                        let jj = choose|jj: int| 0 <= jj < k + 1 && #[trigger] line_point(gx0, gy0, gx1, gy1, jj) == (region.px(i), region.py(i));
                        if jj == k {
                            assert(i == idx);
                        }
                        assert(on_line_upto(gx0, gy0, gx1, gy1, k, region.px(i), region.py(i)));
                    }
                }
            }
        } else {
            proof {
                assert forall|i: int|
                    0 <= i < region.len() implies #[trigger] buffer@[i] == if region.px(i) < width && region.py(i)
                        < height && on_line_upto(gx0, gy0, gx1, gy1, k + 1, region.px(i), region.py(i)) {
                        color
                    } else {
                        c0[i]
                    } by {
                    lemma_px_py(region, i);
                    if on_line_upto(gx0, gy0, gx1, gy1, k + 1, region.px(i), region.py(i)) {
                        let jj = choose|jj: int| 0 <= jj < k + 1 && #[trigger] line_point(gx0, gy0, gx1, gy1, jj) == (region.px(i), region.py(i));
                        if jj == k {
                            if region.px(i) < width && region.py(i) < height {
                                assert(false);
                            }
                        } else {
                            assert(on_line_upto(gx0, gy0, gx1, gy1, k, region.px(i), region.py(i)));
                        }
                    }
                }
            }
        }
        j += 1;
    }
    assert(buffer@ =~= paint_line(width as int, height as int, region, color, gx0, gy0, gx1, gy1, c0));
}

/// The pixel holding a sub-pixel coordinate.
pub open spec fn pixel_of(c: int) -> int {
    c / (SUB as int)
}

/// A buffer over `region` after drawing the outline of `st` in `color`: the
/// edges from corner 0 to 1, from 0 to 2 and from 2 to 1. Back-facing and
/// degenerate triangles are culled and leave the buffer unchanged.
pub open spec fn wire_colors(
    st: Option<ScreenTriangle>,
    width: int,
    height: int,
    region: Tile,
    color: u32,
    c: Seq<u32>,
) -> Seq<u32> {
    match st {
        Some(t) => if area(t) <= 0 {
            c
        } else {
            let (x0, y0) = (pixel_of(t.v0.pos.x as int), pixel_of(t.v0.pos.y as int));
            let (x1, y1) = (pixel_of(t.v1.pos.x as int), pixel_of(t.v1.pos.y as int));
            let (x2, y2) = (pixel_of(t.v2.pos.x as int), pixel_of(t.v2.pos.y as int));
            let c1 = paint_line(width, height, region, color, x0, y0, x1, y1, c);
            let c2 = paint_line(width, height, region, color, x0, y0, x2, y2, c1);
            paint_line(width, height, region, color, x2, y2, x1, y1, c2)
        },
        None => c,
    }
}

fn pixel_of_exec(c: i64) -> (r: i64)
    requires
        -COORD_LIMIT <= c <= COORD_LIMIT,
    ensures
        r == pixel_of(c as int),
        -LINE_LIMIT <= r <= LINE_LIMIT,
{
    proof {
        vstd::arithmetic::div_mod::lemma_fundamental_div_mod(c as int, SUB as int);
    }
    match c.checked_div_euclid(SUB) {
        Some(q) => q,
        None => 0,
    }
}

/// Draws the outline of one front-facing triangle as three one-pixel lines in
/// `color`, with no fill and no depth test, into a buffer covering `region`.
/// Back-facing and degenerate triangles are culled, as in filled drawing.
pub fn raster_triangle_wireframe(
    vertices: &[Vertex; 3],
    mvp: &Mat4,
    buffer: &mut Vec<u32>,
    width: usize,
    height: usize,
    region: Tile,
    color: u32,
)
    requires
        old(buffer)@.len() == region.len(),
        region.wf(),
        region.max_x <= 0x8000,
        region.max_y <= 0x8000,
        width <= VIEWPORT_LIMIT,
        height <= VIEWPORT_LIMIT,
    ensures
        final(buffer)@ == wire_colors(
            screen_triangle(*mvp, *vertices, width as int, height as int),
            width as int,
            height as int,
            region,
            color,
            old(buffer)@,
        ),
        screen_triangle(*mvp, *vertices, width as int, height as int) matches Some(t) && area(t) <= 0
            ==> final(buffer)@ == old(buffer)@,
{
    match project_triangle(vertices, mvp, width, height) {
        Some(t) => {
            if edge_function(t.v0.pos, t.v1.pos, t.v2.pos) <= 0 {
                return;
            }
            let x0 = pixel_of_exec(t.v0.pos.x);
            let y0 = pixel_of_exec(t.v0.pos.y);
            let x1 = pixel_of_exec(t.v1.pos.x);
            let y1 = pixel_of_exec(t.v1.pos.y);
            let x2 = pixel_of_exec(t.v2.pos.x);
            let y2 = pixel_of_exec(t.v2.pos.y);
            draw_line(buffer, width, height, region, color, x0, y0, x1, y1);
            draw_line(buffer, width, height, region, color, x0, y0, x2, y2);
            draw_line(buffer, width, height, region, color, x2, y2, x1, y1);
        },
        None => {},
    }
}

#[verifier::external_type_specification]
#[verifier::external_body]
pub struct ExStdRng(StdRng);

/// Relies on `rand::SeedableRng::seed_from_u64` for `StdRng`: a generator
/// whose output is determined by `seed`.
#[verifier::external_body]
fn seeded_rng(seed: u64) -> (r: StdRng) {
    StdRng::seed_from_u64(seed)
}

/// Relies on `rand::Rng::random_range` over `0..255`: a value in that
/// half-open range.
#[verifier::external_body]
fn random_channel(rng: &mut StdRng) -> (r: u8)
    ensures
        r < 255,
{
    rng.random_range(0..255u8)
}

/// An opaque color whose channels are each below 255.
pub open spec fn tile_palette(c: u32) -> bool {
    exists|r: u8, g: u8, b: u8| r < 255 && g < 255 && b < 255 && c == #[trigger] argb(255, r, g, b)
}

/// An opaque color, drawn from a generator seeded with the tile's index, so
/// that every tile's outlines get a color of their own.
pub fn tile_color(bin_id: usize) -> (c: u32)
    ensures
        tile_palette(c),
{
    let mut rng = seeded_rng(bin_id as u64);
    let r = random_channel(&mut rng);
    let g = random_channel(&mut rng);
    let b = random_channel(&mut rng);
    let c = to_argb(255, r, g, b);
    assert(r < 255 && g < 255 && b < 255 && c == argb(255, r, g, b));
    c
}

} // verus!
