use vstd::prelude::*;
use crate::geometry::{Clip, Mat4, Vec2, Vec3, Vertex, ONE, mul_vec4};
use crate::texture::Texture;
use crate::utilities::{
    Point,
    COORD_LIMIT,
    argb,
    barycentric_coordinates,
    edge,
    edge_function,
    inside,
    lemma_mul_abs_bound,
    lemma_weights_sum,
    map_range,
    map_to_range,
    to_argb,
    weights,
};

verus! {

/// Sub-pixel steps per pixel in screen coordinates.
pub const SUB: i64 = 16;

/// Smallest clip-space `w` (fixed-point, here 1/256) of a drawable vertex.
pub const W_MIN: i64 = 0x100;

/// Largest clip-space `w` (fixed-point, here 65536) of a drawable vertex.
pub const W_MAX: i64 = 0x1_0000_0000;

/// Largest magnitude of a normalized device coordinate (fixed-point, here
/// 1024) of a drawable vertex: the guard band around the viewport.
pub const NDC_LIMIT: i64 = 0x400_0000;

/// Largest viewport width or height in pixels.
pub const VIEWPORT_LIMIT: usize = 0x4000;

/// `1/w` is stored as `REC_SCALE / w`, i.e. in the same fixed point as `w`.
pub const REC_SCALE: i64 = 0x1_0000_0000;

/// Largest value of a reciprocal `w`.
pub const REC_MAX: i64 = 0x100_0000;

/// A vertex after projection: its screen position in sub-pixel units, the
/// reciprocal of its clip-space `w`, and the attributes to interpolate.
#[derive(Clone, Copy, Debug, PartialEq, Eq)]
pub struct ScreenVertex {
    pub pos: Point,
    pub rec: i64,
    pub color: Vec3,
    pub uv: Vec2,
}

#[derive(Clone, Copy, Debug, PartialEq, Eq)]
pub struct ScreenTriangle {
    pub v0: ScreenVertex,
    pub v1: ScreenVertex,
    pub v2: ScreenVertex,
}

/// A pixel rectangle `[min_x, max_x) x [min_y, max_y)`.
#[derive(Clone, Copy, Debug, PartialEq, Eq)]
pub struct Tile {
    pub min_x: usize,
    pub min_y: usize,
    pub max_x: usize,
    pub max_y: usize,
}

impl ScreenVertex {
    pub open spec fn wf(self) -> bool {
        self.pos.bounded() && 1 <= self.rec <= REC_MAX
    }
}

impl ScreenTriangle {
    pub open spec fn wf(self) -> bool {
        self.v0.wf() && self.v1.wf() && self.v2.wf()
    }
}

impl Tile {
    pub open spec fn wf(self) -> bool {
        self.min_x <= self.max_x && self.min_y <= self.max_y
    }

    pub open spec fn width(self) -> int {
        self.max_x - self.min_x
    }

    pub open spec fn len(self) -> int {
        (self.max_x - self.min_x) * (self.max_y - self.min_y)
    }

    pub open spec fn contains(self, x: int, y: int) -> bool {
        self.min_x <= x < self.max_x && self.min_y <= y < self.max_y
    }

    /// Column of the `i`-th pixel of a row-major buffer covering the tile.
    pub open spec fn px(self, i: int) -> int {
        self.min_x + i % self.width()
    }

    /// Row of the `i`-th pixel of a row-major buffer covering the tile.
    pub open spec fn py(self, i: int) -> int {
        self.min_y + i / self.width()
    }

    /// Position of pixel `(x, y)` in a row-major buffer covering the tile.
    pub open spec fn index_of(self, x: int, y: int) -> int {
        (x - self.min_x) + (y - self.min_y) * self.width()
    }
}

/// Normalized device coordinate of clip coordinate `c` at clip `w`.
pub open spec fn ndc(c: int, w: int) -> int {
    c * (ONE as int) / w
}

/// Screen coordinate, in sub-pixel units, of a normalized device coordinate.
pub open spec fn screen_coord(n: int, extent: int) -> int {
    map_range(n, -(ONE as int), ONE as int, 0, extent * SUB)
}

/// The screen-space vertex of `v` under `m`, or `None` when the vertex is not
/// drawable: its `w` lies outside `[W_MIN, W_MAX]` or it lies outside the
/// guard band.
pub open spec fn project_spec(m: Mat4, v: Vertex, width: int, height: int) -> Option<ScreenVertex> {
    let c = mul_vec4(m, v.position);
    let nx = ndc(c.x as int, c.w as int);
    let ny = ndc(c.y as int, c.w as int);
    if W_MIN <= c.w <= W_MAX && -NDC_LIMIT <= nx <= NDC_LIMIT && -NDC_LIMIT <= ny <= NDC_LIMIT {
        Some(
            ScreenVertex {
                pos: Point {
                    x: screen_coord(nx, width) as i64,
                    y: screen_coord(ny, height) as i64,
                },
                rec: (REC_SCALE / c.w) as i64,
                color: v.color,
                uv: v.uv,
            },
        )
    } else {
        None
    }
}

/// The screen-space triangle of three vertices, or `None` when one of them is
/// not drawable.
pub open spec fn screen_triangle(m: Mat4, vs: [Vertex; 3], width: int, height: int) -> Option<
    ScreenTriangle,
> {
    match (
        project_spec(m, vs[0], width, height),
        project_spec(m, vs[1], width, height),
        project_spec(m, vs[2], width, height),
    ) {
        (Some(a), Some(b), Some(c)) => Some(ScreenTriangle { v0: a, v1: b, v2: c }),
        _ => None,
    }
}

/// Twice the signed screen-space area; positive for front-facing triangles.
pub open spec fn area(t: ScreenTriangle) -> int {
    edge(t.v0.pos, t.v1.pos, t.v2.pos)
}

/// The center of pixel `(x, y)` in sub-pixel units.
pub open spec fn pixel_center(x: int, y: int) -> Point {
    Point { x: center_coord(x) as i64, y: center_coord(y) as i64 }
}

/// Sub-pixel coordinate of the center of pixel column (or row) `p`.
pub open spec fn center_coord(p: int) -> int {
    p * SUB + SUB / 2
}

/// The pixel center lies inside the triangle or on its border.
pub open spec fn covers(t: ScreenTriangle, x: int, y: int) -> bool {
    inside(pixel_center(x, y), t.v0.pos, t.v1.pos, t.v2.pos)
}

/// The area-scaled barycentric weights of pixel `(x, y)`.
pub open spec fn pixel_weights(t: ScreenTriangle, x: int, y: int) -> (int, int, int) {
    weights(pixel_center(x, y), t.v0.pos, t.v1.pos, t.v2.pos)
}

/// The weights of `w` divided by each vertex's `w`: perspective-correct weights.
pub open spec fn persp(t: ScreenTriangle, w: (int, int, int)) -> (int, int, int) {
    (w.0 * t.v0.rec, w.1 * t.v1.rec, w.2 * t.v2.rec)
}

pub open spec fn persp_sum(t: ScreenTriangle, w: (int, int, int)) -> int {
    persp(t, w).0 + persp(t, w).1 + persp(t, w).2
}

/// Interpolated reciprocal `w`: the depth key compared in the depth test.
pub open spec fn depth_of(t: ScreenTriangle, w: (int, int, int)) -> int {
    persp_sum(t, w) / area(t)
}

/// Perspective-correct interpolation of one attribute with values `a0`, `a1`, `a2`.
pub open spec fn interp(t: ScreenTriangle, w: (int, int, int), a0: int, a1: int, a2: int) -> int {
    let p = persp(t, w);
    (p.0 * a0 + p.1 * a1 + p.2 * a2) / persp_sum(t, w)
}

/// A fixed-point color channel scaled to `0..=255`, saturating at both ends.
pub open spec fn channel(c: int) -> u8 {
    if c <= 0 {
        0
    } else if c * 255 / (ONE as int) >= 255 {
        255
    } else {
        (c * 255 / (ONE as int)) as u8
    }
}

/// The packed color written for weights `w`: a texture sample at the
/// interpolated coordinates when a texture is bound, else the interpolated
/// vertex color.
pub open spec fn shade_of(t: ScreenTriangle, texture: Option<&Texture>, w: (int, int, int)) -> u32 {
    match texture {
        Some(tex) => tex.sample(
            interp(t, w, t.v0.uv.x as int, t.v1.uv.x as int, t.v2.uv.x as int),
            interp(t, w, t.v0.uv.y as int, t.v1.uv.y as int, t.v2.uv.y as int),
        ),
        None => argb(
            255,
            channel(interp(t, w, t.v0.color.x as int, t.v1.color.x as int, t.v2.color.x as int)),
            channel(interp(t, w, t.v0.color.y as int, t.v1.color.y as int, t.v2.color.y as int)),
            channel(interp(t, w, t.v0.color.z as int, t.v1.color.z as int, t.v2.color.z as int)),
        ),
    }
}

/// Pixel `(x, y)` is drawn over a stored depth `z`: the triangle is
/// front-facing, the pixel is on screen and covered, and it is nearer than `z`.
pub open spec fn passes(t: ScreenTriangle, width: int, height: int, x: int, y: int, z: u32) -> bool {
    &&& area(t) > 0
    &&& 0 <= x < width
    &&& 0 <= y < height
    &&& covers(t, x, y)
    &&& depth_of(t, pixel_weights(t, x, y)) < z
}

/// Color and depth of pixel `(x, y)` after drawing `st` over `(c, z)`.
pub open spec fn fill_pixel(
    st: Option<ScreenTriangle>,
    texture: Option<&Texture>,
    width: int,
    height: int,
    x: int,
    y: int,
    c: u32,
    z: u32,
) -> (u32, u32) {
    match st {
        Some(t) => if passes(t, width, height, x, y, z) {
            (shade_of(t, texture, pixel_weights(t, x, y)), depth_of(t, pixel_weights(t, x, y)) as u32)
        } else {
            (c, z)
        },
        None => (c, z),
    }
}

/// The color buffer over `region` after drawing `st`.
pub open spec fn raster_colors(
    st: Option<ScreenTriangle>,
    texture: Option<&Texture>,
    width: int,
    height: int,
    region: Tile,
    c: Seq<u32>,
    z: Seq<u32>,
) -> Seq<u32> {
    Seq::new(
        c.len(),
        |i: int| fill_pixel(st, texture, width, height, region.px(i), region.py(i), c[i], z[i]).0,
    )
}

/// The depth buffer over `region` after drawing `st`.
pub open spec fn raster_depths(
    st: Option<ScreenTriangle>,
    texture: Option<&Texture>,
    width: int,
    height: int,
    region: Tile,
    c: Seq<u32>,
    z: Seq<u32>,
) -> Seq<u32> {
    Seq::new(
        z.len(),
        |i: int| fill_pixel(st, texture, width, height, region.px(i), region.py(i), c[i], z[i]).1,
    )
}

// ---------------------------------------------------------------------------
// Arithmetic facts
// ---------------------------------------------------------------------------

/// Floor division by a positive number does not grow a magnitude.
pub proof fn lemma_div_abs_bound(a: int, d: int, b: int)
    requires
        -b <= a <= b,
        d >= 1,
    ensures
        -b <= a / d <= b,
{
    vstd::arithmetic::div_mod::lemma_fundamental_div_mod(a, d);
    let q = a / d;
    let r = a % d;
    assert(-b <= q <= b) by (nonlinear_arith)
        requires
            a == d * q + r,
            0 <= r < d,
            d >= 1,
            -b <= a <= b,
    ;
}

/// A weighted average with non-negative weights lies between the smallest and
/// the largest value.
pub proof fn lemma_weighted_average(p0: int, p1: int, p2: int, a0: int, a1: int, a2: int, lo: int, hi: int)
    requires
        p0 >= 0,
        p1 >= 0,
        p2 >= 0,
        p0 + p1 + p2 > 0,
        lo <= a0 <= hi,
        lo <= a1 <= hi,
        lo <= a2 <= hi,
    ensures
        lo <= (p0 * a0 + p1 * a1 + p2 * a2) / (p0 + p1 + p2) <= hi,
{
    let s = p0 + p1 + p2;
    let n = p0 * a0 + p1 * a1 + p2 * a2;
    assert(s * lo <= n <= s * hi) by (nonlinear_arith)
        requires
            p0 >= 0,
            p1 >= 0,
            p2 >= 0,
            s == p0 + p1 + p2,
            n == p0 * a0 + p1 * a1 + p2 * a2,
            lo <= a0 <= hi,
            lo <= a1 <= hi,
            lo <= a2 <= hi,
    ;
    vstd::arithmetic::div_mod::lemma_fundamental_div_mod(n, s);
    let q = n / s;
    let r = n % s;
    assert(lo <= q <= hi) by (nonlinear_arith)
        requires
            n == s * q + r,
            0 <= r < s,
            s * lo <= n <= s * hi,
    ;
}

/// The point is the weighted sum of the corners: `area * p == sum(m_i * v_i)`.
pub proof fn lemma_point_combination(p: Point, v0: Point, v1: Point, v2: Point)
    ensures
        ({
            let w = weights(p, v0, v1, v2);
            &&& edge(v0, v1, v2) * p.x == w.0 * v0.x + w.1 * v1.x + w.2 * v2.x
            &&& edge(v0, v1, v2) * p.y == w.0 * v0.y + w.1 * v1.y + w.2 * v2.y
        }),
{
    let (px, py) = (p.x as int, p.y as int);
    let (ax, ay, bx, by, cx, cy) = (
        v0.x as int,
        v0.y as int,
        v1.x as int,
        v1.y as int,
        v2.x as int,
        v2.y as int,
    );
    // Relative to p the corners are A, B, C; the weights are cross products of
    // them, and sum(m_i * A_i) vanishes term by term.
    let (ax0, ay0, bx0, by0, cx0, cy0) = (ax - px, ay - py, bx - px, by - py, cx - px, cy - py);
    let m0 = cx0 * by0 - cy0 * bx0;
    let m1 = ax0 * cy0 - ay0 * cx0;
    let m2 = bx0 * ay0 - by0 * ax0;
    assert(m0 * ax0 == ax0 * by0 * cx0 - ax0 * bx0 * cy0) by (nonlinear_arith)
        requires
            m0 == cx0 * by0 - cy0 * bx0,
    ;
    assert(m1 * bx0 == ax0 * bx0 * cy0 - ay0 * bx0 * cx0) by (nonlinear_arith)
        requires
            m1 == ax0 * cy0 - ay0 * cx0,
    ;
    assert(m2 * cx0 == ay0 * bx0 * cx0 - ax0 * by0 * cx0) by (nonlinear_arith)
        requires
            m2 == bx0 * ay0 - by0 * ax0,
    ;
    assert(m0 * ay0 == ay0 * by0 * cx0 - ay0 * bx0 * cy0) by (nonlinear_arith)
        requires
            m0 == cx0 * by0 - cy0 * bx0,
    ;
    assert(m1 * by0 == ax0 * by0 * cy0 - ay0 * by0 * cx0) by (nonlinear_arith)
        requires
            m1 == ax0 * cy0 - ay0 * cx0,
    ;
    assert(m2 * cy0 == ay0 * bx0 * cy0 - ax0 * by0 * cy0) by (nonlinear_arith)
        requires
            m2 == bx0 * ay0 - by0 * ax0,
    ;
    lemma_weights_sum(p, v0, v1, v2);
    let ar = m0 + m1 + m2;
    assert(m0 * ax + m1 * bx + m2 * cx == ar * px) by (nonlinear_arith)
        requires
            m0 * ax0 + m1 * bx0 + m2 * cx0 == 0,
            ax0 == ax - px,
            bx0 == bx - px,
            cx0 == cx - px,
            ar == m0 + m1 + m2,
    ;
    assert(m0 * ay + m1 * by + m2 * cy == ar * py) by (nonlinear_arith)
        requires
            m0 * ay0 + m1 * by0 + m2 * cy0 == 0,
            ay0 == ay - py,
            by0 == by - py,
            cy0 == cy - py,
            ar == m0 + m1 + m2,
    ;
}

/// A point inside a front-facing triangle lies between the smallest and the
/// largest corner coordinate (the triangle's bounding box).
pub proof fn lemma_inside_in_box(p: Point, v0: Point, v1: Point, v2: Point)
    requires
        edge(v0, v1, v2) > 0,
        inside(p, v0, v1, v2),
    ensures
        min3(v0.x as int, v1.x as int, v2.x as int) <= p.x <= max3(v0.x as int, v1.x as int, v2.x as int),
        min3(v0.y as int, v1.y as int, v2.y as int) <= p.y <= max3(v0.y as int, v1.y as int, v2.y as int),
{
    lemma_point_combination(p, v0, v1, v2);
    lemma_weights_sum(p, v0, v1, v2);
    let w = weights(p, v0, v1, v2);
    let ar = edge(v0, v1, v2);
    lemma_between(ar, p.x as int, w.0, w.1, w.2, v0.x as int, v1.x as int, v2.x as int);
    lemma_between(ar, p.y as int, w.0, w.1, w.2, v0.y as int, v1.y as int, v2.y as int);
}

proof fn lemma_between(ar: int, p: int, m0: int, m1: int, m2: int, a: int, b: int, c: int)
    requires
        ar > 0,
        m0 >= 0,
        m1 >= 0,
        m2 >= 0,
        m0 + m1 + m2 == ar,
        ar * p == m0 * a + m1 * b + m2 * c,
    ensures
        min3(a, b, c) <= p <= max3(a, b, c),
{
    let lo = min3(a, b, c);
    let hi = max3(a, b, c);
    assert(ar * lo <= ar * p <= ar * hi) by (nonlinear_arith)
        requires
            m0 >= 0,
            m1 >= 0,
            m2 >= 0,
            m0 + m1 + m2 == ar,
            ar * p == m0 * a + m1 * b + m2 * c,
            lo <= a <= hi,
            lo <= b <= hi,
            lo <= c <= hi,
    ;
    assert(lo <= p <= hi) by (nonlinear_arith)
        requires
            ar > 0,
            ar * lo <= ar * p <= ar * hi,
    ;
}

pub open spec fn min3(a: int, b: int, c: int) -> int {
    if a <= b && a <= c {
        a
    } else if b <= c {
        b
    } else {
        c
    }
}

pub open spec fn max3(a: int, b: int, c: int) -> int {
    if a >= b && a >= c {
        a
    } else if b >= c {
        b
    } else {
        c
    }
}

// ---------------------------------------------------------------------------
// Projection
// ---------------------------------------------------------------------------

/// Projects one vertex to the screen: transform, perspective division and
/// remap of `[-1, 1]` onto `[0, width]` and `[0, height]`.
pub fn project(mvp: &Mat4, v: &Vertex, width: usize, height: usize) -> (r: Option<ScreenVertex>)
    requires
        width <= VIEWPORT_LIMIT,
        height <= VIEWPORT_LIMIT,
    ensures
        r == project_spec(*mvp, *v, width as int, height as int),
        r matches Some(s) ==> s.wf(),
{
    let c: Clip = mvp.transform(v.position);
    proof {
        crate::geometry::lemma_dot_row_bounds(mvp.x_axis.x, mvp.y_axis.x, mvp.z_axis.x, mvp.w_axis.x, v.position);
        crate::geometry::lemma_dot_row_bounds(mvp.x_axis.y, mvp.y_axis.y, mvp.z_axis.y, mvp.w_axis.y, v.position);
    }
    if c.w < W_MIN || c.w > W_MAX {
        return None;
    }
    proof {
        lemma_div_abs_bound(c.x * ONE as int, c.w as int, 0x1_0000_0000_0000_0000);
        lemma_div_abs_bound(c.y * ONE as int, c.w as int, 0x1_0000_0000_0000_0000);
    }
    let nx: i128 = match (c.x as i128 * ONE as i128).checked_div_euclid(c.w as i128) {
        Some(q) => q,
        None => 0,
    };
    let ny: i128 = match (c.y as i128 * ONE as i128).checked_div_euclid(c.w as i128) {
        Some(q) => q,
        None => 0,
    };
    if nx < -(NDC_LIMIT as i128) || nx > NDC_LIMIT as i128 || ny < -(NDC_LIMIT as i128) || ny
        > NDC_LIMIT as i128 {
        return None;
    }
    let ew: i64 = width as i64 * SUB;
    let eh: i64 = height as i64 * SUB;
    proof {
        lemma_screen_bound(nx as int, width as int);
        lemma_screen_bound(ny as int, height as int);
    }
    let sx = map_to_range(nx as i64, -(ONE as i64), ONE as i64, 0, ew);
    let sy = map_to_range(ny as i64, -(ONE as i64), ONE as i64, 0, eh);
    let rec = REC_SCALE / c.w;
    assert(1 <= rec <= REC_MAX) by (nonlinear_arith)
        requires
            W_MIN <= c.w <= W_MAX,
            rec == REC_SCALE / c.w,
    ;
    Some(ScreenVertex { pos: Point { x: sx, y: sy }, rec, color: v.color, uv: v.uv })
}

proof fn lemma_screen_bound(n: int, extent: int)
    requires
        -NDC_LIMIT <= n <= NDC_LIMIT,
        0 <= extent <= VIEWPORT_LIMIT,
    ensures
        -0x2000_0000_0000 <= (n + ONE) * (extent * SUB) <= 0x2000_0000_0000,
        -COORD_LIMIT <= screen_coord(n, extent) <= COORD_LIMIT,
{
    let a = n + ONE;
    let b = extent * SUB;
    assert(-0x2000_0000_0000 <= a * b <= 0x2000_0000_0000) by (nonlinear_arith)
        requires
            -0x500_0000 <= a <= 0x500_0000,
            0 <= b <= 0x4_0000,
    ;
    vstd::arithmetic::div_mod::lemma_fundamental_div_mod(a * b, 2 * ONE as int);
    let q = (a * b) / (2 * ONE as int);
    let r = (a * b) % (2 * ONE as int);
    assert(-0x1000_0000 <= q <= 0x1000_0000) by (nonlinear_arith)
        requires
            a * b == 0x20000 * q + r,
            0 <= r < 0x20000,
            -0x2000_0000_0000 <= a * b <= 0x2000_0000_0000,
    ;
    assert((n - (-(ONE as int))) * (b - 0) == a * b);
}

/// Projects the three vertices of a triangle.
pub fn project_triangle(vertices: &[Vertex; 3], mvp: &Mat4, width: usize, height: usize) -> (r: Option<ScreenTriangle>)
    requires
        width <= VIEWPORT_LIMIT,
        height <= VIEWPORT_LIMIT,
    ensures
        r == screen_triangle(*mvp, *vertices, width as int, height as int),
        r matches Some(t) ==> t.wf(),
{
    let a = project(mvp, &vertices[0], width, height);
    let b = project(mvp, &vertices[1], width, height);
    let c = project(mvp, &vertices[2], width, height);
    match (a, b, c) {
        (Some(a), Some(b), Some(c)) => Some(ScreenTriangle { v0: a, v1: b, v2: c }),
        _ => None,
    }
}

// ---------------------------------------------------------------------------
// Shading
// ---------------------------------------------------------------------------

/// Perspective-correct interpolation from the weights `p_i = m_i * rec_i`.
fn interp_exec(p0: i128, p1: i128, p2: i128, a0: i32, a1: i32, a2: i32) -> (r: i32)
    requires
        0 <= p0 <= 0x40_0000_0000_0000_0000_0000,
        0 <= p1 <= 0x40_0000_0000_0000_0000_0000,
        0 <= p2 <= 0x40_0000_0000_0000_0000_0000,
        p0 + p1 + p2 > 0,
    ensures
        r == (p0 * a0 + p1 * a1 + p2 * a2) / (p0 + p1 + p2),
{
    proof {
        lemma_weight_times_value(p0 as int, a0 as int);
        lemma_weight_times_value(p1 as int, a1 as int);
        lemma_weight_times_value(p2 as int, a2 as int);
        lemma_weighted_average(p0 as int, p1 as int, p2 as int, a0 as int, a1 as int, a2 as int, i32::MIN as int, i32::MAX as int);
    }
    let n: i128 = p0 * a0 as i128 + p1 * a1 as i128 + p2 * a2 as i128;
    let s: i128 = p0 + p1 + p2;
    let q: i128 = match n.checked_div_euclid(s) {
        Some(q) => q,
        None => 0,
    };
    q as i32
}

proof fn lemma_weight_times_value(p: int, a: int)
    requires
        0 <= p <= 0x40_0000_0000_0000_0000_0000,
        i32::MIN <= a <= i32::MAX,
    ensures
        -0x20_0000_0000_0000_0000_0000_0000_0000 <= p * a <= 0x20_0000_0000_0000_0000_0000_0000_0000,
{
    assert(-0x20_0000_0000_0000_0000_0000_0000_0000 <= p * a <= 0x20_0000_0000_0000_0000_0000_0000_0000)
        by (nonlinear_arith)
        requires
            0 <= p <= 0x40_0000_0000_0000_0000_0000,
            -0x8000_0000 <= a <= 0x8000_0000,
    ;
}

fn channel_exec(c: i32) -> (r: u8)
    ensures
        r == channel(c as int),
{
    if c <= 0 {
        0
    } else {
        let v: i64 = c as i64 * 255 / ONE as i64;
        if v >= 255 {
            255
        } else {
            v as u8
        }
    }
}

/// Bounds on the weights of a covered pixel of a well-formed triangle.
proof fn lemma_weight_bounds(t: ScreenTriangle, w: (int, int, int))
    requires
        t.wf(),
        w.0 >= 0,
        w.1 >= 0,
        w.2 >= 0,
        w.0 + w.1 + w.2 == area(t),
        area(t) > 0,
    ensures
        0 <= persp(t, w).0 <= 0x40_0000_0000_0000_0000_0000,
        0 <= persp(t, w).1 <= 0x40_0000_0000_0000_0000_0000,
        0 <= persp(t, w).2 <= 0x40_0000_0000_0000_0000_0000,
        persp_sum(t, w) > 0,
        1 <= depth_of(t, w) <= REC_MAX,
{
    let (v0, v1, v2) = (t.v0.pos, t.v1.pos, t.v2.pos);
    let dx = v2.x - v0.x;
    let dy = v2.y - v0.y;
    let ex = v1.x - v0.x;
    let ey = v1.y - v0.y;
    lemma_mul_abs_bound(dx, ey, 0x4000_0000);
    lemma_mul_abs_bound(dy, ex, 0x4000_0000);
    assert(area(t) <= 0x2000_0000_0000_0000);
    let r: int = REC_MAX as int;
    assert(0 <= w.0 * t.v0.rec <= 0x2000_0000_0000_0000 * r) by (nonlinear_arith)
        requires
            0 <= w.0 <= 0x2000_0000_0000_0000,
            1 <= t.v0.rec <= r,
    ;
    assert(0 <= w.1 * t.v1.rec <= 0x2000_0000_0000_0000 * r) by (nonlinear_arith)
        requires
            0 <= w.1 <= 0x2000_0000_0000_0000,
            1 <= t.v1.rec <= r,
    ;
    assert(0 <= w.2 * t.v2.rec <= 0x2000_0000_0000_0000 * r) by (nonlinear_arith)
        requires
            0 <= w.2 <= 0x2000_0000_0000_0000,
            1 <= t.v2.rec <= r,
    ;
    assert(w.0 * t.v0.rec >= w.0 && w.1 * t.v1.rec >= w.1 && w.2 * t.v2.rec >= w.2) by (nonlinear_arith)
        requires
            w.0 >= 0,
            w.1 >= 0,
            w.2 >= 0,
            t.v0.rec >= 1,
            t.v1.rec >= 1,
            t.v2.rec >= 1,
    ;
    lemma_weighted_average(w.0, w.1, w.2, t.v0.rec as int, t.v1.rec as int, t.v2.rec as int, 1, r);
}

/// Color and depth of a covered pixel with area-scaled weights `(m0, m1, m2)`.
fn shade_pixel(t: &ScreenTriangle, texture: Option<&Texture>, m0: i64, m1: i64, m2: i64, a: i64) -> (r: (u32, u32))
    requires
        t.wf(),
        a == area(*t),
        a > 0,
        m0 >= 0,
        m1 >= 0,
        m2 >= 0,
        m0 + m1 + m2 == a,
    ensures
        r.0 == shade_of(*t, texture, (m0 as int, m1 as int, m2 as int)),
        r.1 == depth_of(*t, (m0 as int, m1 as int, m2 as int)),
{
    let ghost w = (m0 as int, m1 as int, m2 as int);
    proof {
        lemma_weight_bounds(*t, w);
    }
    let p0: i128 = m0 as i128 * t.v0.rec as i128;
    let p1: i128 = m1 as i128 * t.v1.rec as i128;
    let p2: i128 = m2 as i128 * t.v2.rec as i128;
    let s: i128 = p0 + p1 + p2;
    let depth: i128 = s / a as i128;
    let color = match texture {
        Some(tex) => {
            let u = interp_exec(p0, p1, p2, t.v0.uv.x, t.v1.uv.x, t.v2.uv.x);
            let v = interp_exec(p0, p1, p2, t.v0.uv.y, t.v1.uv.y, t.v2.uv.y);
            tex.argb_at_uv(u, v)
        },
        None => {
            let r = interp_exec(p0, p1, p2, t.v0.color.x, t.v1.color.x, t.v2.color.x);
            let g = interp_exec(p0, p1, p2, t.v0.color.y, t.v1.color.y, t.v2.color.y);
            let b = interp_exec(p0, p1, p2, t.v0.color.z, t.v1.color.z, t.v2.color.z);
            to_argb(255, channel_exec(r), channel_exec(g), channel_exec(b))
        },
    };
    (color, depth as u32)
}

// ---------------------------------------------------------------------------
// Rasterization
// ---------------------------------------------------------------------------

pub(crate) fn min3_exec(a: i64, b: i64, c: i64) -> (r: i64)
    ensures
        r == min3(a as int, b as int, c as int),
{
    if a <= b && a <= c {
        a
    } else if b <= c {
        b
    } else {
        c
    }
}

pub(crate) fn max3_exec(a: i64, b: i64, c: i64) -> (r: i64)
    ensures
        r == max3(a as int, b as int, c as int),
{
    if a >= b && a >= c {
        a
    } else if b >= c {
        b
    } else {
        c
    }
}

/// The pixel range `[lo, hi)` along one axis whose centers can lie between
/// the sub-pixel coordinates `min` and `max`, clipped to `[clip_lo, clip_hi)`.
fn pixel_span(min: i64, max: i64, clip_lo: usize, clip_hi: usize) -> (r: (usize, usize))
    requires
        -COORD_LIMIT <= min <= max <= COORD_LIMIT,
        clip_lo <= clip_hi <= VIEWPORT_LIMIT,
    ensures
        clip_lo <= r.0 <= r.1 <= clip_hi,
        forall|p: int|
            clip_lo <= p < clip_hi && min <= #[trigger] center_coord(p) <= max ==> r.0 <= p < r.1,
{
    let lo: i64 = match min.checked_div_euclid(SUB) {
        Some(q) => q,
        None => 0,
    };
    let hi: i64 = match (max + (SUB - 1)).checked_div_euclid(SUB) {
        Some(q) => q,
        None => 0,
    };
    proof {
        vstd::arithmetic::div_mod::lemma_fundamental_div_mod(min as int, SUB as int);
        vstd::arithmetic::div_mod::lemma_fundamental_div_mod(max + (SUB - 1), SUB as int);
        assert forall|p: int| clip_lo <= p < clip_hi && min <= #[trigger] center_coord(p) <= max implies lo
            <= p < hi by {
            assert(lo <= p < hi) by (nonlinear_arith)
                requires
                    min == 16 * lo + min % 16,
                    0 <= min % 16 < 16,
                    max + 15 == 16 * hi + (max + 15) % 16,
                    0 <= (max + 15) % 16 < 16,
                    min <= p * 16 + 8 <= max,
            ;
        }
    }
    let a: usize = if lo < clip_lo as i64 {
        clip_lo
    } else if lo > clip_hi as i64 {
        clip_hi
    } else {
        lo as usize
    };
    let b: usize = if hi > clip_hi as i64 {
        clip_hi
    } else if hi < a as i64 {
        a
    } else {
        hi as usize
    };
    (a, b)
}

/// `region.index_of` and `region.px`/`region.py` are inverse to each other.
pub proof fn lemma_index_of(region: Tile, x: int, y: int)
    requires
        region.wf(),
        region.contains(x, y),
    ensures
        0 <= region.index_of(x, y) < region.len(),
        region.px(region.index_of(x, y)) == x,
        region.py(region.index_of(x, y)) == y,
{
    let w = region.width();
    let k = region.index_of(x, y);
    vstd::arithmetic::div_mod::lemma_fundamental_div_mod_converse(k, w, y - region.min_y, x - region.min_x);
    let h = region.max_y - region.min_y;
    assert(k < w * h) by (nonlinear_arith)
        requires
            k == (x - region.min_x) + (y - region.min_y) * w,
            0 <= x - region.min_x < w,
            0 <= y - region.min_y < h,
    ;
    assert(0 <= k) by (nonlinear_arith)
        requires
            k == (x - region.min_x) + (y - region.min_y) * w,
            0 <= x - region.min_x,
            0 <= y - region.min_y,
            w > 0,
    ;
}

pub proof fn lemma_px_py(region: Tile, i: int)
    requires
        region.wf(),
        0 <= i < region.len(),
    ensures
        region.contains(region.px(i), region.py(i)),
        region.index_of(region.px(i), region.py(i)) == i,
{
    let w = region.width();
    let h = region.max_y - region.min_y;
    assert(w > 0) by (nonlinear_arith)
        requires
            0 <= i < w * h,
            h >= 0,
    ;
    vstd::arithmetic::div_mod::lemma_fundamental_div_mod(i, w);
    assert(i / w < h) by (nonlinear_arith)
        requires
            i == w * (i / w) + i % w,
            0 <= i % w,
            i < w * h,
            w > 0,
    ;
    assert(w * (i / w) == (i / w) * w) by (nonlinear_arith);
    assert(i / w >= 0) by (nonlinear_arith)
        requires
            i == w * (i / w) + i % w,
            i % w < w,
            i >= 0,
            w > 0,
    ;
}

/// A pixel outside the triangle's bounding box is not covered.
pub proof fn lemma_covered_in_box(t: ScreenTriangle, x: int, y: int)
    requires
        t.wf(),
        area(t) > 0,
        covers(t, x, y),
        0 <= x <= VIEWPORT_LIMIT,
        0 <= y <= VIEWPORT_LIMIT,
    ensures
        min3(t.v0.pos.x as int, t.v1.pos.x as int, t.v2.pos.x as int) <= center_coord(x) <= max3(
            t.v0.pos.x as int,
            t.v1.pos.x as int,
            t.v2.pos.x as int,
        ),
        min3(t.v0.pos.y as int, t.v1.pos.y as int, t.v2.pos.y as int) <= center_coord(y) <= max3(
            t.v0.pos.y as int,
            t.v1.pos.y as int,
            t.v2.pos.y as int,
        ),
{
    lemma_inside_in_box(pixel_center(x, y), t.v0.pos, t.v1.pos, t.v2.pos);
}

/// Draws a projected triangle into buffers that cover `region`, touching only
/// pixels of `region` that lie on the `width` x `height` screen.
pub fn raster_screen_triangle(
    t: &ScreenTriangle,
    texture: Option<&Texture>,
    buffer: &mut Vec<u32>,
    z_buffer: &mut Vec<u32>,
    width: usize,
    height: usize,
    region: Tile,
)
    requires
        t.wf(),
        width <= VIEWPORT_LIMIT,
        height <= VIEWPORT_LIMIT,
        region.wf(),
        old(buffer)@.len() == region.len(),
        old(z_buffer)@.len() == region.len(),
    ensures
        final(buffer)@ == raster_colors(
            Some(*t),
            texture,
            width as int,
            height as int,
            region,
            old(buffer)@,
            old(z_buffer)@,
        ),
        final(z_buffer)@ == raster_depths(
            Some(*t),
            texture,
            width as int,
            height as int,
            region,
            old(buffer)@,
            old(z_buffer)@,
        ),
{
    let ghost c0 = buffer@;
    let ghost z0 = z_buffer@;
    let ghost st = Some(*t);
    let ghost (w, h) = (width as int, height as int);
    let (p0, p1, p2) = (t.v0.pos, t.v1.pos, t.v2.pos);
    let a = edge_function(p0, p1, p2);
    let x_clip = if region.max_x < width { region.max_x } else { width };
    let y_clip = if region.max_y < height { region.max_y } else { height };
    let (x_lo, x_hi) = if a <= 0 || region.min_x >= x_clip {
        (0, 0)
    } else {
        pixel_span(min3_exec(p0.x, p1.x, p2.x), max3_exec(p0.x, p1.x, p2.x), region.min_x, x_clip)
    };
    let (y_lo, y_hi) = if a <= 0 || region.min_y >= y_clip {
        (0, 0)
    } else {
        pixel_span(min3_exec(p0.y, p1.y, p2.y), max3_exec(p0.y, p1.y, p2.y), region.min_y, y_clip)
    };
    let rw = region.max_x - region.min_x;
    let blen = buffer.len();
    let mut y = y_lo;
    while y < y_hi
        invariant
            t.wf(),
            a == area(*t),
            region.wf(),
            rw == region.width(),
            x_hi <= x_clip <= width <= VIEWPORT_LIMIT,
            x_clip <= region.max_x,
            y_hi <= y_clip <= height <= VIEWPORT_LIMIT,
            y_clip <= region.max_y,
            y_lo <= y <= y_hi,
            x_lo <= x_hi,
            y_lo < y_hi ==> region.min_y <= y_lo,
            x_lo < x_hi ==> region.min_x <= x_lo,
            p0 == t.v0.pos && p1 == t.v1.pos && p2 == t.v2.pos,
                w == width as int && h == height as int && st == Some(*t),
            a <= 0 ==> x_hi == 0 && y_hi == 0,
            buffer@.len() == region.len(),
            z_buffer@.len() == region.len(),
            c0.len() == region.len(),
            z0.len() == region.len(),
            blen == region.len(),
            forall|i: int|
                #![trigger buffer@[i]]
                #![trigger z_buffer@[i]]
                0 <= i < region.len() ==> if y_lo <= region.py(i) < y && x_lo <= region.px(i) < x_hi {
                    (buffer@[i], z_buffer@[i]) == fill_pixel(st, texture, w, h, region.px(i), region.py(i), c0[i], z0[i])
                } else {
                    buffer@[i] == c0[i] && z_buffer@[i] == z0[i]
                },
        decreases y_hi - y,
    {
        let mut x = x_lo;
        while x < x_hi
            invariant
                t.wf(),
                a == area(*t),
                region.wf(),
                rw == region.width(),
                x_hi <= x_clip <= width <= VIEWPORT_LIMIT,
                x_clip <= region.max_x,
                y_hi <= y_clip <= height <= VIEWPORT_LIMIT,
                y_clip <= region.max_y,
                region.min_y <= y_lo <= y < y_hi,
                x_lo <= x <= x_hi,
                x_lo < x_hi ==> region.min_x <= x_lo,
                p0 == t.v0.pos && p1 == t.v1.pos && p2 == t.v2.pos,
                w == width as int && h == height as int && st == Some(*t),
                a > 0,
                buffer@.len() == region.len(),
                z_buffer@.len() == region.len(),
                c0.len() == region.len(),
                z0.len() == region.len(),
                blen == region.len(),
                forall|i: int|
                    #![trigger buffer@[i]]
                    #![trigger z_buffer@[i]]
                    0 <= i < region.len() ==> if (y_lo <= region.py(i) < y && x_lo <= region.px(i) < x_hi)
                        || (region.py(i) == y && x_lo <= region.px(i) < x) {
                        (buffer@[i], z_buffer@[i]) == fill_pixel(st, texture, w, h, region.px(i), region.py(i), c0[i], z0[i])
                    } else {
                        buffer@[i] == c0[i] && z_buffer@[i] == z0[i]
                    },
            decreases x_hi - x,
        {
            let center = Point { x: x as i64 * SUB + SUB / 2, y: y as i64 * SUB + SUB / 2 };
            proof {
                lemma_index_of(region, x as int, y as int);
                assert((y - region.min_y) * rw <= region.index_of(x as int, y as int));
            }
            let k = (x - region.min_x) + (y - region.min_y) * rw;
            proof {
                assert(center == pixel_center(x as int, y as int));
            }
            proof {
                assert(buffer@[k as int] == c0[k as int] && z_buffer@[k as int] == z0[k as int]);
            }
            match barycentric_coordinates(center, p0, p1, p2) {
                Some((m0, m1, m2)) => {
                    proof {
                        lemma_weights_sum(center, p0, p1, p2);
                        assert(pixel_weights(*t, x as int, y as int) == (m0 as int, m1 as int, m2 as int));
                        assert(covers(*t, x as int, y as int));
                    }
                    let (color, depth) = shade_pixel(t, texture, m0, m1, m2, a);
                    proof {
                        assert(0 <= x < w && 0 <= y < h);
                        assert(area(*t) > 0);
                        assert(depth == depth_of(*t, pixel_weights(*t, x as int, y as int)));
                        assert(passes(*t, w, h, x as int, y as int, z0[k as int]) == (depth < z0[k as int]));
                    }
                    if depth < z_buffer[k] {
                        z_buffer.set(k, depth);
                        buffer.set(k, color);
                    }
                },
                None => {
                    assert(!covers(*t, x as int, y as int));
                },
            }
            proof {
                assert((buffer@[k as int], z_buffer@[k as int]) == fill_pixel(st, texture, w, h, x as int, y as int, c0[k as int], z0[k as int]));
                assert forall|i: int|
                    #![trigger buffer@[i]]
                    #![trigger z_buffer@[i]]
                    0 <= i < region.len() implies if (y_lo <= region.py(i) < y && x_lo <= region.px(i) < x_hi)
                        || (region.py(i) == y && x_lo <= region.px(i) < x + 1) {
                        (buffer@[i], z_buffer@[i]) == fill_pixel(st, texture, w, h, region.px(i), region.py(i), c0[i], z0[i])
                    } else {
                        buffer@[i] == c0[i] && z_buffer@[i] == z0[i]
                    } by {
                    lemma_px_py(region, i);
                }
            }
            x += 1;
        }
        y += 1;
    }
    proof {
        assert forall|i: int| 0 <= i < region.len() implies (buffer@[i], z_buffer@[i]) == fill_pixel(
            st,
            texture,
            w,
            h,
            region.px(i),
            region.py(i),
            c0[i],
            z0[i],
        ) by {
            lemma_px_py(region, i);
            let (px, py) = (region.px(i), region.py(i));
            if !(y_lo <= py < y_hi && x_lo <= px < x_hi) {
                if passes(*t, w, h, px, py, z0[i]) {
                    lemma_covered_in_box(*t, px, py);
                    assert(false);
                }
            }
        }
        assert(buffer@ =~= raster_colors(st, texture, w, h, region, c0, z0));
        assert(z_buffer@ =~= raster_depths(st, texture, w, h, region, c0, z0));
    }
}

/// Draws one triangle into buffers that cover `region` (row-major, `region`'s
/// width per row), touching only pixels of `region` on the screen.
pub fn raster_triangle_in(
    vertices: &[Vertex; 3],
    mvp: &Mat4,
    texture: Option<&Texture>,
    buffer: &mut Vec<u32>,
    z_buffer: &mut Vec<u32>,
    width: usize,
    height: usize,
    region: Tile,
)
    requires
        width <= VIEWPORT_LIMIT,
        height <= VIEWPORT_LIMIT,
        region.wf(),
        old(buffer)@.len() == region.len(),
        old(z_buffer)@.len() == region.len(),
    ensures
        final(buffer)@ == raster_colors(
            screen_triangle(*mvp, *vertices, width as int, height as int),
            texture,
            width as int,
            height as int,
            region,
            old(buffer)@,
            old(z_buffer)@,
        ),
        final(z_buffer)@ == raster_depths(
            screen_triangle(*mvp, *vertices, width as int, height as int),
            texture,
            width as int,
            height as int,
            region,
            old(buffer)@,
            old(z_buffer)@,
        ),
{
    match project_triangle(vertices, mvp, width, height) {
        Some(t) => raster_screen_triangle(&t, texture, buffer, z_buffer, width, height, region),
        None => {
            let ghost st = screen_triangle(*mvp, *vertices, width as int, height as int);
            assert(buffer@ =~= raster_colors(st, texture, width as int, height as int, region, buffer@, z_buffer@));
            assert(z_buffer@ =~= raster_depths(st, texture, width as int, height as int, region, buffer@, z_buffer@));
        },
    }
}

/// The whole `width` x `height` screen as a region.
pub open spec fn screen(width: int, height: int) -> Tile {
    Tile { min_x: 0, min_y: 0, max_x: width as usize, max_y: height as usize }
}

/// Draws one triangle into full-screen buffers: transform, backface culling,
/// bounding box, coverage test, depth test, perspective-correct shading.
///
/// Fixed-point ranges set one limit that float drawing does not have: a triangle
/// is skipped as a whole when one of its vertices has a clip-space `w`
/// outside `[W_MIN, W_MAX]` (1/256 to 65536), which includes every vertex at
/// or behind the camera, or lands more than `NDC_LIMIT` (1024) normalized
/// units off screen (see `project_spec`).
pub fn raster_triangle(
    vertices: &[Vertex; 3],
    mvp: &Mat4,
    texture: Option<&Texture>,
    buffer: &mut Vec<u32>,
    z_buffer: &mut Vec<u32>,
    width: usize,
    height: usize,
)
    requires
        width <= VIEWPORT_LIMIT,
        height <= VIEWPORT_LIMIT,
        old(buffer)@.len() == width * height,
        old(z_buffer)@.len() == width * height,
    ensures
        final(buffer)@ == raster_colors(
            screen_triangle(*mvp, *vertices, width as int, height as int),
            texture,
            width as int,
            height as int,
            screen(width as int, height as int),
            old(buffer)@,
            old(z_buffer)@,
        ),
        final(z_buffer)@ == raster_depths(
            screen_triangle(*mvp, *vertices, width as int, height as int),
            texture,
            width as int,
            height as int,
            screen(width as int, height as int),
            old(buffer)@,
            old(z_buffer)@,
        ),
{
    let region = Tile { min_x: 0, min_y: 0, max_x: width, max_y: height };
    raster_triangle_in(vertices, mvp, texture, buffer, z_buffer, width, height, region);
}

// ---------------------------------------------------------------------------
// Properties of drawing
// ---------------------------------------------------------------------------

/// Every vertex that projects lands inside the coordinate limits, with a
/// reciprocal `w` in `[1, REC_MAX]`.
pub proof fn lemma_project_wf(m: Mat4, v: Vertex, width: int, height: int)
    requires
        0 <= width <= VIEWPORT_LIMIT,
        0 <= height <= VIEWPORT_LIMIT,
    ensures
        project_spec(m, v, width, height) matches Some(s) ==> s.wf(),
{
    let c = mul_vec4(m, v.position);
    let nx = ndc(c.x as int, c.w as int);
    let ny = ndc(c.y as int, c.w as int);
    if W_MIN <= c.w <= W_MAX && -NDC_LIMIT <= nx <= NDC_LIMIT && -NDC_LIMIT <= ny <= NDC_LIMIT {
        lemma_screen_bound(nx, width);
        lemma_screen_bound(ny, height);
        let rec = REC_SCALE / c.w;
        assert(1 <= rec <= REC_MAX) by (nonlinear_arith)
            requires
                W_MIN <= c.w <= W_MAX,
                rec == REC_SCALE / c.w,
        ;
    }
}

/// Every projected triangle is well formed.
pub proof fn lemma_screen_triangle_wf(m: Mat4, vs: [Vertex; 3], width: int, height: int)
    requires
        0 <= width <= VIEWPORT_LIMIT,
        0 <= height <= VIEWPORT_LIMIT,
    ensures
        screen_triangle(m, vs, width, height) matches Some(t) ==> t.wf(),
{
    lemma_project_wf(m, vs[0], width, height);
    lemma_project_wf(m, vs[1], width, height);
    lemma_project_wf(m, vs[2], width, height);
}

/// Swapping two corners reverses the winding: the signed area changes sign.
pub proof fn lemma_reversed_winding(t: ScreenTriangle)
    ensures
        area(ScreenTriangle { v0: t.v0, v1: t.v2, v2: t.v1 }) == -area(t),
{
    let (ax, ay, bx, by, cx, cy) = (
        t.v0.pos.x as int,
        t.v0.pos.y as int,
        t.v1.pos.x as int,
        t.v1.pos.y as int,
        t.v2.pos.x as int,
        t.v2.pos.y as int,
    );
    assert((bx - ax) * (cy - ay) - (by - ay) * (cx - ax) == -((cx - ax) * (by - ay) - (cy - ay) * (bx - ax)))
        by (nonlinear_arith);
}

/// A back-facing (or degenerate) triangle writes no pixel: both buffers come
/// back unchanged.
pub proof fn lemma_back_facing_writes_nothing(
    t: ScreenTriangle,
    texture: Option<&Texture>,
    width: int,
    height: int,
    region: Tile,
    c: Seq<u32>,
    z: Seq<u32>,
)
    requires
        area(t) <= 0,
        c.len() == z.len(),
    ensures
        raster_colors(Some(t), texture, width, height, region, c, z) == c,
        raster_depths(Some(t), texture, width, height, region, c, z) == z,
{
    assert(raster_colors(Some(t), texture, width, height, region, c, z) =~= c);
    assert(raster_depths(Some(t), texture, width, height, region, c, z) =~= z);
}

/// Drawing the same triangle a second time changes nothing: every pixel it
/// wrote now holds its own depth, which does not pass the strict depth test.
pub proof fn lemma_raster_idempotent(
    st: Option<ScreenTriangle>,
    texture: Option<&Texture>,
    width: int,
    height: int,
    region: Tile,
    c: Seq<u32>,
    z: Seq<u32>,
)
    requires
        st matches Some(t) ==> t.wf(),
        c.len() == z.len(),
    ensures
        ({
            let c1 = raster_colors(st, texture, width, height, region, c, z);
            let z1 = raster_depths(st, texture, width, height, region, c, z);
            &&& raster_colors(st, texture, width, height, region, c1, z1) == c1
            &&& raster_depths(st, texture, width, height, region, c1, z1) == z1
        }),
{
    let c1 = raster_colors(st, texture, width, height, region, c, z);
    let z1 = raster_depths(st, texture, width, height, region, c, z);
    assert forall|i: int| 0 <= i < c.len() implies fill_pixel(
        st,
        texture,
        width,
        height,
        region.px(i),
        region.py(i),
        c1[i],
        z1[i],
    ) == (c1[i], z1[i]) by {
        lemma_fill_pixel_idempotent(st, texture, width, height, region.px(i), region.py(i), c[i], z[i]);
    }
    assert(raster_colors(st, texture, width, height, region, c1, z1) =~= c1);
    assert(raster_depths(st, texture, width, height, region, c1, z1) =~= z1);
}

/// Drawing a triangle over a pixel twice is the same as drawing it once.
pub proof fn lemma_fill_pixel_idempotent(
    st: Option<ScreenTriangle>,
    texture: Option<&Texture>,
    width: int,
    height: int,
    x: int,
    y: int,
    c: u32,
    z: u32,
)
    requires
        st matches Some(t) ==> t.wf(),
    ensures
        ({
            let once = fill_pixel(st, texture, width, height, x, y, c, z);
            fill_pixel(st, texture, width, height, x, y, once.0, once.1) == once
        }),
{
    if let Some(t) = st {
        if passes(t, width, height, x, y, z) {
            let w = pixel_weights(t, x, y);
            lemma_weights_sum(pixel_center(x, y), t.v0.pos, t.v1.pos, t.v2.pos);
            lemma_weight_bounds(t, w);
        }
    }
}

/// Occlusion: where two front-facing triangles cover the same on-screen pixel
/// of a buffer not yet drawn nearer than either, the nearer one (smaller depth
/// key) ends up visible whichever is drawn first.
pub proof fn lemma_nearer_wins(
    near: ScreenTriangle,
    far: ScreenTriangle,
    texture: Option<&Texture>,
    width: int,
    height: int,
    x: int,
    y: int,
    c: u32,
    z: u32,
)
    requires
        near.wf(),
        far.wf(),
        area(near) > 0,
        area(far) > 0,
        0 <= x < width,
        0 <= y < height,
        covers(near, x, y),
        covers(far, x, y),
        depth_of(near, pixel_weights(near, x, y)) < depth_of(far, pixel_weights(far, x, y)),
        depth_of(far, pixel_weights(far, x, y)) < z,
    ensures
        ({
            let a = fill_pixel(Some(far), texture, width, height, x, y, c, z);
            let b = fill_pixel(Some(near), texture, width, height, x, y, a.0, a.1);
            b.0 == shade_of(near, texture, pixel_weights(near, x, y))
        }),
        ({
            let a = fill_pixel(Some(near), texture, width, height, x, y, c, z);
            let b = fill_pixel(Some(far), texture, width, height, x, y, a.0, a.1);
            b.0 == shade_of(near, texture, pixel_weights(near, x, y))
        }),
{
    lemma_weights_sum(pixel_center(x, y), near.v0.pos, near.v1.pos, near.v2.pos);
    lemma_weights_sum(pixel_center(x, y), far.v0.pos, far.v1.pos, far.v2.pos);
    lemma_weight_bounds(near, pixel_weights(near, x, y));
    lemma_weight_bounds(far, pixel_weights(far, x, y));
}

/// The centroid of a front-facing triangle is covered, with three equal
/// weights that together make up the whole (doubled) area; so when the
/// centroid is a pixel center on screen, a cleared pixel there is drawn.
pub proof fn lemma_centroid_covered(t: ScreenTriangle, width: int, height: int, x: int, y: int)
    requires
        t.wf(),
        area(t) > 0,
        3 * center_coord(x) == t.v0.pos.x + t.v1.pos.x + t.v2.pos.x,
        3 * center_coord(y) == t.v0.pos.y + t.v1.pos.y + t.v2.pos.y,
        0 <= x < width,
        0 <= y < height,
        width <= VIEWPORT_LIMIT,
        height <= VIEWPORT_LIMIT,
    ensures
        covers(t, x, y),
        3 * pixel_weights(t, x, y).0 == area(t),
        3 * pixel_weights(t, x, y).1 == area(t),
        3 * pixel_weights(t, x, y).2 == area(t),
        passes(t, width, height, x, y, u32::MAX),
{
    let p = pixel_center(x, y);
    let (px, py) = (p.x as int, p.y as int);
    assert(px == center_coord(x) && py == center_coord(y));
    let (ax, ay, bx, by, cx, cy) = (
        t.v0.pos.x as int,
        t.v0.pos.y as int,
        t.v1.pos.x as int,
        t.v1.pos.y as int,
        t.v2.pos.x as int,
        t.v2.pos.y as int,
    );
    let ar = (cx - ax) * (by - ay) - (cy - ay) * (bx - ax);
    let m0 = (cx - px) * (by - py) - (cy - py) * (bx - px);
    let m1 = (ax - px) * (cy - py) - (ay - py) * (cx - px);
    let m2 = (bx - px) * (ay - py) - (by - py) * (ax - px);
    assert(3 * m0 == ar) by (nonlinear_arith)
        requires
            3 * px == ax + bx + cx,
            3 * py == ay + by + cy,
            m0 == (cx - px) * (by - py) - (cy - py) * (bx - px),
            ar == (cx - ax) * (by - ay) - (cy - ay) * (bx - ax),
    ;
    assert(3 * m1 == ar) by (nonlinear_arith)
        requires
            3 * px == ax + bx + cx,
            3 * py == ay + by + cy,
            m1 == (ax - px) * (cy - py) - (ay - py) * (cx - px),
            ar == (cx - ax) * (by - ay) - (cy - ay) * (bx - ax),
    ;
    assert(3 * m2 == ar) by (nonlinear_arith)
        requires
            3 * px == ax + bx + cx,
            3 * py == ay + by + cy,
            m2 == (bx - px) * (ay - py) - (by - py) * (ax - px),
            ar == (cx - ax) * (by - ay) - (cy - ay) * (bx - ax),
    ;
    lemma_weights_sum(p, t.v0.pos, t.v1.pos, t.v2.pos);
    lemma_weight_bounds(t, pixel_weights(t, x, y));
}

} // verus!
