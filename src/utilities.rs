use vstd::prelude::*;

verus! {

/// Largest magnitude of a screen coordinate (in sub-pixel units) that the
/// edge function accepts; it keeps every product inside `i64`.
pub const COORD_LIMIT: i64 = 0x2000_0000;

/// A point in screen space, measured in sub-pixel units.
#[derive(Clone, Copy, Debug, PartialEq, Eq)]
pub struct Point {
    pub x: i64,
    pub y: i64,
}

impl Point {
    pub open spec fn bounded(self) -> bool {
        -COORD_LIMIT <= self.x <= COORD_LIMIT && -COORD_LIMIT <= self.y <= COORD_LIMIT
    }
}

/// Packs four 8-bit channels into one `0xAARRGGBB` word.
pub open spec fn argb(a: u8, r: u8, g: u8, b: u8) -> u32 {
    (a as int * 0x1000000 + r as int * 0x10000 + g as int * 0x100 + b as int) as u32
}

/// The alpha, red, green and blue channels of a packed color.
pub open spec fn alpha_of(c: u32) -> u8 {
    (c / 0x1000000) as u8
}

pub open spec fn red_of(c: u32) -> u8 {
    (c / 0x10000 % 0x100) as u8
}

pub open spec fn green_of(c: u32) -> u8 {
    (c / 0x100 % 0x100) as u8
}

pub open spec fn blue_of(c: u32) -> u8 {
    (c % 0x100) as u8
}

/// Linear remap of `v` from the range `[a1, a2]` onto `[b1, b2]`, rounded down.
pub open spec fn map_range(v: int, a1: int, a2: int, b1: int, b2: int) -> int {
    b1 + (v - a1) * (b2 - b1) / (a2 - a1)
}

/// Twice the signed area of the triangle `(v0, v1, point)`.
pub open spec fn edge(v0: Point, v1: Point, point: Point) -> int {
    (point.x - v0.x) * (v1.y - v0.y) - (point.y - v0.y) * (v1.x - v0.x)
}

/// The three barycentric weights of `point`, each scaled by the triangle's area.
pub open spec fn weights(point: Point, v0: Point, v1: Point, v2: Point) -> (int, int, int) {
    (edge(point, v1, v2), edge(point, v2, v0), edge(point, v0, v1))
}

/// `point` lies inside or on the border of the triangle.
pub open spec fn inside(point: Point, v0: Point, v1: Point, v2: Point) -> bool {
    let w = weights(point, v0, v1, v2);
    w.0 >= 0 && w.1 >= 0 && w.2 >= 0
}

pub fn to_argb(a: u8, r: u8, g: u8, b: u8) -> (color: u32)
    ensures
        color == argb(a, r, g, b),
{
    let mut color: u32 = a as u32;
    color = color * 256 + r as u32;
    color = color * 256 + g as u32;
    color = color * 256 + b as u32;
    color
}

/// Unpacking a packed color gives back the channels it was packed from.
pub proof fn lemma_argb_channels(a: u8, r: u8, g: u8, b: u8)
    ensures
        alpha_of(argb(a, r, g, b)) == a,
        red_of(argb(a, r, g, b)) == r,
        green_of(argb(a, r, g, b)) == g,
        blue_of(argb(a, r, g, b)) == b,
{
    let c: int = a as int * 0x1000000 + r as int * 0x10000 + g as int * 0x100 + b as int;
    assert(c / 0x1000000 == a as int);
    assert(c / 0x10000 == a as int * 0x100 + r as int);
    assert(c / 0x100 == a as int * 0x10000 + r as int * 0x100 + g as int);
    assert((a as int * 0x100 + r as int) % 0x100 == r as int);
    assert((a as int * 0x10000 + r as int * 0x100 + g as int) % 0x100 == g as int);
    assert(c % 0x100 == b as int);
}

pub fn coords_to_index(u: usize, v: usize, width: usize) -> (index: usize)
    requires
        u + v * width <= usize::MAX,
    ensures
        index == u + v * width,
{
    u + v * width
}

/// Remaps `v` linearly from `[a1, a2]` onto `[b1, b2]`; the result is rounded
/// towards negative infinity.
pub fn map_to_range(v: i64, a1: i64, a2: i64, b1: i64, b2: i64) -> (r: i64)
    requires
        a1 < a2,
        i128::MIN <= (v - a1) * (b2 - b1) <= i128::MAX,
        i64::MIN <= map_range(v as int, a1 as int, a2 as int, b1 as int, b2 as int) <= i64::MAX,
    ensures
        r == map_range(v as int, a1 as int, a2 as int, b1 as int, b2 as int),
{
    let num: i128 = (v as i128 - a1 as i128) * (b2 as i128 - b1 as i128);
    let den: i128 = a2 as i128 - a1 as i128;
    let q: i128 = match num.checked_div_euclid(den) {
        Some(q) => q,
        None => 0,
    };
    (b1 as i128 + q) as i64
}

/// Sets every element of `buffer` to `value`.
pub fn clear_buffer<T: Copy>(buffer: &mut Vec<T>, value: T)
    ensures
        final(buffer)@.len() == old(buffer)@.len(),
        forall|i: int| 0 <= i < final(buffer)@.len() ==> final(buffer)@[i] == value,
{
    let n = buffer.len();
    let mut i: usize = 0;
    while i < n
        invariant
            0 <= i <= n,
            n == buffer@.len(),
            forall|j: int| 0 <= j < i ==> buffer@[j] == value,
        decreases n - i,
    {
        buffer.set(i, value);
        i += 1;
    }
}

/// Unpacks each `0xAARRGGBB` pixel into four bytes in the order red, green,
/// blue, alpha.
pub fn convert_framebuffer_to_image(framebuffer: &[u32], image_data: &mut [u8])
    requires
        4 * framebuffer@.len() <= old(image_data)@.len(),
    ensures
        final(image_data)@.len() == old(image_data)@.len(),
        forall|i: int|
            #![trigger framebuffer@[i]]
            0 <= i < framebuffer@.len() ==> {
                &&& final(image_data)@[4 * i] == red_of(framebuffer@[i])
                &&& final(image_data)@[4 * i + 1] == green_of(framebuffer@[i])
                &&& final(image_data)@[4 * i + 2] == blue_of(framebuffer@[i])
                &&& final(image_data)@[4 * i + 3] == alpha_of(framebuffer@[i])
            },
        forall|k: int|
            4 * framebuffer@.len() <= k < old(image_data)@.len() ==> final(image_data)@[k]
                == old(image_data)@[k],
{
    let n = framebuffer.len();
    let len = image_data.len();
    let mut i: usize = 0;
    while i < n
        invariant
            0 <= i <= n,
            n == framebuffer@.len(),
            len == image_data@.len(),
            4 * n <= len,
            image_data@.len() == old(image_data)@.len(),
            forall|j: int|
                #![trigger framebuffer@[j]]
                0 <= j < i ==> {
                    &&& image_data@[4 * j] == red_of(framebuffer@[j])
                    &&& image_data@[4 * j + 1] == green_of(framebuffer@[j])
                    &&& image_data@[4 * j + 2] == blue_of(framebuffer@[j])
                    &&& image_data@[4 * j + 3] == alpha_of(framebuffer@[j])
                },
            forall|k: int| 4 * i <= k < image_data@.len() ==> image_data@[k] == old(image_data)@[k],
        decreases n - i,
    {
        let pixel = framebuffer[i];
        let a = (pixel / 0x1000000) as u8;
        let r = (pixel / 0x10000 % 0x100) as u8;
        let g = (pixel / 0x100 % 0x100) as u8;
        let b = (pixel % 0x100) as u8;
        assert(i * 4 + 3 < len);
        let byte_index = i * 4;
        image_data[byte_index] = r;
        image_data[byte_index + 1] = g;
        image_data[byte_index + 2] = b;
        image_data[byte_index + 3] = a;
        i += 1;
    }
}

/// Twice the signed area of the triangle `(v0, v1, point)`: positive when the
/// three points turn one way, negative the other, zero when they are collinear.
pub fn edge_function(v0: Point, v1: Point, point: Point) -> (r: i64)
    requires
        v0.bounded(),
        v1.bounded(),
        point.bounded(),
    ensures
        r == edge(v0, v1, point),
{
    let dx = point.x - v0.x;
    let dy = point.y - v0.y;
    let ex = v1.x - v0.x;
    let ey = v1.y - v0.y;
    assert(-0x4000_0000 <= dx <= 0x4000_0000 && -0x4000_0000 <= ey <= 0x4000_0000);
    assert(-0x4000_0000 <= dy <= 0x4000_0000 && -0x4000_0000 <= ex <= 0x4000_0000);
    proof {
        lemma_mul_abs_bound(dx as int, ey as int, 0x4000_0000);
        lemma_mul_abs_bound(dy as int, ex as int, 0x4000_0000);
    }
    let p = dx * ey;
    let q = dy * ex;
    p - q
}

/// `|a * b| <= k * k` whenever `|a|` and `|b|` are at most `k`.
pub proof fn lemma_mul_abs_bound(a: int, b: int, k: int)
    requires
        -k <= a <= k,
        -k <= b <= k,
    ensures
        -(k * k) <= a * b <= k * k,
{
    assert(-(k * k) <= a * b <= k * k) by (nonlinear_arith)
        requires
            -k <= a <= k,
            -k <= b <= k,
    ;
}

/// The barycentric weights of `point` scaled by the triangle's area, or `None`
/// when `point` lies outside the triangle.
pub fn barycentric_coordinates(point: Point, v0: Point, v1: Point, v2: Point) -> (r: Option<(i64, i64, i64)>)
    requires
        point.bounded(),
        v0.bounded(),
        v1.bounded(),
        v2.bounded(),
    ensures
        r.is_some() <==> inside(point, v0, v1, v2),
        r.is_some() ==> {
            let w = weights(point, v0, v1, v2);
            r.unwrap() == (w.0 as i64, w.1 as i64, w.2 as i64) && r.unwrap().0 == w.0
                && r.unwrap().1 == w.1 && r.unwrap().2 == w.2
        },
{
    let m0 = edge_function(point, v1, v2);
    let m1 = edge_function(point, v2, v0);
    let m2 = edge_function(point, v0, v1);
    if m0 >= 0 && m1 >= 0 && m2 >= 0 {
        Some((m0, m1, m2))
    } else {
        None
    }
}

/// The three scaled weights of any point add up to the triangle's doubled
/// area: normalised by that area they sum to one.
pub proof fn lemma_weights_sum(point: Point, v0: Point, v1: Point, v2: Point)
    ensures
        weights(point, v0, v1, v2).0 + weights(point, v0, v1, v2).1 + weights(point, v0, v1, v2).2
            == edge(v0, v1, v2),
{
    let (px, py) = (point.x as int, point.y as int);
    let (ax, ay, bx, by, cx, cy) = (
        v0.x as int,
        v0.y as int,
        v1.x as int,
        v1.y as int,
        v2.x as int,
        v2.y as int,
    );
    assert((cx - px) * (by - py) - (cy - py) * (bx - px) + ((ax - px) * (cy - py) - (ay - py) * (cx
        - px)) + ((bx - px) * (ay - py) - (by - py) * (ax - px)) == (cx - ax) * (by - ay) - (cy - ay)
        * (bx - ax)) by (nonlinear_arith);
}

} // verus!
