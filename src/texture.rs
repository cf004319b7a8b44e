use vstd::prelude::*;
use crate::utilities::{argb, to_argb};

verus! {

/// Fixed-point scale of texture coordinates: `UV_ONE` stands for 1.0.
pub const UV_ONE: i32 = 0x10000;

/// The color returned for a texel index outside the texel array.
pub open spec fn missing_texel() -> u32 {
    argb(255, 255, 0, 255)
}

/// A decoded image: `width * height` packed colors, row by row.
pub struct Texture {
    pub width: usize,
    pub height: usize,
    pub data: Vec<u32>,
}

/// The texel column (or row) that wraps `t` into one period and scales it onto
/// `[0, extent - 1]`.
pub open spec fn texel_coord(t: int, extent: int) -> int {
    (t % (UV_ONE as int)) * (extent - 1) / (UV_ONE as int)
}

/// The packed color of the texel that `(u, v)` falls on.
pub open spec fn sample_at(width: int, height: int, data: Seq<u32>, u: int, v: int) -> u32 {
    let id = texel_coord(u, width) + texel_coord(v, height) * width;
    if width == 0 || height == 0 || id >= data.len() {
        missing_texel()
    } else {
        data[id]
    }
}

impl Texture {
    pub open spec fn sample(&self, u: int, v: int) -> u32 {
        sample_at(self.width as int, self.height as int, self.data@, u, v)
    }

    /// Builds a texture from interleaved 8-bit red, green and blue samples,
    /// three bytes per texel, fully opaque.
    pub fn from_rgb(width: usize, height: usize, rgb: &Vec<u8>) -> (tex: Texture)
        ensures
            tex.width == width,
            tex.height == height,
            tex.data@.len() == rgb@.len() / 3,
            forall|i: int|
                0 <= i < tex.data@.len() ==> tex.data@[i] == argb(
                    255,
                    rgb@[3 * i],
                    rgb@[3 * i + 1],
                    rgb@[3 * i + 2],
                ),
    {
        let len = rgb.len();
        let n = len / 3;
        let mut data: Vec<u32> = Vec::with_capacity(n);
        let mut id: usize = 0;
        while id < n
            invariant
                0 <= id <= n,
                len == rgb@.len(),
                n == len / 3,
                data@.len() == id,
                forall|i: int|
                    0 <= i < id ==> data@[i] == argb(255, rgb@[3 * i], rgb@[3 * i + 1], rgb@[3 * i + 2]),
            decreases n - id,
        {
            assert(id * 3 + 2 < len);
            let c = to_argb(255, rgb[id * 3], rgb[id * 3 + 1], rgb[id * 3 + 2]);
            data.push(c);
            id += 1;
        }
        Texture { width, height, data }
    }

    /// Nearest-texel lookup with repeat wrapping; `u` and `v` are fixed-point
    /// with `UV_ONE` standing for 1.0. An index outside the texel array gives
    /// the magenta `missing_texel()` instead of failing.
    pub fn argb_at_uv(&self, u: i32, v: i32) -> (c: u32)
        ensures
            c == self.sample(u as int, v as int),
    {
        if self.width == 0 || self.height == 0 {
            return to_argb(255, 255, 0, 255);
        }
        let uw: i32 = match u.checked_rem_euclid(UV_ONE) {
            Some(r) => r,
            None => 0,
        };
        let vw: i32 = match v.checked_rem_euclid(UV_ONE) {
            Some(r) => r,
            None => 0,
        };
        assert((uw as int) * ((self.width - 1) as int) < 0x1_0000_0000_0000_0000_0000) by (nonlinear_arith)
            requires
                0 <= uw < 0x10000,
                0 <= self.width - 1 < 0x1_0000_0000_0000_0000,
        ;
        assert((vw as int) * ((self.height - 1) as int) < 0x1_0000_0000_0000_0000_0000) by (nonlinear_arith)
            requires
                0 <= vw < 0x10000,
                0 <= self.height - 1 < 0x1_0000_0000_0000_0000,
        ;
        let xa: u128 = (uw as u128) * ((self.width - 1) as u128);
        let ya: u128 = (vw as u128) * ((self.height - 1) as u128);
        let x: u128 = xa / 0x10000;
        let y: u128 = ya / 0x10000;
        assert(x < self.width) by (nonlinear_arith)
            requires
                0 <= uw < 0x10000,
                xa == uw * (self.width - 1),
                x == xa / 0x10000,
                self.width >= 1,
        ;
        assert(y < self.height) by (nonlinear_arith)
            requires
                0 <= vw < 0x10000,
                ya == vw * (self.height - 1),
                y == ya / 0x10000,
                self.height >= 1,
        ;
        assert(x + y * self.width < self.width * self.height) by (nonlinear_arith)
            requires
                x < self.width,
                y < self.height,
        ;
        assert(self.width * self.height <= 0xffff_ffff_ffff_ffff_ffff_ffff_ffff_ffffu128) by (nonlinear_arith)
            requires
                self.width <= usize::MAX,
                self.height <= usize::MAX,
                usize::MAX <= 0xffff_ffff_ffff_ffffu64,
        ;
        let id: u128 = x + y * (self.width as u128);
        if id < self.data.len() as u128 {
            self.data[id as usize]
        } else {
            to_argb(255, 255, 0, 255)
        }
    }
}

/// Sampling is periodic in both coordinates: shifting `u` or `v` by a whole
/// number of texture repeats does not change the texel.
pub proof fn lemma_sample_wraps(tex: &Texture, u: int, v: int, du: int, dv: int)
    ensures
        tex.sample(u + du * (UV_ONE as int), v + dv * (UV_ONE as int)) == tex.sample(u, v),
{
    let one = UV_ONE as int;
    assert((u + du * one) % one == u % one) by {
        vstd::arithmetic::div_mod::lemma_mod_multiples_vanish(du, u, one);
        assert(du * one + u == u + du * one);
    }
    assert((v + dv * one) % one == v % one) by {
        vstd::arithmetic::div_mod::lemma_mod_multiples_vanish(dv, v, one);
        assert(dv * one + v == v + dv * one);
    }
}

} // verus!
