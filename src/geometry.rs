use vstd::prelude::*;

verus! {

/// Fixed-point scale of positions, normals, colors and matrix entries:
/// `ONE` stands for 1.0.
pub const ONE: i32 = 0x10000;

#[derive(Clone, Copy, Debug, PartialEq, Eq)]
pub struct Vec2 {
    pub x: i32,
    pub y: i32,
}

#[derive(Clone, Copy, Debug, PartialEq, Eq)]
pub struct Vec3 {
    pub x: i32,
    pub y: i32,
    pub z: i32,
}

#[derive(Clone, Copy, Debug, PartialEq, Eq)]
pub struct Vec4 {
    pub x: i32,
    pub y: i32,
    pub z: i32,
    pub w: i32,
}

/// Three vertex indices, counter-clockwise in the source convention.
#[derive(Clone, Copy, Debug, PartialEq, Eq)]
pub struct UVec3 {
    pub x: u32,
    pub y: u32,
    pub z: u32,
}

/// A 4x4 matrix stored as four columns, as a matrix acting on column vectors.
#[derive(Clone, Copy, Debug, PartialEq, Eq)]
pub struct Mat4 {
    pub x_axis: Vec4,
    pub y_axis: Vec4,
    pub z_axis: Vec4,
    pub w_axis: Vec4,
}

/// A position in clip space, fixed-point with `ONE` standing for 1.0.
#[derive(Clone, Copy, Debug, PartialEq, Eq)]
pub struct Clip {
    pub x: i64,
    pub y: i64,
    pub z: i64,
    pub w: i64,
}

#[derive(Clone, Copy, Debug, PartialEq, Eq)]
pub struct Vertex {
    pub position: Vec4,
    pub normal: Vec3,
    pub color: Vec3,
    pub uv: Vec2,
}

/// One row of `m * p`, rescaled to `ONE` and rounded down.
pub open spec fn dot_row(a: int, b: int, c: int, d: int, p: Vec4) -> int {
    (a * p.x + b * p.y + c * p.z + d * p.w) / (ONE as int)
}

pub open spec fn mul_vec4(m: Mat4, p: Vec4) -> Clip {
    Clip {
        x: dot_row(m.x_axis.x as int, m.y_axis.x as int, m.z_axis.x as int, m.w_axis.x as int, p) as i64,
        y: dot_row(m.x_axis.y as int, m.y_axis.y as int, m.z_axis.y as int, m.w_axis.y as int, p) as i64,
        z: dot_row(m.x_axis.z as int, m.y_axis.z as int, m.z_axis.z as int, m.w_axis.z as int, p) as i64,
        w: dot_row(m.x_axis.w as int, m.y_axis.w as int, m.z_axis.w as int, m.w_axis.w as int, p) as i64,
    }
}

/// Each row of a matrix-vector product stays well inside `i64`.
pub proof fn lemma_dot_row_bounds(a: i32, b: i32, c: i32, d: i32, p: Vec4)
    ensures
        -0x1_0000_0000_0000 <= dot_row(a as int, b as int, c as int, d as int, p)
            <= 0x1_0000_0000_0000,
        -0x4_0000_0000_0000_0000 <= a * p.x + b * p.y + c * p.z + d * p.w
            <= 0x4_0000_0000_0000_0000,
{
    let k: int = 0x8000_0000;
    crate::utilities::lemma_mul_abs_bound(a as int, p.x as int, k);
    crate::utilities::lemma_mul_abs_bound(b as int, p.y as int, k);
    crate::utilities::lemma_mul_abs_bound(c as int, p.z as int, k);
    crate::utilities::lemma_mul_abs_bound(d as int, p.w as int, k);
    let s = a * p.x + b * p.y + c * p.z + d * p.w;
    assert(-0x4_0000_0000_0000_0000 <= s <= 0x4_0000_0000_0000_0000);
    let q = s / (ONE as int);
    assert(-0x1_0000_0000_0000 <= q <= 0x1_0000_0000_0000) by {
        vstd::arithmetic::div_mod::lemma_fundamental_div_mod(s, ONE as int);
    }
}

/// `(a * x + b * y + c * z + d * w) / ONE`, rounded down.
fn dot_row_exec(a: i32, b: i32, c: i32, d: i32, p: Vec4) -> (r: i64)
    ensures
        r == dot_row(a as int, b as int, c as int, d as int, p),
{
    proof {
        lemma_dot_row_bounds(a, b, c, d, p);
        let k: int = 0x8000_0000;
        crate::utilities::lemma_mul_abs_bound(a as int, p.x as int, k);
        crate::utilities::lemma_mul_abs_bound(b as int, p.y as int, k);
        crate::utilities::lemma_mul_abs_bound(c as int, p.z as int, k);
        crate::utilities::lemma_mul_abs_bound(d as int, p.w as int, k);
    }
    let s0: i128 = a as i128 * p.x as i128;
    let s1: i128 = b as i128 * p.y as i128;
    let s2: i128 = c as i128 * p.z as i128;
    let s3: i128 = d as i128 * p.w as i128;
    let s: i128 = s0 + s1 + s2 + s3;
    let q: i128 = match s.checked_div_euclid(ONE as i128) {
        Some(q) => q,
        None => 0,
    };
    q as i64
}

impl Mat4 {
    pub fn identity() -> (m: Mat4)
        ensures
            forall|p: Vec4|
                #![trigger mul_vec4(m, p)]
                mul_vec4(m, p) == (Clip { x: p.x as i64, y: p.y as i64, z: p.z as i64, w: p.w as i64 }),
    {
        let m = Mat4 {
            x_axis: Vec4 { x: ONE, y: 0, z: 0, w: 0 },
            y_axis: Vec4 { x: 0, y: ONE, z: 0, w: 0 },
            z_axis: Vec4 { x: 0, y: 0, z: ONE, w: 0 },
            w_axis: Vec4 { x: 0, y: 0, z: 0, w: ONE },
        };
        assert forall|p: Vec4|
            #![trigger mul_vec4(m, p)]
            mul_vec4(m, p) == (Clip { x: p.x as i64, y: p.y as i64, z: p.z as i64, w: p.w as i64 }) by {
            vstd::arithmetic::div_mod::lemma_div_multiples_vanish(p.x as int, ONE as int);
            vstd::arithmetic::div_mod::lemma_div_multiples_vanish(p.y as int, ONE as int);
            vstd::arithmetic::div_mod::lemma_div_multiples_vanish(p.z as int, ONE as int);
            vstd::arithmetic::div_mod::lemma_div_multiples_vanish(p.w as int, ONE as int);
            assert(ONE * p.x == p.x * ONE);
            assert(ONE * p.y == p.y * ONE);
            assert(ONE * p.z == p.z * ONE);
            assert(ONE * p.w == p.w * ONE);
        }
        m
    }

    /// The clip-space image `self * p`.
    pub fn transform(&self, p: Vec4) -> (c: Clip)
        ensures
            c == mul_vec4(*self, p),
    {
        let m = self;
        proof {
            lemma_dot_row_bounds(m.x_axis.x, m.y_axis.x, m.z_axis.x, m.w_axis.x, p);
            lemma_dot_row_bounds(m.x_axis.y, m.y_axis.y, m.z_axis.y, m.w_axis.y, p);
            lemma_dot_row_bounds(m.x_axis.z, m.y_axis.z, m.z_axis.z, m.w_axis.z, p);
            lemma_dot_row_bounds(m.x_axis.w, m.y_axis.w, m.z_axis.w, m.w_axis.w, p);
        }
        Clip {
            x: dot_row_exec(m.x_axis.x, m.y_axis.x, m.z_axis.x, m.w_axis.x, p),
            y: dot_row_exec(m.x_axis.y, m.y_axis.y, m.z_axis.y, m.w_axis.y, p),
            z: dot_row_exec(m.x_axis.z, m.y_axis.z, m.z_axis.z, m.w_axis.z, p),
            w: dot_row_exec(m.x_axis.w, m.y_axis.w, m.z_axis.w, m.w_axis.w, p),
        }
    }
}

/// `a` fits in an `i32`.
pub open spec fn fits(a: int) -> bool {
    i32::MIN <= a <= i32::MAX
}

/// `a` times the fixed-point factor `k`, rounded down.
pub open spec fn scaled(a: int, k: int) -> int {
    a * k / (ONE as int)
}

fn add_i32(a: i32, b: i32) -> (r: i32)
    requires
        fits(a + b),
    ensures
        r == a + b,
{
    a + b
}

fn sub_i32(a: i32, b: i32) -> (r: i32)
    requires
        fits(a - b),
    ensures
        r == a - b,
{
    a - b
}

fn scale_i32(a: i32, k: i32) -> (r: i32)
    requires
        fits(scaled(a as int, k as int)),
    ensures
        r == scaled(a as int, k as int),
{
    proof {
        crate::utilities::lemma_mul_abs_bound(a as int, k as int, 0x8000_0000);
    }
    let p: i64 = a as i64 * k as i64;
    let q: i64 = match p.checked_div_euclid(ONE as i64) {
        Some(q) => q,
        None => 0,
    };
    q as i32
}

impl Vertex {
    pub fn new(position: Vec4, normal: Vec3, color: Vec3, uv: Vec2) -> (v: Vertex)
        ensures
            v == (Vertex { position, normal, color, uv }),
    {
        Vertex { position, normal, color, uv }
    }

    /// The twelve components in a fixed order: position, normal, color, uv.
    pub open spec fn components(self) -> Seq<int> {
        seq![
            self.position.x as int, self.position.y as int, self.position.z as int, self.position.w as int,
            self.normal.x as int, self.normal.y as int, self.normal.z as int,
            self.color.x as int, self.color.y as int, self.color.z as int,
            self.uv.x as int, self.uv.y as int,
        ]
    }

    /// Component-wise sum; every sum must fit in an `i32`.
    pub fn add(self, rhs: Vertex) -> (r: Vertex)
        requires
            forall|i: int| 0 <= i < 12 ==> fits(#[trigger] self.components()[i] + rhs.components()[i]),
        ensures
            forall|i: int| 0 <= i < 12 ==> #[trigger] r.components()[i] == self.components()[i] + rhs.components()[i],
    {
        let (a, b) = (self, rhs);
        assert(fits(a.components()[0] + b.components()[0]) && fits(a.components()[1] + b.components()[1]) && fits(a.components()[2] + b.components()[2]) && fits(a.components()[3] + b.components()[3]));
        assert(fits(a.components()[4] + b.components()[4]) && fits(a.components()[5] + b.components()[5]) && fits(a.components()[6] + b.components()[6]));
        assert(fits(a.components()[7] + b.components()[7]) && fits(a.components()[8] + b.components()[8]) && fits(a.components()[9] + b.components()[9]));
        assert(fits(a.components()[10] + b.components()[10]) && fits(a.components()[11] + b.components()[11]));
        Vertex {
            position: Vec4 {
                x: add_i32(a.position.x, b.position.x),
                y: add_i32(a.position.y, b.position.y),
                z: add_i32(a.position.z, b.position.z),
                w: add_i32(a.position.w, b.position.w),
            },
            normal: Vec3 {
                x: add_i32(a.normal.x, b.normal.x),
                y: add_i32(a.normal.y, b.normal.y),
                z: add_i32(a.normal.z, b.normal.z),
            },
            color: Vec3 {
                x: add_i32(a.color.x, b.color.x),
                y: add_i32(a.color.y, b.color.y),
                z: add_i32(a.color.z, b.color.z),
            },
            uv: Vec2 { x: add_i32(a.uv.x, b.uv.x), y: add_i32(a.uv.y, b.uv.y) },
        }
    }

    /// Component-wise difference; every difference must fit in an `i32`.
    pub fn sub(self, rhs: Vertex) -> (r: Vertex)
        requires
            forall|i: int| 0 <= i < 12 ==> fits(#[trigger] self.components()[i] - rhs.components()[i]),
        ensures
            forall|i: int| 0 <= i < 12 ==> #[trigger] r.components()[i] == self.components()[i] - rhs.components()[i],
    {
        let (a, b) = (self, rhs);
        assert(fits(a.components()[0] - b.components()[0]) && fits(a.components()[1] - b.components()[1]) && fits(a.components()[2] - b.components()[2]) && fits(a.components()[3] - b.components()[3]));
        assert(fits(a.components()[4] - b.components()[4]) && fits(a.components()[5] - b.components()[5]) && fits(a.components()[6] - b.components()[6]));
        assert(fits(a.components()[7] - b.components()[7]) && fits(a.components()[8] - b.components()[8]) && fits(a.components()[9] - b.components()[9]));
        assert(fits(a.components()[10] - b.components()[10]) && fits(a.components()[11] - b.components()[11]));
        Vertex {
            position: Vec4 {
                x: sub_i32(a.position.x, b.position.x),
                y: sub_i32(a.position.y, b.position.y),
                z: sub_i32(a.position.z, b.position.z),
                w: sub_i32(a.position.w, b.position.w),
            },
            normal: Vec3 {
                x: sub_i32(a.normal.x, b.normal.x),
                y: sub_i32(a.normal.y, b.normal.y),
                z: sub_i32(a.normal.z, b.normal.z),
            },
            color: Vec3 {
                x: sub_i32(a.color.x, b.color.x),
                y: sub_i32(a.color.y, b.color.y),
                z: sub_i32(a.color.z, b.color.z),
            },
            uv: Vec2 { x: sub_i32(a.uv.x, b.uv.x), y: sub_i32(a.uv.y, b.uv.y) },
        }
    }

    /// Every component times the fixed-point factor `k` (`ONE` is 1.0),
    /// rounded down; every product must fit in an `i32`.
    pub fn scale(self, k: i32) -> (r: Vertex)
        requires
            forall|i: int| 0 <= i < 12 ==> fits(scaled(#[trigger] self.components()[i], k as int)),
        ensures
            forall|i: int| 0 <= i < 12 ==> #[trigger] r.components()[i] == scaled(self.components()[i], k as int),
    {
        let a = self;
        assert(fits(scaled(a.components()[0], k as int)) && fits(scaled(a.components()[1], k as int)) && fits(scaled(a.components()[2], k as int)) && fits(scaled(a.components()[3], k as int)));
        assert(fits(scaled(a.components()[4], k as int)) && fits(scaled(a.components()[5], k as int)) && fits(scaled(a.components()[6], k as int)));
        assert(fits(scaled(a.components()[7], k as int)) && fits(scaled(a.components()[8], k as int)) && fits(scaled(a.components()[9], k as int)));
        assert(fits(scaled(a.components()[10], k as int)) && fits(scaled(a.components()[11], k as int)));
        Vertex {
            position: Vec4 {
                x: scale_i32(a.position.x, k),
                y: scale_i32(a.position.y, k),
                z: scale_i32(a.position.z, k),
                w: scale_i32(a.position.w, k),
            },
            normal: Vec3 {
                x: scale_i32(a.normal.x, k),
                y: scale_i32(a.normal.y, k),
                z: scale_i32(a.normal.z, k),
            },
            color: Vec3 {
                x: scale_i32(a.color.x, k),
                y: scale_i32(a.color.y, k),
                z: scale_i32(a.color.z, k),
            },
            uv: Vec2 { x: scale_i32(a.uv.x, k), y: scale_i32(a.uv.y, k) },
        }
    }
}

/// An indexed triangle mesh: an append-only list of vertices and of
/// triangles that refer to them by index.
#[derive(Debug)]
pub struct MeshRenderer {
    pub triangles: Vec<UVec3>,
    pub vertices: Vec<Vertex>,
}

/// Every index of `t` is below `n`.
pub open spec fn tri_in_bounds(t: UVec3, n: int) -> bool {
    t.x < n && t.y < n && t.z < n
}

/// `t` with every index raised by `offset`.
pub open spec fn rebased(t: UVec3, offset: int) -> UVec3 {
    UVec3 { x: (t.x + offset) as u32, y: (t.y + offset) as u32, z: (t.z + offset) as u32 }
}

/// The triangles of a section appended behind `offset` existing vertices.
pub open spec fn rebased_all(ts: Seq<UVec3>, offset: int) -> Seq<UVec3> {
    Seq::new(ts.len(), |i: int| rebased(ts[i], offset))
}

/// Every triangle of `ts` refers to one of `n` vertices.
pub open spec fn all_in_bounds(ts: Seq<UVec3>, n: int) -> bool {
    forall|i: int| 0 <= i < ts.len() ==> #[trigger] tri_in_bounds(ts[i], n)
}

impl MeshRenderer {
    /// Every triangle refers to existing vertices, and vertex indices fit in `u32`.
    pub open spec fn wf(&self) -> bool {
        &&& all_in_bounds(self.triangles@, self.vertices@.len() as int)
        &&& self.vertices@.len() <= u32::MAX
    }

    pub fn new() -> (m: MeshRenderer)
        ensures
            m.wf(),
            m.triangles@.len() == 0,
            m.vertices@.len() == 0,
    {
        MeshRenderer { triangles: Vec::new(), vertices: Vec::new() }
    }

    pub fn triangles(&self) -> (r: &Vec<UVec3>)
        ensures
            r@ == self.triangles@,
    {
        &self.triangles
    }

    pub fn vertices(&self) -> (r: &Vec<Vertex>)
        ensures
            r@ == self.vertices@,
    {
        &self.vertices
    }

    /// The three vertex records a triangle refers to.
    pub fn get_vertices_from_triangle(&self, triangle: UVec3) -> (r: [Vertex; 3])
        requires
            tri_in_bounds(triangle, self.vertices@.len() as int),
        ensures
            r[0] == self.vertices@[triangle.x as int],
            r[1] == self.vertices@[triangle.y as int],
            r[2] == self.vertices@[triangle.z as int],
    {
        [
            self.vertices[triangle.x as usize],
            self.vertices[triangle.y as usize],
            self.vertices[triangle.z as usize],
        ]
    }

    /// A mesh holding one section.
    pub fn from_vertices(triangles: &[UVec3], vertices: &[Vertex]) -> (m: MeshRenderer)
        requires
            all_in_bounds(triangles@, vertices@.len() as int),
            vertices@.len() <= u32::MAX,
        ensures
            m.wf(),
            m.triangles@ == triangles@,
            m.vertices@ == vertices@,
    {
        let mut mesh = MeshRenderer::new();
        mesh.add_section_from_vertices(triangles, vertices);
        assert(rebased_all(triangles@, 0) =~= triangles@);
        mesh
    }

    /// Appends a section, raising its triangle indices by the number of
    /// vertices already present.
    pub fn add_section_from_vertices(&mut self, triangles: &[UVec3], vertices: &[Vertex])
        requires
            old(self).wf(),
            all_in_bounds(triangles@, vertices@.len() as int),
            old(self).vertices@.len() + vertices@.len() <= u32::MAX,
        ensures
            final(self).wf(),
            final(self).vertices@ == old(self).vertices@ + vertices@,
            final(self).triangles@ == old(self).triangles@ + rebased_all(
                triangles@,
                old(self).vertices@.len() as int,
            ),
    {
        let offset = self.vertices.len() as u32;
        let ghost n0 = self.vertices@.len() as int;
        let ghost t0 = self.triangles@;
        let mut i: usize = 0;
        while i < triangles.len()
            invariant
                0 <= i <= triangles@.len(),
                offset == n0,
                n0 + vertices@.len() <= u32::MAX,
                all_in_bounds(triangles@, vertices@.len() as int),
                self.vertices@ == old(self).vertices@,
                self.vertices@.len() == n0,
                self.triangles@ == t0 + rebased_all(triangles@.subrange(0, i as int), n0),
            decreases triangles@.len() - i,
        {
            let t = triangles[i];
            assert(tri_in_bounds(triangles@[i as int], vertices@.len() as int));
            let r = UVec3 { x: t.x + offset, y: t.y + offset, z: t.z + offset };
            self.triangles.push(r);
            i += 1;
            assert(rebased_all(triangles@.subrange(0, i as int), n0) =~= rebased_all(
                triangles@.subrange(0, i - 1),
                n0,
            ).push(r));
        }
        assert(triangles@.subrange(0, triangles@.len() as int) =~= triangles@);
        let ghost v0 = self.vertices@;
        let mut j: usize = 0;
        while j < vertices.len()
            invariant
                0 <= j <= vertices@.len(),
                self.vertices@ == v0 + vertices@.subrange(0, j as int),
                self.triangles@ == t0 + rebased_all(triangles@, n0),
            decreases vertices@.len() - j,
        {
            self.vertices.push(vertices[j]);
            j += 1;
            assert(v0 + vertices@.subrange(0, j as int) =~= (v0 + vertices@.subrange(0, j - 1)).push(
                vertices@[j - 1],
            ));
        }
        assert(vertices@.subrange(0, vertices@.len() as int) =~= vertices@);
        proof {
            let n = self.vertices@.len() as int;
            assert forall|k: int| 0 <= k < self.triangles@.len() implies #[trigger] tri_in_bounds(
                self.triangles@[k],
                n,
            ) by {
                if k < t0.len() {
                    assert(tri_in_bounds(t0[k], n0));
                } else {
                    assert(tri_in_bounds(triangles@[k - t0.len()], vertices@.len() as int));
                }
            }
        }
    }

    /// Appends a section given as parallel attribute arrays. A section without
    /// normals gets zero normals, one without colors is white, one without
    /// texture coordinates gets `(0, 0)`.
    pub fn add_section_from_buffers(
        &mut self,
        triangles: &[UVec3],
        positions: &[Vec3],
        normals: &[Vec3],
        colors: &[Vec3],
        uvs: &[Vec2],
    )
        requires
            old(self).wf(),
            all_in_bounds(triangles@, positions@.len() as int),
            old(self).vertices@.len() + positions@.len() <= u32::MAX,
            normals@.len() == 0 || normals@.len() >= positions@.len(),
            colors@.len() == 0 || colors@.len() >= positions@.len(),
            uvs@.len() == 0 || uvs@.len() >= positions@.len(),
        ensures
            final(self).wf(),
            final(self).triangles@ == old(self).triangles@ + rebased_all(
                triangles@,
                old(self).vertices@.len() as int,
            ),
            final(self).vertices@.len() == old(self).vertices@.len() + positions@.len(),
            forall|k: int| 0 <= k < old(self).vertices@.len() ==> final(self).vertices@[k] == old(self).vertices@[k],
            forall|i: int|
                0 <= i < positions@.len() ==> #[trigger] final(self).vertices@[old(self).vertices@.len() + i]
                    == section_vertex(positions@, normals@, colors@, uvs@, i),
    {
        let mut section: Vec<Vertex> = Vec::new();
        let has_uvs = uvs.len() != 0;
        let has_normals = normals.len() != 0;
        let has_colors = colors.len() != 0;
        let mut i: usize = 0;
        while i < positions.len()
            invariant
                0 <= i <= positions@.len(),
                normals@.len() == 0 || normals@.len() >= positions@.len(),
                has_colors == (colors@.len() != 0),
                has_uvs == (uvs@.len() != 0),
                has_normals == (normals@.len() != 0),
                colors@.len() == 0 || colors@.len() >= positions@.len(),
                uvs@.len() == 0 || uvs@.len() >= positions@.len(),
                section@.len() == i,
                forall|k: int|
                    0 <= k < i ==> section@[k] == section_vertex(positions@, normals@, colors@, uvs@, k),
            decreases positions@.len() - i,
        {
            let p = positions[i];
            let color = if has_colors {
                colors[i]
            } else {
                Vec3 { x: ONE, y: ONE, z: ONE }
            };
            let uv = if has_uvs {
                uvs[i]
            } else {
                Vec2 { x: 0, y: 0 }
            };
            let normal = if has_normals {
                normals[i]
            } else {
                Vec3 { x: 0, y: 0, z: 0 }
            };
            section.push(Vertex::new(Vec4 { x: p.x, y: p.y, z: p.z, w: ONE }, normal, color, uv));
            i += 1;
        }
        self.add_section_from_vertices(triangles, section.as_slice());
    }

    /// Appends all of `rhs`, as one more section.
    pub fn add_assign(&mut self, rhs: MeshRenderer)
        requires
            old(self).wf(),
            rhs.wf(),
            old(self).vertices@.len() + rhs.vertices@.len() <= u32::MAX,
        ensures
            final(self).wf(),
            final(self).vertices@ == old(self).vertices@ + rhs.vertices@,
            final(self).triangles@ == old(self).triangles@ + rebased_all(
                rhs.triangles@,
                old(self).vertices@.len() as int,
            ),
    {
        self.add_section_from_vertices(rhs.triangles.as_slice(), rhs.vertices.as_slice());
    }

    /// The mesh holding both meshes, `self` first.
    pub fn add(self, rhs: MeshRenderer) -> (m: MeshRenderer)
        requires
            self.wf(),
            rhs.wf(),
            self.vertices@.len() + rhs.vertices@.len() <= u32::MAX,
        ensures
            m.wf(),
            m.vertices@ == self.vertices@ + rhs.vertices@,
            m.triangles@ == self.triangles@ + rebased_all(rhs.triangles@, self.vertices@.len() as int),
    {
        let mut result = MeshRenderer::from_vertices(self.triangles.as_slice(), self.vertices.as_slice());
        result.add_section_from_vertices(rhs.triangles.as_slice(), rhs.vertices.as_slice());
        result
    }
}

/// The vertex that `add_section_from_buffers` builds from the `i`-th entries.
pub open spec fn section_vertex(
    positions: Seq<Vec3>,
    normals: Seq<Vec3>,
    colors: Seq<Vec3>,
    uvs: Seq<Vec2>,
    i: int,
) -> Vertex {
    Vertex {
        position: Vec4 { x: positions[i].x, y: positions[i].y, z: positions[i].z, w: ONE },
        normal: if normals.len() == 0 {
            Vec3 { x: 0, y: 0, z: 0 }
        } else {
            normals[i]
        },
        color: if colors.len() == 0 {
            Vec3 { x: ONE, y: ONE, z: ONE }
        } else {
            colors[i]
        },
        uv: if uvs.len() == 0 {
            Vec2 { x: 0, y: 0 }
        } else {
            uvs[i]
        },
    }
}

/// The triangles of a flat index list, three indices each; a trailing
/// incomplete group is dropped.
pub open spec fn index_triangles(indices: Seq<u32>) -> Seq<UVec3> {
    Seq::new(
        indices.len() / 3,
        |i: int| UVec3 { x: indices[3 * i], y: indices[3 * i + 1], z: indices[3 * i + 2] },
    )
}

/// Groups a flat index list into triangles, three indices each.
pub fn triangles_from_indices(indices: &[u32]) -> (r: Vec<UVec3>)
    ensures
        r@ == index_triangles(indices@),
{
    let len = indices.len();
    let n = len / 3;
    let mut r: Vec<UVec3> = Vec::new();
    let mut i: usize = 0;
    while i < n
        invariant
            0 <= i <= n,
            len == indices@.len(),
            n == len / 3,
            r@ =~= index_triangles(indices@).subrange(0, i as int),
        decreases n - i,
    {
        assert(3 * i + 2 < len);
        r.push(UVec3 { x: indices[3 * i], y: indices[3 * i + 1], z: indices[3 * i + 2] });
        i += 1;
        assert(r@ =~= index_triangles(indices@).subrange(0, i as int));
    }
    assert(index_triangles(indices@).subrange(0, n as int) =~= index_triangles(indices@));
    r
}

} // verus!
