use vstd::prelude::*;
use crate::geometry::{Mat4, MeshRenderer, UVec3, Vertex, tri_in_bounds};
use crate::raster::{
    ScreenTriangle,
    Tile,
    SUB,
    VIEWPORT_LIMIT,
    max3,
    max3_exec,
    min3,
    min3_exec,
    project_triangle,
    screen_triangle,
};
use crate::utilities::COORD_LIMIT;

verus! {

/// The triangles assigned to one tile, by index into the mesh.
pub struct Bin {
    pub triangle_indices: Vec<u32>,
}

/// A regular grid of `tiles_x` x `tiles_y` tiles of `tile_size` pixels over a
/// `width` x `height` screen, row by row, with one bin per tile.
pub struct Setup {
    pub tiles: Vec<Tile>,
    pub bins: Vec<Bin>,
    pub grid: Grid,
}

/// The shape of a tile grid: `tiles_x` x `tiles_y` square tiles of
/// `tile_size` pixels over a `width` x `height` screen.
#[derive(Clone, Copy, Debug, PartialEq, Eq)]
pub struct Grid {
    pub width: usize,
    pub height: usize,
    pub tile_size: usize,
    pub tiles_x: usize,
    pub tiles_y: usize,
}

impl Grid {
    pub open spec fn wf(self) -> bool {
        &&& 1 <= self.tile_size <= VIEWPORT_LIMIT
        &&& self.width <= VIEWPORT_LIMIT
        &&& self.height <= VIEWPORT_LIMIT
        &&& self.tiles_x == tile_count(self.width as int, self.tile_size as int)
        &&& self.tiles_y == tile_count(self.height as int, self.tile_size as int)
    }

    /// Index of the tile holding pixel `(x, y)`.
    pub open spec fn tile_of(self, x: int, y: int) -> int {
        (y / self.tile_size as int) * self.tiles_x + x / self.tile_size as int
    }
}

/// The grid of `tile_size` tiles over a `width` x `height` screen.
pub open spec fn grid_for(width: int, height: int, tile_size: int) -> Grid {
    Grid {
        width: width as usize,
        height: height as usize,
        tile_size: tile_size as usize,
        tiles_x: tile_count(width, tile_size) as usize,
        tiles_y: tile_count(height, tile_size) as usize,
    }
}

/// Number of tiles of `size` pixels needed to cover `extent` pixels.
pub open spec fn tile_count(extent: int, size: int) -> int {
    (extent + size - 1) / size
}

/// The pixel rectangle of the tile in column `tx` and row `ty`.
pub open spec fn tile_rect(size: int, tx: int, ty: int) -> Tile {
    Tile {
        min_x: (tx * size) as usize,
        min_y: (ty * size) as usize,
        max_x: ((tx + 1) * size) as usize,
        max_y: ((ty + 1) * size) as usize,
    }
}

impl Setup {
    /// The grid matches its screen and holds one tile and one bin per cell.
    pub open spec fn wf(&self) -> bool {
        &&& self.grid.wf()
        &&& self.tiles@.len() == self.grid.tiles_x * self.grid.tiles_y
        &&& self.bins@.len() == self.grid.tiles_x * self.grid.tiles_y
        &&& forall|b: int|
            #![trigger self.tiles@[b]]
            0 <= b < self.tiles@.len() ==> self.tiles@[b] == tile_rect(
                self.grid.tile_size as int,
                b % self.grid.tiles_x as int,
                b / self.grid.tiles_x as int,
            )
    }
}

/// Tiles `[lo, hi)` along one axis met by the sub-pixel interval
/// `[min, max]`: from `floor(min / size)` to `ceil(max / size)`, clipped to
/// `[0, n)`.
pub open spec fn tile_span(min: int, max: int, size: int, n: int) -> (int, int) {
    let lo = min / size;
    let hi = (max + size - 1) / size;
    let lo_c = if lo < 0 {
        0
    } else if lo > n {
        n
    } else {
        lo
    };
    let hi_c = if hi > n {
        n
    } else if hi < lo_c {
        lo_c
    } else {
        hi
    };
    (lo_c, hi_c)
}

/// The projected triangle lies over tile `(tx, ty)` of the grid: its
/// screen-space bounding box meets the tile.
pub open spec fn over_tile(st: Option<ScreenTriangle>, size: int, nx: int, ny: int, tx: int, ty: int) -> bool {
    match st {
        Some(t) => {
            let sx = tile_span(
                min3(t.v0.pos.x as int, t.v1.pos.x as int, t.v2.pos.x as int),
                max3(t.v0.pos.x as int, t.v1.pos.x as int, t.v2.pos.x as int),
                size * SUB,
                nx,
            );
            let sy = tile_span(
                min3(t.v0.pos.y as int, t.v1.pos.y as int, t.v2.pos.y as int),
                max3(t.v0.pos.y as int, t.v1.pos.y as int, t.v2.pos.y as int),
                size * SUB,
                ny,
            );
            sx.0 <= tx < sx.1 && sy.0 <= ty < sy.1
        },
        None => false,
    }
}

/// The three vertices of triangle `tri` of the mesh.
pub open spec fn corners(mesh: &MeshRenderer, tri: UVec3) -> [Vertex; 3] {
    [mesh.vertices@[tri.x as int], mesh.vertices@[tri.y as int], mesh.vertices@[tri.z as int]]
}

/// The screen-space triangle of the `t`-th triangle of the mesh.
pub open spec fn mesh_triangle(mesh: &MeshRenderer, mvp: Mat4, width: int, height: int, t: int) -> Option<
    ScreenTriangle,
> {
    screen_triangle(mvp, corners(mesh, mesh.triangles@[t]), width, height)
}

/// Triangle `t` belongs in bin `b` of the grid.
pub open spec fn in_bin(g: Grid, mesh: &MeshRenderer, mvp: Mat4, t: int, b: int) -> bool {
    over_tile(
        mesh_triangle(mesh, mvp, g.width as int, g.height as int, t),
        g.tile_size as int,
        g.tiles_x as int,
        g.tiles_y as int,
        b % g.tiles_x as int,
        b / g.tiles_x as int,
    )
}

/// The indices below `n` of the triangles that belong in bin `b`, ascending.
pub open spec fn bin_list(g: Grid, mesh: &MeshRenderer, mvp: Mat4, b: int, n: nat) -> Seq<u32>
    decreases n,
{
    if n == 0 {
        Seq::empty()
    } else {
        let rest = bin_list(g, mesh, mvp, b, (n - 1) as nat);
        if in_bin(g, mesh, mvp, n - 1, b) {
            rest.push((n - 1) as u32)
        } else {
            rest
        }
    }
}

/// Splits a `width` x `height` screen into a row-major grid of square tiles
/// of `tile_size` pixels, each with an empty bin. Tiles of the last row and
/// column may reach past the screen.
pub fn setup_tiles(width: usize, height: usize, tile_size: usize) -> (s: Setup)
    requires
        1 <= tile_size <= VIEWPORT_LIMIT,
        width <= VIEWPORT_LIMIT,
        height <= VIEWPORT_LIMIT,
    ensures
        s.wf(),
        s.grid == grid_for(width as int, height as int, tile_size as int),
        forall|b: int| 0 <= b < s.bins@.len() ==> (#[trigger] s.bins@[b]).triangle_indices@.len() == 0,
{
    let tiles_x = (width + tile_size - 1) / tile_size;
    let tiles_y = (height + tile_size - 1) / tile_size;
    assert(tiles_x == tile_count(width as int, tile_size as int));
    assert(tiles_y == tile_count(height as int, tile_size as int));
    assert(tiles_x <= VIEWPORT_LIMIT && tiles_y <= VIEWPORT_LIMIT) by (nonlinear_arith)
        requires
            tiles_x == tile_count(width as int, tile_size as int),
            tiles_y == tile_count(height as int, tile_size as int),
            1 <= tile_size,
            width <= VIEWPORT_LIMIT,
            height <= VIEWPORT_LIMIT,
    ;
    let mut tiles: Vec<Tile> = Vec::new();
    let mut bins: Vec<Bin> = Vec::new();
    let mut ty: usize = 0;
    while ty < tiles_y
        invariant
            tiles_x <= VIEWPORT_LIMIT,
            tiles_y <= VIEWPORT_LIMIT,
            tiles_x == tile_count(width as int, tile_size as int),
            tiles_y == tile_count(height as int, tile_size as int),
            1 <= tile_size <= VIEWPORT_LIMIT,
            0 <= ty <= tiles_y,
            tiles@.len() == ty * tiles_x,
            bins@.len() == ty * tiles_x,
            forall|b: int|
                #![trigger tiles@[b]]
                0 <= b < tiles@.len() ==> tiles@[b] == tile_rect(tile_size as int, b % tiles_x as int, b / tiles_x as int),
            forall|b: int| 0 <= b < bins@.len() ==> (#[trigger] bins@[b]).triangle_indices@.len() == 0,
        decreases tiles_y - ty,
    {
        let mut tx: usize = 0;
        while tx < tiles_x
            invariant
                tiles_x <= VIEWPORT_LIMIT,
                tiles_y <= VIEWPORT_LIMIT,
                1 <= tile_size <= VIEWPORT_LIMIT,
                0 <= ty < tiles_y,
                0 <= tx <= tiles_x,
                tiles@.len() == ty * tiles_x + tx,
                bins@.len() == ty * tiles_x + tx,
                forall|b: int|
                    #![trigger tiles@[b]]
                    0 <= b < tiles@.len() ==> tiles@[b] == tile_rect(tile_size as int, b % tiles_x as int, b / tiles_x as int),
                forall|b: int| 0 <= b < bins@.len() ==> (#[trigger] bins@[b]).triangle_indices@.len() == 0,
            decreases tiles_x - tx,
        {
            assert(tx * tile_size <= VIEWPORT_LIMIT * VIEWPORT_LIMIT && (tx + 1) * tile_size <= (VIEWPORT_LIMIT + 1) * VIEWPORT_LIMIT) by (nonlinear_arith)
                requires
                    tx < tiles_x <= VIEWPORT_LIMIT,
                    tile_size <= VIEWPORT_LIMIT,
            ;
            assert(ty * tile_size <= VIEWPORT_LIMIT * VIEWPORT_LIMIT && (ty + 1) * tile_size <= (VIEWPORT_LIMIT + 1) * VIEWPORT_LIMIT) by (nonlinear_arith)
                requires
                    ty < tiles_y <= VIEWPORT_LIMIT,
                    tile_size <= VIEWPORT_LIMIT,
            ;
            let tile = Tile {
                min_x: tx * tile_size,
                min_y: ty * tile_size,
                max_x: (tx + 1) * tile_size,
                max_y: (ty + 1) * tile_size,
            };
            proof {
                let b = ty * tiles_x + tx;
                vstd::arithmetic::div_mod::lemma_fundamental_div_mod_converse(b as int, tiles_x as int, ty as int, tx as int);
            }
            tiles.push(tile);
            bins.push(Bin { triangle_indices: Vec::new() });
            tx += 1;
        }
        assert((ty + 1) * tiles_x == ty * tiles_x + tiles_x) by (nonlinear_arith);
        ty += 1;
    }
    assert(tiles_y * tiles_x == tiles_x * tiles_y) by (nonlinear_arith);
    Setup { tiles, bins, grid: Grid { width, height, tile_size, tiles_x, tiles_y } }
}

/// Appends triangle `tri_id` to bin `bin_id`.
pub fn bin_triangle(setup: &mut Setup, bin_id: usize, tri_id: u32)
    requires
        bin_id < old(setup).bins@.len(),
    ensures
        final(setup).tiles == old(setup).tiles,
        final(setup).grid == old(setup).grid,
        final(setup).bins@.len() == old(setup).bins@.len(),
        final(setup).bins@[bin_id as int].triangle_indices@ == old(setup).bins@[bin_id as int].triangle_indices@.push(tri_id),
        forall|b: int|
            0 <= b < old(setup).bins@.len() && b != bin_id ==> (#[trigger] final(setup).bins@[b]).triangle_indices@
                == old(setup).bins@[b].triangle_indices@,
{
    setup.bins[bin_id].triangle_indices.push(tri_id);
}

fn tile_span_exec(min: i64, max: i64, size: i64, n: usize) -> (r: (usize, usize))
    requires
        -COORD_LIMIT <= min <= max <= COORD_LIMIT,
        1 <= size <= 0x10_0000,
        n <= VIEWPORT_LIMIT,
    ensures
        r.0 == tile_span(min as int, max as int, size as int, n as int).0,
        r.1 == tile_span(min as int, max as int, size as int, n as int).1,
        r.0 <= r.1 <= n,
{
    let lo: i64 = match min.checked_div_euclid(size) {
        Some(q) => q,
        None => 0,
    };
    let hi: i64 = match (max + size - 1).checked_div_euclid(size) {
        Some(q) => q,
        None => 0,
    };
    proof {
        crate::raster::lemma_div_abs_bound(min as int, size as int, COORD_LIMIT as int);
        crate::raster::lemma_div_abs_bound(max + size - 1, size as int, 2 * COORD_LIMIT as int);
    }
    let lo_c: usize = if lo < 0 {
        0
    } else if lo > n as i64 {
        n
    } else {
        lo as usize
    };
    let hi_c: usize = if hi > n as i64 {
        n
    } else if hi < lo_c as i64 {
        lo_c
    } else {
        hi as usize
    };
    (lo_c, hi_c)
}

/// Appends every triangle of the mesh to the bin of every tile that its
/// screen-space bounding box meets, in triangle order, behind what the bins
/// already hold. Triangles that cannot be projected (see `project_spec`) go
/// to no bin.
pub fn bin_triangles(mesh: &MeshRenderer, setup: &mut Setup, mvp: &Mat4)
    requires
        mesh.wf(),
        old(setup).wf(),
        mesh.triangles@.len() <= u32::MAX,
    ensures
        final(setup).wf(),
        final(setup).tiles == old(setup).tiles,
        final(setup).grid == old(setup).grid,
        forall|b: int|
            0 <= b < final(setup).bins@.len() ==> (#[trigger] final(setup).bins@[b]).triangle_indices@
                == old(setup).bins@[b].triangle_indices@ + bin_list(
                final(setup).grid,
                mesh,
                *mvp,
                b,
                mesh.triangles@.len(),
            ),
{
    let n = mesh.triangles.len();
    let nx = setup.grid.tiles_x;
    let ny = setup.grid.tiles_y;
    let size: i64 = setup.grid.tile_size as i64 * SUB;
    let ghost s0 = *setup;
    assert(nx <= VIEWPORT_LIMIT && ny <= VIEWPORT_LIMIT) by (nonlinear_arith)
        requires
            nx == tile_count(setup.grid.width as int, setup.grid.tile_size as int),
            ny == tile_count(setup.grid.height as int, setup.grid.tile_size as int),
            1 <= setup.grid.tile_size,
            setup.grid.width <= VIEWPORT_LIMIT,
            setup.grid.height <= VIEWPORT_LIMIT,
    ;
    proof {
        assert forall|b: int| 0 <= b < setup.bins@.len() implies (#[trigger] setup.bins@[b]).triangle_indices@
            == s0.bins@[b].triangle_indices@ + bin_list(s0.grid, mesh, *mvp, b, 0) by {
            assert(s0.bins@[b].triangle_indices@ + bin_list(s0.grid, mesh, *mvp, b, 0) =~= s0.bins@[b].triangle_indices@);
        }
    }
    let mut t: usize = 0;
    while t < n
        invariant
            0 <= t <= n,
            n == mesh.triangles@.len(),
            n <= u32::MAX,
            mesh.wf(),
            setup.wf(),
            setup.tiles == s0.tiles,
            setup.grid == s0.grid,
            setup.grid.tiles_x == nx && setup.grid.tiles_y == ny,
            s0.grid.tiles_x == nx && s0.grid.tiles_y == ny,
            nx <= VIEWPORT_LIMIT && ny <= VIEWPORT_LIMIT,
            size == setup.grid.tile_size * SUB,
            s0.bins@.len() == setup.bins@.len(),
            forall|b: int|
                0 <= b < setup.bins@.len() ==> (#[trigger] setup.bins@[b]).triangle_indices@
                    == s0.bins@[b].triangle_indices@ + bin_list(
                    s0.grid,
                    mesh,
                    *mvp,
                    b,
                    t as nat,
                ),
        decreases n - t,
    {
        let tri = mesh.triangles[t];
        assert(tri_in_bounds(mesh.triangles@[t as int], mesh.vertices@.len() as int));
        let vertices = mesh.get_vertices_from_triangle(tri);
        let ghost st = mesh_triangle(mesh, *mvp, s0.grid.width as int, s0.grid.height as int, t as int);
        let projected = project_triangle(&vertices, mvp, setup.grid.width, setup.grid.height);
        assert(projected == st);
        let ghost pre = setup.bins@;
        match projected {
            Some(tr) => {
                let (x_lo, x_hi) = tile_span_exec(
                    min3_exec(tr.v0.pos.x, tr.v1.pos.x, tr.v2.pos.x),
                    max3_exec(tr.v0.pos.x, tr.v1.pos.x, tr.v2.pos.x),
                    size,
                    nx,
                );
                let (y_lo, y_hi) = tile_span_exec(
                    min3_exec(tr.v0.pos.y, tr.v1.pos.y, tr.v2.pos.y),
                    max3_exec(tr.v0.pos.y, tr.v1.pos.y, tr.v2.pos.y),
                    size,
                    ny,
                );
                let mut ty = y_lo;
                while ty < y_hi
                    invariant
                        y_lo <= ty <= y_hi <= ny,
                        x_lo <= x_hi <= nx,
                        setup.wf(),
                        setup.tiles == s0.tiles,
                        setup.grid == s0.grid,
                        setup.grid.tiles_x == nx && setup.grid.tiles_y == ny,
                        setup.bins@.len() == pre.len(),
                        pre.len() == nx * ny,
                        t < n <= u32::MAX,
                        nx <= VIEWPORT_LIMIT && ny <= VIEWPORT_LIMIT,
                        forall|b: int|
                            0 <= b < pre.len() ==> (#[trigger] setup.bins@[b]).triangle_indices@ == if y_lo <= b / (nx as int) < ty
                                && x_lo <= b % (nx as int) < x_hi {
                                pre[b].triangle_indices@.push(t as u32)
                            } else {
                                pre[b].triangle_indices@
                            },
                    decreases y_hi - ty,
                {
                    let mut tx = x_lo;
                    while tx < x_hi
                        invariant
                            y_lo <= ty < y_hi <= ny,
                            x_lo <= tx <= x_hi <= nx,
                            setup.wf(),
                            setup.tiles == s0.tiles,
                            setup.grid == s0.grid,
                            setup.grid.tiles_x == nx && setup.grid.tiles_y == ny,
                            setup.bins@.len() == pre.len(),
                            pre.len() == nx * ny,
                            t < n <= u32::MAX,
                            nx <= VIEWPORT_LIMIT && ny <= VIEWPORT_LIMIT,
                            forall|b: int|
                                0 <= b < pre.len() ==> (#[trigger] setup.bins@[b]).triangle_indices@ == if (y_lo <= b / (nx as int) < ty
                                    && x_lo <= b % (nx as int) < x_hi) || (b / (nx as int) == ty && x_lo <= b % (nx as int) < tx) {
                                    pre[b].triangle_indices@.push(t as u32)
                                } else {
                                    pre[b].triangle_indices@
                                },
                        decreases x_hi - tx,
                    {
                        assert(ty * nx + tx < nx * ny <= 0x1000_0000) by (nonlinear_arith)
                            requires
                                ty < ny <= 0x4000,
                                tx < nx <= 0x4000,
                        ;
                        let bin_id = ty * nx + tx;
                        proof {
                            vstd::arithmetic::div_mod::lemma_fundamental_div_mod_converse(bin_id as int, nx as int, ty as int, tx as int);
                        }
                        bin_triangle(setup, bin_id, t as u32);
                        proof {
                            assert forall|b: int| 0 <= b < pre.len() implies (#[trigger] setup.bins@[b]).triangle_indices@ == if (y_lo <= b / (nx as int) < ty
                                    && x_lo <= b % (nx as int) < x_hi) || (b / (nx as int) == ty && x_lo <= b % (nx as int) < tx + 1) {
                                    pre[b].triangle_indices@.push(t as u32)
                                } else {
                                    pre[b].triangle_indices@
                                } by {
                                if b != bin_id {
                                    vstd::arithmetic::div_mod::lemma_fundamental_div_mod(b, nx as int);
                                    if b / (nx as int) == ty && b % (nx as int) == tx {
                                        assert(b == nx * ty + tx);
                                        assert(nx * ty == ty * nx) by (nonlinear_arith);
                                    }
                                }
                            }
                        }
                        tx += 1;
                    }
                    ty += 1;
                }
                proof {
                    assert forall|b: int| 0 <= b < setup.bins@.len() implies (#[trigger] setup.bins@[b]).triangle_indices@
                        == s0.bins@[b].triangle_indices@ + bin_list(s0.grid, mesh, *mvp, b, (t + 1) as nat) by {
                        assert(in_bin(s0.grid, mesh, *mvp, t as int, b) == (y_lo <= b / (nx as int) < y_hi && x_lo <= b % (nx as int) < x_hi));
                        let a = s0.bins@[b].triangle_indices@;
                        let l = bin_list(s0.grid, mesh, *mvp, b, t as nat);
                        assert((a + l).push(t as u32) =~= a + l.push(t as u32));
                    }
                }
            },
            None => {
                proof {
                    assert forall|b: int| 0 <= b < setup.bins@.len() implies (#[trigger] setup.bins@[b]).triangle_indices@
                        == s0.bins@[b].triangle_indices@ + bin_list(s0.grid, mesh, *mvp, b, (t + 1) as nat) by {
                        assert(!in_bin(s0.grid, mesh, *mvp, t as int, b));
                    }
                }
            },
        }
        t += 1;
    }
}

/// Bin `b` holds triangle `t` exactly when `t` is one of the first `n`
/// triangles and belongs over tile `b`: a triangle over several tiles is in
/// each of their bins, and one over a single tile is in that bin alone.
pub proof fn lemma_bin_contains(g: Grid, mesh: &MeshRenderer, mvp: Mat4, b: int, n: nat, t: int)
    requires
        n <= u32::MAX,
        0 <= t <= u32::MAX,
    ensures
        bin_list(g, mesh, mvp, b, n).contains(t as u32) <==> (t < n && in_bin(g, mesh, mvp, t, b)),
    decreases n,
{
    if n > 0 {
        lemma_bin_contains(g, mesh, mvp, b, (n - 1) as nat, t);
        let rest = bin_list(g, mesh, mvp, b, (n - 1) as nat);
        if in_bin(g, mesh, mvp, n - 1, b) {
            let l = rest.push((n - 1) as u32);
            if l.contains(t as u32) {
                let k = choose|k: int| 0 <= k < l.len() && l[k] == t as u32;
                if k < rest.len() {
                    assert(rest.contains(t as u32));
                }
            }
            if t < n && in_bin(g, mesh, mvp, t, b) {
                if t == n - 1 {
                    assert(l[rest.len() as int] == t as u32);
                } else {
                    let k = choose|k: int| 0 <= k < rest.len() && rest[k] == t as u32;
                    assert(l[k] == t as u32);
                }
            }
        }
    }
}

} // verus!
