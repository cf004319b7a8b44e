use vstd::prelude::*;
use crate::geometry::{Mat4, MeshRenderer, tri_in_bounds};
use crate::raster::{
    Tile,
    area,
    SUB,
    center_coord,
    lemma_covered_in_box,
    lemma_screen_triangle_wf,
    max3,
    min3,
    passes,
    VIEWPORT_LIMIT,
    fill_pixel,
    lemma_index_of,
    lemma_px_py,
    raster_triangle_in,
    screen,
};
use crate::texture::Texture;
use crate::utilities::argb;
use crate::wireframe::{raster_triangle_wireframe, tile_color, tile_palette, wire_colors};
use crate::tiles::{Grid, Setup, corners, in_bin, tile_span, bin_list, bin_triangles, mesh_triangle, setup_tiles, tile_rect, grid_for};

verus! {

/// Color and depth of pixel `(x, y)`, starting from `(c, z)`, after drawing
/// the mesh triangles listed in `ids`, first to last.
pub open spec fn draw_pixel(
    mesh: &MeshRenderer,
    mvp: Mat4,
    texture: Option<&Texture>,
    width: int,
    height: int,
    ids: Seq<u32>,
    x: int,
    y: int,
    c: u32,
    z: u32,
) -> (u32, u32)
    decreases ids.len(),
{
    if ids.len() == 0 {
        (c, z)
    } else {
        let before = draw_pixel(mesh, mvp, texture, width, height, ids.drop_last(), x, y, c, z);
        fill_pixel(
            mesh_triangle(mesh, mvp, width, height, ids.last() as int),
            texture,
            width,
            height,
            x,
            y,
            before.0,
            before.1,
        )
    }
}

/// The indices `0..n` in order.
pub open spec fn all_ids(n: nat) -> Seq<u32> {
    Seq::new(n, |i: int| i as u32)
}

/// Draws the triangles `ids` of the mesh, in order, into buffers covering
/// `region`.
fn draw_list(
    mesh: &MeshRenderer,
    ids: &Vec<u32>,
    mvp: &Mat4,
    texture: Option<&Texture>,
    buffer: &mut Vec<u32>,
    z_buffer: &mut Vec<u32>,
    width: usize,
    height: usize,
    region: Tile,
)
    requires
        mesh.wf(),
        forall|k: int| 0 <= k < ids@.len() ==> ids@[k] < mesh.triangles@.len(),
        width <= VIEWPORT_LIMIT,
        height <= VIEWPORT_LIMIT,
        region.wf(),
        old(buffer)@.len() == region.len(),
        old(z_buffer)@.len() == region.len(),
    ensures
        final(buffer)@.len() == region.len(),
        final(z_buffer)@.len() == region.len(),
        forall|i: int|
            0 <= i < region.len() ==> (#[trigger] final(buffer)@[i], final(z_buffer)@[i]) == draw_pixel(
                mesh,
                *mvp,
                texture,
                width as int,
                height as int,
                ids@,
                region.px(i),
                region.py(i),
                old(buffer)@[i],
                old(z_buffer)@[i],
            ),
{
    let ghost c0 = buffer@;
    let ghost z0 = z_buffer@;
    let mut j: usize = 0;
    while j < ids.len()
        invariant
            0 <= j <= ids@.len(),
            mesh.wf(),
            forall|k: int| 0 <= k < ids@.len() ==> ids@[k] < mesh.triangles@.len(),
            width <= VIEWPORT_LIMIT,
            height <= VIEWPORT_LIMIT,
            region.wf(),
            buffer@.len() == region.len(),
            z_buffer@.len() == region.len(),
            c0.len() == region.len(),
            z0.len() == region.len(),
            forall|i: int|
                0 <= i < region.len() ==> (#[trigger] buffer@[i], z_buffer@[i]) == draw_pixel(
                    mesh,
                    *mvp,
                    texture,
                    width as int,
                    height as int,
                    ids@.subrange(0, j as int),
                    region.px(i),
                    region.py(i),
                    c0[i],
                    z0[i],
                ),
        decreases ids@.len() - j,
    {
        let t = ids[j];
        let tri = mesh.triangles[t as usize];
        assert(tri_in_bounds(mesh.triangles@[t as int], mesh.vertices@.len() as int));
        let vertices = mesh.get_vertices_from_triangle(tri);
        let ghost b = buffer@;
        let ghost zb = z_buffer@;
        raster_triangle_in(&vertices, mvp, texture, buffer, z_buffer, width, height, region);
        proof {
            let s1 = ids@.subrange(0, j + 1);
            assert(s1.drop_last() =~= ids@.subrange(0, j as int));
            assert(s1.last() == t);
            assert forall|i: int|
                0 <= i < region.len() implies (#[trigger] buffer@[i], z_buffer@[i]) == draw_pixel(
                    mesh,
                    *mvp,
                    texture,
                    width as int,
                    height as int,
                    s1,
                    region.px(i),
                    region.py(i),
                    c0[i],
                    z0[i],
                ) by {
                assert((b[i], zb[i]) == draw_pixel(
                    mesh,
                    *mvp,
                    texture,
                    width as int,
                    height as int,
                    ids@.subrange(0, j as int),
                    region.px(i),
                    region.py(i),
                    c0[i],
                    z0[i],
                ));
            }
        }
        j += 1;
    }
    assert(ids@.subrange(0, ids@.len() as int) =~= ids@);
}

/// A buffer over `region` after outlining the mesh triangles `ids` in
/// `color`, first to last.
pub open spec fn wire_list(
    mesh: &MeshRenderer,
    mvp: Mat4,
    width: int,
    height: int,
    region: Tile,
    color: u32,
    ids: Seq<u32>,
    c: Seq<u32>,
) -> Seq<u32>
    decreases ids.len(),
{
    if ids.len() == 0 {
        c
    } else {
        wire_colors(
            mesh_triangle(mesh, mvp, width, height, ids.last() as int),
            width,
            height,
            region,
            color,
            wire_list(mesh, mvp, width, height, region, color, ids.drop_last(), c),
        )
    }
}

/// Outlines the triangles `ids` of the mesh, in order, into a buffer covering
/// `region`.
fn wire_list_exec(
    mesh: &MeshRenderer,
    ids: &Vec<u32>,
    mvp: &Mat4,
    buffer: &mut Vec<u32>,
    width: usize,
    height: usize,
    region: Tile,
    color: u32,
)
    requires
        mesh.wf(),
        forall|k: int| 0 <= k < ids@.len() ==> ids@[k] < mesh.triangles@.len(),
        width <= VIEWPORT_LIMIT,
        height <= VIEWPORT_LIMIT,
        region.wf(),
        region.max_x <= 0x8000,
        region.max_y <= 0x8000,
        old(buffer)@.len() == region.len(),
    ensures
        final(buffer)@.len() == region.len(),
        final(buffer)@ == wire_list(mesh, *mvp, width as int, height as int, region, color, ids@, old(buffer)@),
{
    let ghost c0 = buffer@;
    let mut j: usize = 0;
    while j < ids.len()
        invariant
            0 <= j <= ids@.len(),
            mesh.wf(),
            forall|k: int| 0 <= k < ids@.len() ==> ids@[k] < mesh.triangles@.len(),
            width <= VIEWPORT_LIMIT,
            height <= VIEWPORT_LIMIT,
            region.wf(),
            region.max_x <= 0x8000,
            region.max_y <= 0x8000,
            buffer@.len() == region.len(),
            buffer@ == wire_list(mesh, *mvp, width as int, height as int, region, color, ids@.subrange(0, j as int), c0),
        decreases ids@.len() - j,
    {
        let t = ids[j];
        let tri = mesh.triangles[t as usize];
        assert(tri_in_bounds(mesh.triangles@[t as int], mesh.vertices@.len() as int));
        let vertices = mesh.get_vertices_from_triangle(tri);
        raster_triangle_wireframe(&vertices, mvp, buffer, width, height, region, color);
        proof {
            let s1 = ids@.subrange(0, j + 1);
            assert(s1.drop_last() =~= ids@.subrange(0, j as int));
            assert(s1.last() == t);
        }
        j += 1;
    }
    assert(ids@.subrange(0, ids@.len() as int) =~= ids@);
}

/// Draws every triangle of the mesh, in order, into full-screen buffers.
pub fn raster_mesh(
    mesh: &MeshRenderer,
    mvp: &Mat4,
    texture: Option<&Texture>,
    buffer: &mut Vec<u32>,
    z_buffer: &mut Vec<u32>,
    width: usize,
    height: usize,
)
    requires
        mesh.wf(),
        mesh.triangles@.len() <= u32::MAX,
        width <= VIEWPORT_LIMIT,
        height <= VIEWPORT_LIMIT,
        old(buffer)@.len() == width * height,
        old(z_buffer)@.len() == width * height,
    ensures
        final(buffer)@.len() == width * height,
        final(z_buffer)@.len() == width * height,
        forall|i: int|
            0 <= i < width * height ==> (#[trigger] final(buffer)@[i], final(z_buffer)@[i]) == draw_pixel(
                mesh,
                *mvp,
                texture,
                width as int,
                height as int,
                all_ids(mesh.triangles@.len()),
                screen(width as int, height as int).px(i),
                screen(width as int, height as int).py(i),
                old(buffer)@[i],
                old(z_buffer)@[i],
            ),
{
    let n = mesh.triangles.len();
    let mut ids: Vec<u32> = Vec::new();
    let mut k: usize = 0;
    while k < n
        invariant
            0 <= k <= n,
            n == mesh.triangles@.len(),
            n <= u32::MAX,
            ids@ == all_ids(k as nat),
        decreases n - k,
    {
        ids.push(k as u32);
        k += 1;
        assert(ids@ =~= all_ids(k as nat));
    }
    let region = Tile { min_x: 0, min_y: 0, max_x: width, max_y: height };
    draw_list(mesh, &ids, mvp, texture, buffer, z_buffer, width, height, region);
}

/// Every index in a bin list is below the number of triangles it was built from.
pub proof fn lemma_bin_list_bounds(g: Grid, mesh: &MeshRenderer, mvp: Mat4, b: int, n: nat)
    requires
        n <= u32::MAX,
    ensures
        forall|k: int| 0 <= k < bin_list(g, mesh, mvp, b, n).len() ==> #[trigger] bin_list(g, mesh, mvp, b, n)[k] < n,
    decreases n,
{
    if n > 0 {
        lemma_bin_list_bounds(g, mesh, mvp, b, (n - 1) as nat);
        let rest = bin_list(g, mesh, mvp, b, (n - 1) as nat);
        assert forall|k: int| 0 <= k < bin_list(g, mesh, mvp, b, n).len() implies #[trigger] bin_list(g, mesh, mvp, b, n)[k] < n by {
            if k < rest.len() {
                assert(rest[k] < n - 1);
            }
        }
    }
}

/// Column and row of the `b`-th tile of an `nx` x `ny` grid are in range.
pub proof fn lemma_tile_index(nx: int, ny: int, b: int)
    requires
        0 <= b < nx * ny,
        ny >= 0,
    ensures
        0 <= b % nx < nx,
        0 <= b / nx < ny,
        b == (b / nx) * nx + b % nx,
{
    assert(nx > 0) by (nonlinear_arith)
        requires
            0 <= b < nx * ny,
            ny >= 0,
    ;
    vstd::arithmetic::div_mod::lemma_fundamental_div_mod(b, nx);
    assert(nx * (b / nx) == (b / nx) * nx) by (nonlinear_arith);
    assert(0 <= b / nx < ny) by (nonlinear_arith)
        requires
            b == nx * (b / nx) + b % nx,
            0 <= b % nx < nx,
            0 <= b < nx * ny,
    ;
}

/// Draws the triangles of bin `bin_id`, in order, into buffers that cover
/// that bin's tile: filled and depth-tested, or, in wireframe mode, outlined
/// in the tile's own color with the depth buffer left alone. Only pixels of
/// the tile are ever touched, so tiles can be drawn independently.
pub fn render_tile(
    setup: &Setup,
    bin_id: usize,
    mesh: &MeshRenderer,
    mvp: &Mat4,
    texture: Option<&Texture>,
    tile_buffer: &mut Vec<u32>,
    tile_z_buffer: &mut Vec<u32>,
    wireframe: bool,
)
    requires
        setup.wf(),
        mesh.wf(),
        bin_id < setup.bins@.len(),
        forall|k: int|
            0 <= k < setup.bins@[bin_id as int].triangle_indices@.len() ==> #[trigger] setup.bins@[bin_id as int].triangle_indices@[k]
                < mesh.triangles@.len(),
        old(tile_buffer)@.len() == setup.tiles@[bin_id as int].len(),
        old(tile_z_buffer)@.len() == setup.tiles@[bin_id as int].len(),
    ensures
        final(tile_buffer)@.len() == old(tile_buffer)@.len(),
        final(tile_z_buffer)@.len() == old(tile_z_buffer)@.len(),
        !wireframe ==> forall|i: int|
            0 <= i < old(tile_buffer)@.len() ==> (#[trigger] final(tile_buffer)@[i], final(tile_z_buffer)@[i])
                == draw_pixel(
                mesh,
                *mvp,
                texture,
                setup.grid.width as int,
                setup.grid.height as int,
                setup.bins@[bin_id as int].triangle_indices@,
                setup.tiles@[bin_id as int].px(i),
                setup.tiles@[bin_id as int].py(i),
                old(tile_buffer)@[i],
                old(tile_z_buffer)@[i],
            ),
        wireframe ==> final(tile_z_buffer)@ == old(tile_z_buffer)@,
        wireframe ==> exists|color: u32|
            tile_palette(color) && final(tile_buffer)@ == #[trigger] wire_list(
                mesh,
                *mvp,
                setup.grid.width as int,
                setup.grid.height as int,
                setup.tiles@[bin_id as int],
                color,
                setup.bins@[bin_id as int].triangle_indices@,
                old(tile_buffer)@,
            ),
{
    let tile = setup.tiles[bin_id];
    proof {
        let g = setup.grid;
        lemma_grid_bounds(g);
        lemma_tile_index(g.tiles_x as int, g.tiles_y as int, bin_id as int);
        let tx = bin_id as int % (g.tiles_x as int);
        let ty = bin_id as int / (g.tiles_x as int);
        lemma_tile_in_limits(g, tx, ty);
        lemma_tile_rect_wf(setup.grid.tile_size as int, tx, ty);
    }
    if wireframe {
        let color = tile_color(bin_id);
        wire_list_exec(
            mesh,
            &setup.bins[bin_id].triangle_indices,
            mvp,
            tile_buffer,
            setup.grid.width,
            setup.grid.height,
            tile,
            color,
        );
    } else {
        draw_list(
            mesh,
            &setup.bins[bin_id].triangle_indices,
            mvp,
            texture,
            tile_buffer,
            tile_z_buffer,
            setup.grid.width,
            setup.grid.height,
            tile,
        );
    }
}

/// Every tile of a grid ends before `TILE_COORD_LIMIT` on both axes.
proof fn lemma_tile_in_limits(g: Grid, tx: int, ty: int)
    requires
        g.wf(),
        0 <= tx < g.tiles_x,
        0 <= ty < g.tiles_y,
    ensures
        0 <= tx * g.tile_size,
        0 <= ty * g.tile_size,
        (tx + 1) * g.tile_size <= TILE_COORD_LIMIT,
        (ty + 1) * g.tile_size <= TILE_COORD_LIMIT,
{
    let ts = g.tile_size as int;
    let nx = g.tiles_x as int;
    let ny = g.tiles_y as int;
    vstd::arithmetic::div_mod::lemma_fundamental_div_mod(g.width + ts - 1, ts);
    vstd::arithmetic::div_mod::lemma_fundamental_div_mod(g.height + ts - 1, ts);
    assert((tx + 1) * ts <= TILE_COORD_LIMIT && 0 <= tx * ts) by (nonlinear_arith)
        requires
            0 <= tx < nx,
            g.width + ts - 1 == ts * nx + (g.width + ts - 1) % ts,
            0 <= (g.width + ts - 1) % ts,
            g.width <= VIEWPORT_LIMIT,
            1 <= ts <= VIEWPORT_LIMIT,
    ;
    assert((ty + 1) * ts <= TILE_COORD_LIMIT && 0 <= ty * ts) by (nonlinear_arith)
        requires
            0 <= ty < ny,
            g.height + ts - 1 == ts * ny + (g.height + ts - 1) % ts,
            0 <= (g.height + ts - 1) % ts,
            g.height <= VIEWPORT_LIMIT,
            1 <= ts <= VIEWPORT_LIMIT,
    ;
}

proof fn lemma_tile_rect_wf(size: int, tx: int, ty: int)
    requires
        size >= 1,
        tx >= 0,
        ty >= 0,
        (tx + 1) * size <= usize::MAX,
        (ty + 1) * size <= usize::MAX,
    ensures
        tile_rect(size, tx, ty).wf(),
        tile_rect(size, tx, ty).width() == size,
        tile_rect(size, tx, ty).len() == size * size,
{
    assert(0 <= tx * size <= (tx + 1) * size) by (nonlinear_arith)
        requires
            size >= 1,
            tx >= 0,
    ;
    assert(0 <= ty * size <= (ty + 1) * size) by (nonlinear_arith)
        requires
            size >= 1,
            ty >= 0,
    ;
    assert((tx + 1) * size - tx * size == size) by (nonlinear_arith);
    assert((ty + 1) * size - ty * size == size) by (nonlinear_arith);
}

/// Largest coordinate of a tile corner that tile buffers support.
pub const TILE_COORD_LIMIT: usize = 0x8000;

/// The part of a full-screen buffer under `tile`, as a buffer covering the
/// tile; pixels of the tile off the screen hold `fill`.
pub open spec fn tile_view(buffer: Seq<u32>, width: int, height: int, tile: Tile, fill: u32) -> Seq<u32> {
    Seq::new(
        tile.len() as nat,
        |i: int|
            if tile.px(i) < width && tile.py(i) < height {
                buffer[screen(width, height).index_of(tile.px(i), tile.py(i))]
            } else {
                fill
            },
    )
}

/// Copies the part of a full-screen buffer under `tile` into a buffer that
/// covers the tile; pixels of the tile off the screen get `fill`.
pub fn read_tile(buffer: &Vec<u32>, width: usize, height: usize, tile: Tile, fill: u32) -> (r: Vec<u32>)
    requires
        buffer@.len() == width * height,
        width <= VIEWPORT_LIMIT,
        height <= VIEWPORT_LIMIT,
        tile.wf(),
        tile.max_x <= TILE_COORD_LIMIT,
        tile.max_y <= TILE_COORD_LIMIT,
    ensures
        r@.len() == tile.len(),
        r@ == tile_view(buffer@, width as int, height as int, tile, fill),
        forall|i: int|
            0 <= i < tile.len() ==> #[trigger] r@[i] == if tile.px(i) < width && tile.py(i) < height {
                buffer@[screen(width as int, height as int).index_of(tile.px(i), tile.py(i))]
            } else {
                fill
            },
{
    let tw = tile.max_x - tile.min_x;
    let th = tile.max_y - tile.min_y;
    assert(tw * th <= 0x4000_0000) by (nonlinear_arith)
        requires
            tw <= 0x8000,
            th <= 0x8000,
    ;
    let n = tw * th;
    let mut r: Vec<u32> = Vec::new();
    let mut i: usize = 0;
    while i < n
        invariant
            0 <= i <= n,
            n == tile.len(),
            tw == tile.width(),
            tile.wf(),
            tile.max_x <= TILE_COORD_LIMIT,
            tile.max_y <= TILE_COORD_LIMIT,
            buffer@.len() == width * height,
            width <= VIEWPORT_LIMIT,
            height <= VIEWPORT_LIMIT,
            r@.len() == i,
            forall|k: int|
                0 <= k < i ==> #[trigger] r@[k] == if tile.px(k) < width && tile.py(k) < height {
                    buffer@[screen(width as int, height as int).index_of(tile.px(k), tile.py(k))]
                } else {
                    fill
                },
        decreases n - i,
    {
        proof {
            lemma_px_py(tile, i as int);
        }
        let x = tile.min_x + i % tw;
        let y = tile.min_y + i / tw;
        if x < width && y < height {
            proof {
                lemma_index_of(screen(width as int, height as int), x as int, y as int);
                assert(width * height <= 0x1000_0000) by (nonlinear_arith)
                    requires
                        width <= VIEWPORT_LIMIT,
                        height <= VIEWPORT_LIMIT,
                ;
                assert(y * width <= screen(width as int, height as int).index_of(x as int, y as int));
            }
            r.push(buffer[x + y * width]);
        } else {
            r.push(fill);
        }
        i += 1;
    }
    assert(r@ =~= tile_view(buffer@, width as int, height as int, tile, fill));
    r
}

/// Copies a buffer that covers `tile` back into a full-screen buffer, for
/// the pixels of the tile on the screen.
pub fn write_tile(buffer: &mut Vec<u32>, width: usize, height: usize, tile: Tile, local: &Vec<u32>)
    requires
        old(buffer)@.len() == width * height,
        width <= VIEWPORT_LIMIT,
        height <= VIEWPORT_LIMIT,
        tile.wf(),
        tile.max_x <= TILE_COORD_LIMIT,
        tile.max_y <= TILE_COORD_LIMIT,
        local@.len() == tile.len(),
    ensures
        final(buffer)@.len() == old(buffer)@.len(),
        forall|p: int|
            0 <= p < width * height ==> #[trigger] final(buffer)@[p] == if tile.contains(
                screen(width as int, height as int).px(p),
                screen(width as int, height as int).py(p),
            ) {
                local@[tile.index_of(screen(width as int, height as int).px(p), screen(width as int, height as int).py(p))]
            } else {
                old(buffer)@[p]
            },
{
    let ghost s = screen(width as int, height as int);
    let ghost b0 = buffer@;
    let x_cut = if tile.max_x < width { tile.max_x } else { width };
    let y_cut = if tile.max_y < height { tile.max_y } else { height };
    let x_end = if x_cut < tile.min_x { tile.min_x } else { x_cut };
    let y_end = if y_cut < tile.min_y { tile.min_y } else { y_cut };
    assert(tile.len() <= 0x4000_0000 && width * height <= 0x1000_0000) by (nonlinear_arith)
        requires
            tile.wf(),
            tile.max_x <= 0x8000,
            tile.max_y <= 0x8000,
            width <= VIEWPORT_LIMIT,
            height <= VIEWPORT_LIMIT,
    ;
    let tw = tile.max_x - tile.min_x;
    let mut y = tile.min_y;
    while y < y_end
        invariant
            tile.min_y <= y <= y_end,
            y_end == tile.min_y || y_end <= height,
            y_end <= tile.max_y,
            x_end == tile.min_x || x_end <= width,
            tile.min_x <= x_end <= tile.max_x,
            x_end == if x_cut < tile.min_x { tile.min_x } else { x_cut },
            y_end == if y_cut < tile.min_y { tile.min_y } else { y_cut },
            x_cut == if tile.max_x < width { tile.max_x } else { width },
            y_cut == if tile.max_y < height { tile.max_y } else { height },
            tile.len() <= 0x4000_0000,
            width * height <= 0x1000_0000,
            tw == tile.width(),
            tile.wf(),
            tile.max_x <= TILE_COORD_LIMIT,
            tile.max_y <= TILE_COORD_LIMIT,
            width <= VIEWPORT_LIMIT,
            height <= VIEWPORT_LIMIT,
            local@.len() == tile.len(),
            s == screen(width as int, height as int),
            buffer@.len() == width * height,
            b0.len() == width * height,
            forall|p: int|
                0 <= p < width * height ==> #[trigger] buffer@[p] == if tile.min_y <= s.py(p) < y && tile.min_x <= s.px(p) < x_end {
                    local@[tile.index_of(s.px(p), s.py(p))]
                } else {
                    b0[p]
                },
        decreases y_end - y,
    {
        let mut x = tile.min_x;
        while x < x_end
            invariant
                tile.min_y <= y < y_end,
                tile.min_x <= x <= x_end,
                y_end <= height,
                y_end <= tile.max_y,
                x_end == tile.min_x || x_end <= width,
                tile.min_x <= x_end <= tile.max_x,
                tile.len() <= 0x4000_0000,
                width * height <= 0x1000_0000,
                tw == tile.width(),
                tile.wf(),
                tile.max_x <= TILE_COORD_LIMIT,
                tile.max_y <= TILE_COORD_LIMIT,
                width <= VIEWPORT_LIMIT,
                height <= VIEWPORT_LIMIT,
                local@.len() == tile.len(),
                s == screen(width as int, height as int),
                buffer@.len() == width * height,
                b0.len() == width * height,
                forall|p: int|
                    0 <= p < width * height ==> #[trigger] buffer@[p] == if (tile.min_y <= s.py(p) < y && tile.min_x <= s.px(p) < x_end)
                        || (s.py(p) == y && tile.min_x <= s.px(p) < x) {
                        local@[tile.index_of(s.px(p), s.py(p))]
                    } else {
                        b0[p]
                    },
            decreases x_end - x,
        {
            proof {
                lemma_index_of(tile, x as int, y as int);
                lemma_index_of(s, x as int, y as int);
                assert((y - tile.min_y) * tw <= tile.index_of(x as int, y as int));
                assert(y * width <= s.index_of(x as int, y as int));
            }
            let k = (x - tile.min_x) + (y - tile.min_y) * tw;
            let p = x + y * width;
            buffer.set(p, local[k]);
            proof {
                assert forall|q: int|
                    0 <= q < width * height implies #[trigger] buffer@[q] == if (tile.min_y <= s.py(q) < y && tile.min_x <= s.px(q) < x_end)
                        || (s.py(q) == y && tile.min_x <= s.px(q) < x + 1) {
                        local@[tile.index_of(s.px(q), s.py(q))]
                    } else {
                        b0[q]
                    } by {
                    lemma_px_py(s, q);
                }
            }
            x += 1;
        }
        y += 1;
    }
    proof {
        assert forall|p: int| 0 <= p < width * height implies #[trigger] buffer@[p] == if tile.contains(s.px(p), s.py(p)) {
            local@[tile.index_of(s.px(p), s.py(p))]
        } else {
            b0[p]
        } by {
            lemma_px_py(s, p);
            if tile.contains(s.px(p), s.py(p)) {
                lemma_index_of(tile, s.px(p), s.py(p));
            }
        }
    }
}

/// Largest tile size that `render_scene` accepts.
pub const TILE_SIZE_LIMIT: usize = 0x4000;

/// A grid over a screen within limits has at most `VIEWPORT_LIMIT` tiles per axis.
pub proof fn lemma_grid_bounds(g: Grid)
    requires
        g.wf(),
    ensures
        g.tiles_x <= VIEWPORT_LIMIT,
        g.tiles_y <= VIEWPORT_LIMIT,
{
    let ts = g.tile_size as int;
    vstd::arithmetic::div_mod::lemma_fundamental_div_mod(g.width + ts - 1, ts);
    vstd::arithmetic::div_mod::lemma_fundamental_div_mod(g.height + ts - 1, ts);
    let nx = g.tiles_x as int;
    let ny = g.tiles_y as int;
    assert(nx <= VIEWPORT_LIMIT) by (nonlinear_arith)
        requires
            g.width + ts - 1 == ts * nx + (g.width + ts - 1) % ts,
            0 <= (g.width + ts - 1) % ts,
            g.width <= VIEWPORT_LIMIT,
            ts >= 1,
    ;
    assert(ny <= VIEWPORT_LIMIT) by (nonlinear_arith)
        requires
            g.height + ts - 1 == ts * ny + (g.height + ts - 1) % ts,
            0 <= (g.height + ts - 1) % ts,
            g.height <= VIEWPORT_LIMIT,
            ts >= 1,
    ;
}

/// A screen pixel lies in the `b`-th tile of the grid exactly when the grid
/// maps it to `b`.
pub proof fn lemma_tile_of(g: Grid, b: int, x: int, y: int)
    requires
        g.wf(),
        0 <= b < g.tiles_x * g.tiles_y,
        0 <= x < g.width,
        0 <= y < g.height,
    ensures
        tile_rect(g.tile_size as int, b % (g.tiles_x as int), b / (g.tiles_x as int)).contains(x, y) <==> g.tile_of(x, y) == b,
{
    let ts = g.tile_size as int;
    let nx = g.tiles_x as int;
    lemma_grid_bounds(g);
    lemma_tile_index(nx, g.tiles_y as int, b);
    let tx = b % nx;
    let ty = b / nx;
    vstd::arithmetic::div_mod::lemma_fundamental_div_mod(x, ts);
    vstd::arithmetic::div_mod::lemma_fundamental_div_mod(y, ts);
    vstd::arithmetic::div_mod::lemma_fundamental_div_mod(g.width + ts - 1, ts);
    let qx = x / ts;
    let qy = y / ts;
    assert(qx < nx) by (nonlinear_arith)
        requires
            x == ts * qx + x % ts,
            0 <= x % ts,
            x < g.width,
            g.width + ts - 1 == ts * nx + (g.width + ts - 1) % ts,
            (g.width + ts - 1) % ts < ts,
            ts >= 1,
    ;
    assert(0 <= qx && 0 <= qy) by (nonlinear_arith)
        requires
            x == ts * qx + x % ts,
            y == ts * qy + y % ts,
            x % ts < ts,
            y % ts < ts,
            x >= 0,
            y >= 0,
            ts >= 1,
    ;
    let r = tile_rect(ts, tx, ty);
    assert(r.min_x == tx * ts && r.max_x == (tx + 1) * ts && r.min_y == ty * ts && r.max_y == (ty + 1) * ts) by {
        assert(0 <= tx * ts && 0 <= ty * ts) by (nonlinear_arith)
            requires
                tx >= 0,
                ty >= 0,
                ts >= 1,
        ;
        assert((tx + 1) * ts == tx * ts + ts && (ty + 1) * ts == ty * ts + ts) by (nonlinear_arith);
        assert((tx + 1) * ts <= 0x1000_0000 && (ty + 1) * ts <= 0x1000_0000) by (nonlinear_arith)
            requires
                0 <= tx < nx,
                0 <= ty < g.tiles_y,
                nx <= 0x4000,
                g.tiles_y <= 0x4000,
                ts <= 0x4000,
        ;
    }
    if r.contains(x, y) {
        assert(qx == tx) by (nonlinear_arith)
            requires
                tx * ts <= x < (tx + 1) * ts,
                x == ts * qx + x % ts,
                0 <= x % ts < ts,
        ;
        assert(qy == ty) by (nonlinear_arith)
            requires
                ty * ts <= y < (ty + 1) * ts,
                y == ts * qy + y % ts,
                0 <= y % ts < ts,
        ;
    }
    if g.tile_of(x, y) == b {
        vstd::arithmetic::div_mod::lemma_fundamental_div_mod_converse(b, nx, qy, qx);
        assert(tx * ts <= x < (tx + 1) * ts) by (nonlinear_arith)
            requires
                qx == tx,
                x == ts * qx + x % ts,
                0 <= x % ts < ts,
        ;
        assert(ty * ts <= y < (ty + 1) * ts) by (nonlinear_arith)
            requires
                qy == ty,
                y == ts * qy + y % ts,
                0 <= y % ts < ts,
        ;
    }
}

/// Filled rendering, tile by tile.
fn render_scene_filled(
    mesh: &MeshRenderer,
    mvp: &Mat4,
    texture: Option<&Texture>,
    buffer: &mut Vec<u32>,
    z_buffer: &mut Vec<u32>,
    width: usize,
    height: usize,
    tile_size: usize,
)
    requires
        mesh.wf(),
        mesh.triangles@.len() <= u32::MAX,
        width <= VIEWPORT_LIMIT,
        height <= VIEWPORT_LIMIT,
        1 <= tile_size <= TILE_SIZE_LIMIT,
        old(buffer)@.len() == width * height,
        old(z_buffer)@.len() == width * height,
    ensures
        final(buffer)@.len() == width * height,
        final(z_buffer)@.len() == width * height,
        forall|p: int|
            0 <= p < width * height ==> (#[trigger] final(buffer)@[p], final(z_buffer)@[p]) == draw_pixel(
                mesh,
                *mvp,
                texture,
                width as int,
                height as int,
                bin_list(
                    grid_for(width as int, height as int, tile_size as int),
                    mesh,
                    *mvp,
                    grid_for(width as int, height as int, tile_size as int).tile_of(
                        screen(width as int, height as int).px(p),
                        screen(width as int, height as int).py(p),
                    ),
                    mesh.triangles@.len(),
                ),
                screen(width as int, height as int).px(p),
                screen(width as int, height as int).py(p),
                old(buffer)@[p],
                old(z_buffer)@[p],
            ),
        forall|p: int|
            0 <= p < width * height ==> (#[trigger] final(buffer)@[p], final(z_buffer)@[p]) == draw_pixel(
                mesh,
                *mvp,
                texture,
                width as int,
                height as int,
                all_ids(mesh.triangles@.len()),
                screen(width as int, height as int).px(p),
                screen(width as int, height as int).py(p),
                old(buffer)@[p],
                old(z_buffer)@[p],
            ),
{
    let ghost s = screen(width as int, height as int);
    let ghost c0 = buffer@;
    let ghost z0 = z_buffer@;
    let ghost n = mesh.triangles@.len();
    let mut setup = setup_tiles(width, height, tile_size);
    let ghost empty_bins = setup.bins@;
    bin_triangles(mesh, &mut setup, mvp);
    let ghost g = setup.grid;
    proof {
        assert forall|b: int| 0 <= b < setup.bins@.len() implies (#[trigger] setup.bins@[b]).triangle_indices@
            == bin_list(g, mesh, *mvp, b, n) by {
            assert(empty_bins[b].triangle_indices@.len() == 0);
            assert(empty_bins[b].triangle_indices@ + bin_list(g, mesh, *mvp, b, n) =~= bin_list(g, mesh, *mvp, b, n));
        }
        assert forall|b: int, k: int|
            0 <= b < setup.bins@.len() && 0 <= k < setup.bins@[b].triangle_indices@.len() implies #[trigger] setup.bins@[b].triangle_indices@[k]
                < n by {
            lemma_bin_list_bounds(g, mesh, *mvp, b, n);
        }
        lemma_grid_bounds(g);
    }
    let nb = setup.bins.len();
    let mut b: usize = 0;
    while b < nb
        invariant
            0 <= b <= nb,
            nb == setup.bins@.len(),
            setup.wf(),
            mesh.wf(),
            g == setup.grid,
            g == grid_for(width as int, height as int, tile_size as int),
            g.tiles_x <= 0x4000 && g.tiles_y <= 0x4000,
            n == mesh.triangles@.len(),
            forall|b: int, k: int|
                0 <= b < setup.bins@.len() && 0 <= k < setup.bins@[b].triangle_indices@.len() ==> #[trigger] setup.bins@[b].triangle_indices@[k]
                    < n,
            forall|b: int|
                0 <= b < setup.bins@.len() ==> (#[trigger] setup.bins@[b]).triangle_indices@ == bin_list(g, mesh, *mvp, b, n),
            s == screen(width as int, height as int),
            buffer@.len() == width * height,
            z_buffer@.len() == width * height,
            c0.len() == width * height,
            z0.len() == width * height,
            forall|p: int|
                0 <= p < width * height ==> (#[trigger] buffer@[p], z_buffer@[p]) == if 0 <= g.tile_of(s.px(p), s.py(p)) < b {
                    draw_pixel(
                        mesh,
                        *mvp,
                        texture,
                        width as int,
                        height as int,
                        bin_list(g, mesh, *mvp, g.tile_of(s.px(p), s.py(p)), n),
                        s.px(p),
                        s.py(p),
                        c0[p],
                        z0[p],
                    )
                } else {
                    (c0[p], z0[p])
                },
        decreases nb - b,
    {
        let tile = setup.tiles[b];
        let ghost tx = b as int % (g.tiles_x as int);
        let ghost ty = b as int / (g.tiles_x as int);
        proof {
            lemma_tile_index(g.tiles_x as int, g.tiles_y as int, b as int);
            assert((tx + 1) * g.tile_size <= 0x8000 && (ty + 1) * g.tile_size <= 0x8000) by (nonlinear_arith)
                requires
                    0 <= tx < g.tiles_x,
                    0 <= ty < g.tiles_y,
                    g.wf(),
                    g.tile_size <= 0x4000,
            ;
            assert(0 <= tx * g.tile_size && 0 <= ty * g.tile_size) by (nonlinear_arith)
                requires
                    0 <= tx,
                    0 <= ty,
                    g.tile_size >= 1,
            ;
            lemma_tile_rect_wf(g.tile_size as int, tx, ty);
        }
        let ghost bc = buffer@;
        let ghost bz = z_buffer@;
        let mut lc = read_tile(buffer, width, height, tile, 0);
        let mut lz = read_tile(z_buffer, width, height, tile, 0);
        let ghost lc0 = lc@;
        let ghost lz0 = lz@;
        render_tile(&setup, b, mesh, mvp, texture, &mut lc, &mut lz, false);
        write_tile(buffer, width, height, tile, &lc);
        write_tile(z_buffer, width, height, tile, &lz);
        proof {
            assert forall|p: int|
                0 <= p < width * height implies (#[trigger] buffer@[p], z_buffer@[p]) == if 0 <= g.tile_of(s.px(p), s.py(p)) < b + 1 {
                    draw_pixel(
                        mesh,
                        *mvp,
                        texture,
                        width as int,
                        height as int,
                        bin_list(g, mesh, *mvp, g.tile_of(s.px(p), s.py(p)), n),
                        s.px(p),
                        s.py(p),
                        c0[p],
                        z0[p],
                    )
                } else {
                    (c0[p], z0[p])
                } by {
                lemma_px_py(s, p);
                let (x, y) = (s.px(p), s.py(p));
                lemma_tile_of(g, b as int, x, y);
                if tile.contains(x, y) {
                    lemma_index_of(tile, x, y);
                    let i = tile.index_of(x, y);
                    assert(lc0[i] == bc[p] && lz0[i] == bz[p]);
                    assert((bc[p], bz[p]) == (c0[p], z0[p]));
                }
            }
        }
        b += 1;
    }
    proof {
        assert forall|p: int| 0 <= p < width * height implies 0 <= #[trigger] g.tile_of(s.px(p), s.py(p)) < nb by {
            lemma_px_py(s, p);
            let (x, y) = (s.px(p), s.py(p));
            let ts = g.tile_size as int;
            vstd::arithmetic::div_mod::lemma_fundamental_div_mod(x, ts);
            vstd::arithmetic::div_mod::lemma_fundamental_div_mod(y, ts);
            vstd::arithmetic::div_mod::lemma_fundamental_div_mod(width + ts - 1, ts);
            vstd::arithmetic::div_mod::lemma_fundamental_div_mod(height + ts - 1, ts);
            let qx = x / ts;
            let qy = y / ts;
            let nx = g.tiles_x as int;
            let ny = g.tiles_y as int;
            assert(0 <= qx < nx) by (nonlinear_arith)
                requires
                    x == ts * qx + x % ts,
                    0 <= x % ts < ts,
                    0 <= x < width,
                    width + ts - 1 == ts * nx + (width + ts - 1) % ts,
                    (width + ts - 1) % ts < ts,
                    ts >= 1,
            ;
            assert(0 <= qy < ny) by (nonlinear_arith)
                requires
                    y == ts * qy + y % ts,
                    0 <= y % ts < ts,
                    0 <= y < height,
                    height + ts - 1 == ts * ny + (height + ts - 1) % ts,
                    (height + ts - 1) % ts < ts,
                    ts >= 1,
            ;
            assert(0 <= qy * nx + qx < nx * ny) by (nonlinear_arith)
                requires
                    0 <= qx < nx,
                    0 <= qy < ny,
            ;
        }
        assert forall|p: int| 0 <= p < width * height implies (#[trigger] buffer@[p], z_buffer@[p]) == draw_pixel(
            mesh,
            *mvp,
            texture,
            width as int,
            height as int,
            all_ids(n),
            s.px(p),
            s.py(p),
            c0[p],
            z0[p],
        ) by {
            lemma_px_py(s, p);
            lemma_tiled_equals_whole(g, mesh, *mvp, texture, n, s.px(p), s.py(p), c0[p], z0[p]);
        }
    }
}

/// The color of pixel `(x, y)` after its tile's bin is outlined in `color`
/// over the buffer `c`.
pub open spec fn wire_pixel(
    mesh: &MeshRenderer,
    mvp: Mat4,
    g: Grid,
    c: Seq<u32>,
    color: u32,
    x: int,
    y: int,
) -> u32 {
    let b = g.tile_of(x, y);
    let tile = tile_rect(g.tile_size as int, b % (g.tiles_x as int), b / (g.tiles_x as int));
    wire_list(
        mesh,
        mvp,
        g.width as int,
        g.height as int,
        tile,
        color,
        bin_list(g, mesh, mvp, b, mesh.triangles@.len()),
        tile_view(c, g.width as int, g.height as int, tile, 0),
    )[tile.index_of(x, y)]
}

/// `after` is `before` with every pixel's tile bin outlined in that tile's
/// color, taken from `colors`, one opaque color per tile.
pub open spec fn wire_frame(
    mesh: &MeshRenderer,
    mvp: Mat4,
    g: Grid,
    colors: Seq<u32>,
    before: Seq<u32>,
    after: Seq<u32>,
) -> bool {
    &&& after.len() == before.len()
    &&& colors.len() == g.tiles_x * g.tiles_y
    &&& forall|b: int| 0 <= b < colors.len() ==> tile_palette(#[trigger] colors[b])
    &&& forall|p: int|
        #![trigger after[p]]
        0 <= p < g.width * g.height ==> after[p] == wire_pixel(
            mesh,
            mvp,
            g,
            before,
            colors[g.tile_of(screen(g.width as int, g.height as int).px(p), screen(g.width as int, g.height as int).py(p))],
            screen(g.width as int, g.height as int).px(p),
            screen(g.width as int, g.height as int).py(p),
        )
}

/// Wireframe rendering, tile by tile.
#[verifier::spinoff_prover]
fn render_scene_wireframe(
    mesh: &MeshRenderer,
    mvp: &Mat4,
    buffer: &mut Vec<u32>,
    z_buffer: &Vec<u32>,
    width: usize,
    height: usize,
    tile_size: usize,
)
    requires
        mesh.wf(),
        mesh.triangles@.len() <= u32::MAX,
        width <= VIEWPORT_LIMIT,
        height <= VIEWPORT_LIMIT,
        1 <= tile_size <= TILE_SIZE_LIMIT,
        old(buffer)@.len() == width * height,
        z_buffer@.len() == width * height,
    ensures
        final(buffer)@.len() == width * height,
        exists|colors: Seq<u32>|
            #[trigger] wire_frame(
                mesh,
                *mvp,
                grid_for(width as int, height as int, tile_size as int),
                colors,
                old(buffer)@,
                final(buffer)@,
            ),
{
    let ghost s = screen(width as int, height as int);
    let ghost c0 = buffer@;
    let ghost n = mesh.triangles@.len();
    let mut setup = setup_tiles(width, height, tile_size);
    let ghost empty_bins = setup.bins@;
    bin_triangles(mesh, &mut setup, mvp);
    let ghost g = setup.grid;
    proof {
        assert forall|b: int| 0 <= b < setup.bins@.len() implies (#[trigger] setup.bins@[b]).triangle_indices@
            == bin_list(g, mesh, *mvp, b, n) by {
            assert(empty_bins[b].triangle_indices@.len() == 0);
            assert(empty_bins[b].triangle_indices@ + bin_list(g, mesh, *mvp, b, n) =~= bin_list(g, mesh, *mvp, b, n));
        }
        assert forall|b: int, k: int|
            0 <= b < setup.bins@.len() && 0 <= k < setup.bins@[b].triangle_indices@.len() implies #[trigger] setup.bins@[b].triangle_indices@[k]
                < n by {
            lemma_bin_list_bounds(g, mesh, *mvp, b, n);
        }
        lemma_grid_bounds(g);
    }
    let nb = setup.bins.len();
    let ghost mut colors: Seq<u32> = Seq::empty();
    let mut b: usize = 0;
    while b < nb
        invariant
            0 <= b <= nb,
            nb == setup.bins@.len(),
            setup.wf(),
            mesh.wf(),
            g == setup.grid,
            g == grid_for(width as int, height as int, tile_size as int),
            g.tiles_x <= 0x4000 && g.tiles_y <= 0x4000,
            n == mesh.triangles@.len(),
            forall|b: int, k: int|
                0 <= b < setup.bins@.len() && 0 <= k < setup.bins@[b].triangle_indices@.len() ==> #[trigger] setup.bins@[b].triangle_indices@[k]
                    < n,
            forall|b: int|
                0 <= b < setup.bins@.len() ==> (#[trigger] setup.bins@[b]).triangle_indices@ == bin_list(g, mesh, *mvp, b, n),
            s == screen(width as int, height as int),
            buffer@.len() == width * height,
            z_buffer@.len() == width * height,
            c0.len() == width * height,
            colors.len() == b,
            forall|k: int| 0 <= k < colors.len() ==> tile_palette(#[trigger] colors[k]),
            forall|p: int|
                #![trigger buffer@[p]]
                0 <= p < width * height ==> if 0 <= g.tile_of(s.px(p), s.py(p)) < b {
                    buffer@[p] == wire_pixel(mesh, *mvp, g, c0, colors[g.tile_of(s.px(p), s.py(p))], s.px(p), s.py(p))
                } else {
                    buffer@[p] == c0[p]
                },
        decreases nb - b,
    {
        let tile = setup.tiles[b];
        let ghost tx = b as int % (g.tiles_x as int);
        let ghost ty = b as int / (g.tiles_x as int);
        proof {
            lemma_tile_index(g.tiles_x as int, g.tiles_y as int, b as int);
            assert((tx + 1) * g.tile_size <= 0x8000 && (ty + 1) * g.tile_size <= 0x8000) by (nonlinear_arith)
                requires
                    0 <= tx < g.tiles_x,
                    0 <= ty < g.tiles_y,
                    g.wf(),
                    g.tile_size <= 0x4000,
            ;
            assert(0 <= tx * g.tile_size && 0 <= ty * g.tile_size) by (nonlinear_arith)
                requires
                    0 <= tx,
                    0 <= ty,
                    g.tile_size >= 1,
            ;
            lemma_tile_rect_wf(g.tile_size as int, tx, ty);
        }
        let ghost bc = buffer@;
        let mut lc = read_tile(buffer, width, height, tile, 0);
        let mut lz = read_tile(z_buffer, width, height, tile, 0);
        let ghost lc0 = lc@;
        proof {
            assert forall|i: int| 0 <= i < tile.len() implies lc0[i] == #[trigger] tile_view(c0, width as int, height as int, tile, 0)[i] by {
                lemma_px_py(tile, i);
                let (x, y) = (tile.px(i), tile.py(i));
                if x < width && y < height {
                    lemma_index_of(s, x, y);
                    let q = s.index_of(x, y);
                    lemma_tile_of(g, b as int, x, y);
                    assert(g.tile_of(s.px(q), s.py(q)) == b);
                    assert(bc[q] == c0[q]);
                }
            }
            assert(lc0 =~= tile_view(c0, width as int, height as int, tile, 0));
        }
        render_tile(&setup, b, mesh, mvp, None, &mut lc, &mut lz, true);
        let ghost color = choose|color: u32|
            tile_palette(color) && lc@ == #[trigger] wire_list(
                mesh,
                *mvp,
                setup.grid.width as int,
                setup.grid.height as int,
                setup.tiles@[b as int],
                color,
                setup.bins@[b as int].triangle_indices@,
                lc0,
            );
        write_tile(buffer, width, height, tile, &lc);
        let ghost old_colors = colors;
        proof {
            colors = colors.push(color);
            assert forall|p: int|
                #![trigger buffer@[p]]
                0 <= p < width * height implies if 0 <= g.tile_of(s.px(p), s.py(p)) < b + 1 {
                    buffer@[p] == wire_pixel(mesh, *mvp, g, c0, colors[g.tile_of(s.px(p), s.py(p))], s.px(p), s.py(p))
                } else {
                    buffer@[p] == c0[p]
                } by {
                lemma_px_py(s, p);
                let (x, y) = (s.px(p), s.py(p));
                lemma_tile_of(g, b as int, x, y);
                if 0 <= g.tile_of(x, y) < b {
                    assert(colors[g.tile_of(x, y)] == old_colors[g.tile_of(x, y)]);
                }
            }
        }
        b += 1;
    }
    proof {
        assert(g.width == width && g.height == height);
        assert forall|p: int|
            #![trigger buffer@[p]]
            0 <= p < g.width * g.height implies buffer@[p] == wire_pixel(
                mesh,
                *mvp,
                g,
                c0,
                colors[g.tile_of(screen(g.width as int, g.height as int).px(p), screen(g.width as int, g.height as int).py(p))],
                screen(g.width as int, g.height as int).px(p),
                screen(g.width as int, g.height as int).py(p),
            ) by {
            lemma_px_py(s, p);
            lemma_tile_of_in_grid(g, s.px(p), s.py(p));
        }
        assert(wire_frame(mesh, *mvp, g, colors, c0, buffer@));
    }
}

/// Every screen pixel lies in one of the grid's tiles.
proof fn lemma_tile_of_in_grid(g: Grid, x: int, y: int)
    requires
        g.wf(),
        0 <= x < g.width,
        0 <= y < g.height,
    ensures
        0 <= g.tile_of(x, y) < g.tiles_x * g.tiles_y,
{
    let ts = g.tile_size as int;
    vstd::arithmetic::div_mod::lemma_fundamental_div_mod(x, ts);
    vstd::arithmetic::div_mod::lemma_fundamental_div_mod(y, ts);
    vstd::arithmetic::div_mod::lemma_fundamental_div_mod(g.width + ts - 1, ts);
    vstd::arithmetic::div_mod::lemma_fundamental_div_mod(g.height + ts - 1, ts);
    let qx = x / ts;
    let qy = y / ts;
    let nx = g.tiles_x as int;
    let ny = g.tiles_y as int;
    assert(0 <= qx < nx) by (nonlinear_arith)
        requires
            x == ts * qx + x % ts,
            0 <= x % ts < ts,
            0 <= x < g.width,
            g.width + ts - 1 == ts * nx + (g.width + ts - 1) % ts,
            (g.width + ts - 1) % ts < ts,
            ts >= 1,
    ;
    assert(0 <= qy < ny) by (nonlinear_arith)
        requires
            y == ts * qy + y % ts,
            0 <= y % ts < ts,
            0 <= y < g.height,
            g.height + ts - 1 == ts * ny + (g.height + ts - 1) % ts,
            (g.height + ts - 1) % ts < ts,
            ts >= 1,
    ;
    assert(0 <= qy * nx + qx < nx * ny) by (nonlinear_arith)
        requires
            0 <= qx < nx,
            0 <= qy < ny,
    ;
}

/// Renders the mesh tile by tile: splits the screen into tiles of
/// `tile_size` pixels, bins the triangles, then draws each tile's bin into
/// that tile alone. Every pixel ends as if the triangles of its tile's bin had
/// been drawn over it in order, which is the same as if every triangle of the
/// mesh had been drawn over it in order. In wireframe mode each tile instead
/// outlines its bin's front-facing triangles in a color of its own, and the
/// depth buffer is left alone.
pub fn render_scene(
    mesh: &MeshRenderer,
    mvp: &Mat4,
    texture: Option<&Texture>,
    buffer: &mut Vec<u32>,
    z_buffer: &mut Vec<u32>,
    width: usize,
    height: usize,
    tile_size: usize,
    wireframe: bool,
)
    requires
        mesh.wf(),
        mesh.triangles@.len() <= u32::MAX,
        width <= VIEWPORT_LIMIT,
        height <= VIEWPORT_LIMIT,
        1 <= tile_size <= TILE_SIZE_LIMIT,
        old(buffer)@.len() == width * height,
        old(z_buffer)@.len() == width * height,
    ensures
        final(buffer)@.len() == width * height,
        final(z_buffer)@.len() == width * height,
        !wireframe ==> forall|p: int|
            0 <= p < width * height ==> (#[trigger] final(buffer)@[p], final(z_buffer)@[p]) == draw_pixel(
                mesh,
                *mvp,
                texture,
                width as int,
                height as int,
                bin_list(
                    grid_for(width as int, height as int, tile_size as int),
                    mesh,
                    *mvp,
                    grid_for(width as int, height as int, tile_size as int).tile_of(
                        screen(width as int, height as int).px(p),
                        screen(width as int, height as int).py(p),
                    ),
                    mesh.triangles@.len(),
                ),
                screen(width as int, height as int).px(p),
                screen(width as int, height as int).py(p),
                old(buffer)@[p],
                old(z_buffer)@[p],
            ),
        !wireframe ==> forall|p: int|
            0 <= p < width * height ==> (#[trigger] final(buffer)@[p], final(z_buffer)@[p]) == draw_pixel(
                mesh,
                *mvp,
                texture,
                width as int,
                height as int,
                all_ids(mesh.triangles@.len()),
                screen(width as int, height as int).px(p),
                screen(width as int, height as int).py(p),
                old(buffer)@[p],
                old(z_buffer)@[p],
            ),
        wireframe ==> final(z_buffer)@ == old(z_buffer)@,
        wireframe ==> exists|colors: Seq<u32>|
            #[trigger] wire_frame(
                mesh,
                *mvp,
                grid_for(width as int, height as int, tile_size as int),
                colors,
                old(buffer)@,
                final(buffer)@,
            ),
{
    if wireframe {
        render_scene_wireframe(mesh, mvp, buffer, z_buffer, width, height, tile_size);
    } else {
        render_scene_filled(mesh, mvp, texture, buffer, z_buffer, width, height, tile_size);
    }
}

/// A triangle left out of a pixel's bin does not draw that pixel.
proof fn lemma_unbinned_skips(
    g: Grid,
    mesh: &MeshRenderer,
    mvp: Mat4,
    texture: Option<&Texture>,
    t: int,
    x: int,
    y: int,
    c: u32,
    z: u32,
)
    requires
        g.wf(),
        0 <= x < g.width,
        0 <= y < g.height,
        !in_bin(g, mesh, mvp, t, g.tile_of(x, y)),
    ensures
        fill_pixel(mesh_triangle(mesh, mvp, g.width as int, g.height as int, t), texture, g.width as int, g.height as int, x, y, c, z)
            == (c, z),
{
    let st = mesh_triangle(mesh, mvp, g.width as int, g.height as int, t);
    lemma_screen_triangle_wf(mvp, corners(mesh, mesh.triangles@[t]), g.width as int, g.height as int);
    if let Some(tr) = st {
        if passes(tr, g.width as int, g.height as int, x, y, z) {
            lemma_covered_in_box(tr, x, y);
            let ts = g.tile_size as int;
            let nx = g.tiles_x as int;
            let ny = g.tiles_y as int;
            let size = ts * SUB;
            lemma_grid_bounds(g);
            vstd::arithmetic::div_mod::lemma_fundamental_div_mod(x, ts);
            vstd::arithmetic::div_mod::lemma_fundamental_div_mod(y, ts);
            vstd::arithmetic::div_mod::lemma_fundamental_div_mod(g.width + ts - 1, ts);
            vstd::arithmetic::div_mod::lemma_fundamental_div_mod(g.height + ts - 1, ts);
            let tx = x / ts;
            let ty = y / ts;
            assert(0 <= tx < nx) by (nonlinear_arith)
                requires
                    x == ts * tx + x % ts,
                    0 <= x % ts < ts,
                    0 <= x < g.width,
                    g.width + ts - 1 == ts * nx + (g.width + ts - 1) % ts,
                    (g.width + ts - 1) % ts < ts,
                    ts >= 1,
            ;
            assert(0 <= ty < ny) by (nonlinear_arith)
                requires
                    y == ts * ty + y % ts,
                    0 <= y % ts < ts,
                    0 <= y < g.height,
                    g.height + ts - 1 == ts * ny + (g.height + ts - 1) % ts,
                    (g.height + ts - 1) % ts < ts,
                    ts >= 1,
            ;
            lemma_span_covers(
                min3(tr.v0.pos.x as int, tr.v1.pos.x as int, tr.v2.pos.x as int),
                max3(tr.v0.pos.x as int, tr.v1.pos.x as int, tr.v2.pos.x as int),
                ts,
                nx,
                x,
            );
            lemma_span_covers(
                min3(tr.v0.pos.y as int, tr.v1.pos.y as int, tr.v2.pos.y as int),
                max3(tr.v0.pos.y as int, tr.v1.pos.y as int, tr.v2.pos.y as int),
                ts,
                ny,
                y,
            );
            let b = g.tile_of(x, y);
            assert(b == ty * nx + tx);
            vstd::arithmetic::div_mod::lemma_fundamental_div_mod_converse(b, nx, ty, tx);
            assert(in_bin(g, mesh, mvp, t, b));
        }
    }
}

/// A pixel center inside the sub-pixel interval `[min, max]` lies in a tile
/// of the interval's tile span.
proof fn lemma_span_covers(min: int, max: int, ts: int, n: int, p: int)
    requires
        ts >= 1,
        0 <= p,
        0 <= p / ts < n,
        min <= center_coord(p) <= max,
    ensures
        tile_span(min, max, ts * SUB, n).0 <= p / ts < tile_span(min, max, ts * SUB, n).1,
{
    let size = ts * SUB;
    let q = p / ts;
    vstd::arithmetic::div_mod::lemma_fundamental_div_mod(p, ts);
    vstd::arithmetic::div_mod::lemma_fundamental_div_mod(min, size);
    vstd::arithmetic::div_mod::lemma_fundamental_div_mod(max + size - 1, size);
    let lo = min / size;
    let hi = (max + size - 1) / size;
    assert(lo <= q) by (nonlinear_arith)
        requires
            min == size * lo + min % size,
            0 <= min % size,
            min <= p * 16 + 8,
            p == ts * q + p % ts,
            p % ts < ts,
            size == ts * 16,
            ts >= 1,
    ;
    assert(q < hi) by (nonlinear_arith)
        requires
            max + size - 1 == size * hi + (max + size - 1) % size,
            (max + size - 1) % size < size,
            p * 16 + 8 <= max,
            p == ts * q + p % ts,
            0 <= p % ts,
            size == ts * 16,
            ts >= 1,
    ;
}

/// Drawing a pixel's tile bin gives the same color and depth as drawing
/// every triangle of the mesh in order: binning only leaves out triangles
/// that cannot touch the pixel, so rendering tile by tile loses nothing.
pub proof fn lemma_tiled_equals_whole(
    g: Grid,
    mesh: &MeshRenderer,
    mvp: Mat4,
    texture: Option<&Texture>,
    n: nat,
    x: int,
    y: int,
    c: u32,
    z: u32,
)
    requires
        g.wf(),
        n <= u32::MAX,
        0 <= x < g.width,
        0 <= y < g.height,
    ensures
        draw_pixel(mesh, mvp, texture, g.width as int, g.height as int, bin_list(g, mesh, mvp, g.tile_of(x, y), n), x, y, c, z)
            == draw_pixel(mesh, mvp, texture, g.width as int, g.height as int, all_ids(n), x, y, c, z),
    decreases n,
{
    if n > 0 {
        let m = (n - 1) as nat;
        lemma_tiled_equals_whole(g, mesh, mvp, texture, m, x, y, c, z);
        let b = g.tile_of(x, y);
        let (w, h) = (g.width as int, g.height as int);
        assert(all_ids(n).drop_last() =~= all_ids(m));
        assert(all_ids(n).last() == m as u32);
        let rest = bin_list(g, mesh, mvp, b, m);
        let before = draw_pixel(mesh, mvp, texture, w, h, rest, x, y, c, z);
        if in_bin(g, mesh, mvp, m as int, b) {
            assert(rest.push(m as u32).drop_last() =~= rest);
        } else {
            lemma_unbinned_skips(g, mesh, mvp, texture, m as int, x, y, before.0, before.1);
        }
    }
}

/// A mesh whose listed triangles all face away (or do not project) draws
/// nothing: every pixel keeps its color and depth.
pub proof fn lemma_back_facing_mesh_draws_nothing(
    mesh: &MeshRenderer,
    mvp: Mat4,
    texture: Option<&Texture>,
    width: int,
    height: int,
    ids: Seq<u32>,
    x: int,
    y: int,
    c: u32,
    z: u32,
)
    requires
        forall|k: int|
            0 <= k < ids.len() ==> (#[trigger] mesh_triangle(mesh, mvp, width, height, ids[k] as int) matches Some(t)
                ==> area(t) <= 0),
    ensures
        draw_pixel(mesh, mvp, texture, width, height, ids, x, y, c, z) == (c, z),
    decreases ids.len(),
{
    if ids.len() > 0 {
        let rest = ids.drop_last();
        assert forall|k: int|
            0 <= k < rest.len() implies (#[trigger] mesh_triangle(mesh, mvp, width, height, rest[k] as int) matches Some(t)
                ==> area(t) <= 0) by {
            assert(rest[k] == ids[k]);
        }
        lemma_back_facing_mesh_draws_nothing(mesh, mvp, texture, width, height, rest, x, y, c, z);
        let last = ids.len() - 1;
        assert(ids.last() == ids[last]);
        assert(mesh_triangle(mesh, mvp, width, height, ids[last] as int) matches Some(t) ==> area(t) <= 0);
    }
}

} // verus!
