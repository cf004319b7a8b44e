use rasterizer::geometry::{triangles_from_indices, Mat4, MeshRenderer, UVec3, Vec2, Vec3, Vec4, Vertex, ONE};
use rasterizer::raster::{project, raster_triangle, Tile};
use rasterizer::render::{raster_mesh, render_scene, render_tile, read_tile};
use rasterizer::texture::{Texture, UV_ONE};
use rasterizer::tiles::{bin_triangles, setup_tiles};
use rasterizer::wireframe::{draw_line, raster_triangle_wireframe, tile_color};
use rasterizer::utilities::{
    barycentric_coordinates, clear_buffer, convert_framebuffer_to_image, coords_to_index,
    edge_function, map_to_range, to_argb, Point,
};

const CLEAR: u32 = 0xff00_0000;
const FAR: u32 = u32::MAX;

fn vertex(x: i32, y: i32, w: i32, color: Vec3, uv: Vec2) -> Vertex {
    Vertex::new(
        Vec4 { x, y, z: 0, w },
        Vec3 { x: 0, y: 0, z: ONE },
        color,
        uv,
    )
}

fn red() -> Vec3 {
    Vec3 { x: ONE, y: 0, z: 0 }
}

fn uv0() -> Vec2 {
    Vec2 { x: 0, y: 0 }
}

/// Normalized device coordinate of screen pixel coordinate `p` on an 800-pixel axis.
fn ndc(p: i32) -> i32 {
    (p - 400) * ONE / 400
}

fn buffers(w: usize, h: usize) -> (Vec<u32>, Vec<u32>) {
    (vec![CLEAR; w * h], vec![FAR; w * h])
}

fn quad_mesh() -> MeshRenderer {
    let vs = [
        vertex(ndc(200), ndc(200), ONE, red(), uv0()),
        vertex(ndc(600), ndc(200), ONE, red(), uv0()),
        vertex(ndc(200), ndc(600), ONE, red(), uv0()),
        vertex(ndc(600), ndc(600), ONE, red(), uv0()),
    ];
    let tris = [UVec3 { x: 0, y: 2, z: 1 }, UVec3 { x: 1, y: 2, z: 3 }];
    MeshRenderer::from_vertices(&tris, &vs)
}

fn check_quad(buffer: &[u32]) {
    let red = to_argb(255, 255, 0, 0);
    for y in 0..800 {
        for x in 0..800 {
            let inside = (200..600).contains(&x) && (200..600).contains(&y);
            let want = if inside { red } else { CLEAR };
            assert_eq!(buffer[x + y * 800], want, "pixel ({}, {})", x, y);
        }
    }
}

#[test]
fn quad_is_filled_exactly_with_tiles() {
    let mesh = quad_mesh();
    let (mut c, mut z) = buffers(800, 800);
    render_scene(&mesh, &Mat4::identity(), None, &mut c, &mut z, 800, 800, 64, false);
    check_quad(&c);
}

#[test]
fn quad_is_filled_exactly_without_tiles() {
    let mesh = quad_mesh();
    let (mut c, mut z) = buffers(800, 800);
    raster_mesh(&mesh, &Mat4::identity(), None, &mut c, &mut z, 800, 800);
    check_quad(&c);
}

#[test]
fn back_facing_triangle_writes_nothing() {
    let vs = [
        vertex(ndc(200), ndc(200), ONE, red(), uv0()),
        vertex(ndc(600), ndc(200), ONE, red(), uv0()),
        vertex(ndc(200), ndc(600), ONE, red(), uv0()),
    ];
    let (mut c, mut z) = buffers(800, 800);
    raster_triangle(&vs, &Mat4::identity(), None, &mut c, &mut z, 800, 800);
    assert!(c.iter().all(|&p| p == CLEAR));
    assert!(z.iter().all(|&d| d == FAR));
}

#[test]
fn front_facing_triangle_writes_depth_of_reciprocal_w() {
    let vs = [
        vertex(ndc(200), ndc(200), ONE, red(), uv0()),
        vertex(ndc(200), ndc(600), ONE, red(), uv0()),
        vertex(ndc(600), ndc(200), ONE, red(), uv0()),
    ];
    let (mut c, mut z) = buffers(800, 800);
    raster_triangle(&vs, &Mat4::identity(), None, &mut c, &mut z, 800, 800);
    // w = 1 everywhere: the depth key is 1.0 in 16.16 fixed point.
    assert_eq!(z[300 + 300 * 800], 0x10000);
    assert_eq!(c[300 + 300 * 800], to_argb(255, 255, 0, 0));
    assert_eq!(c[500 + 500 * 800], CLEAR);
}

#[test]
fn drawing_twice_equals_drawing_once() {
    let vs = [
        vertex(ndc(100), ndc(150), ONE, red(), uv0()),
        vertex(ndc(250), ndc(700), 2 * ONE, Vec3 { x: 0, y: ONE, z: 0 }, uv0()),
        vertex(ndc(650), ndc(90), ONE, Vec3 { x: 0, y: 0, z: ONE }, uv0()),
    ];
    let (mut c1, mut z1) = buffers(800, 800);
    raster_triangle(&vs, &Mat4::identity(), None, &mut c1, &mut z1, 800, 800);
    let (mut c2, mut z2) = (c1.clone(), z1.clone());
    raster_triangle(&vs, &Mat4::identity(), None, &mut c2, &mut z2, 800, 800);
    assert!(c1.iter().any(|&p| p != CLEAR));
    assert_eq!(c1, c2);
    assert_eq!(z1, z2);
}

#[test]
fn smaller_depth_key_wins_in_either_order() {
    // Both triangles cover the same screen area; scaling a clip position by 2
    // keeps its screen position and halves its reciprocal w, the depth key.
    let near = [
        vertex(2 * ndc(100), 2 * ndc(100), 2 * ONE, Vec3 { x: 0, y: ONE, z: 0 }, uv0()),
        vertex(2 * ndc(100), 2 * ndc(700), 2 * ONE, Vec3 { x: 0, y: ONE, z: 0 }, uv0()),
        vertex(2 * ndc(700), 2 * ndc(100), 2 * ONE, Vec3 { x: 0, y: ONE, z: 0 }, uv0()),
    ];
    let far = [
        vertex(ndc(100), ndc(100), ONE, red(), uv0()),
        vertex(ndc(100), ndc(700), ONE, red(), uv0()),
        vertex(ndc(700), ndc(100), ONE, red(), uv0()),
    ];
    let green = to_argb(255, 0, 255, 0);
    let m = Mat4::identity();
    let (mut c, mut z) = buffers(800, 800);
    raster_triangle(&far, &m, None, &mut c, &mut z, 800, 800);
    raster_triangle(&near, &m, None, &mut c, &mut z, 800, 800);
    assert_eq!(c[200 + 200 * 800], green);
    let (mut c, mut z) = buffers(800, 800);
    raster_triangle(&near, &m, None, &mut c, &mut z, 800, 800);
    raster_triangle(&far, &m, None, &mut c, &mut z, 800, 800);
    assert_eq!(c[200 + 200 * 800], green);
    assert_eq!(z[200 + 200 * 800], 0x8000);
}

#[test]
fn centroid_pixel_is_drawn() {
    // Corners at pixel coordinates (90, 90), (90, 510), (510, 90): the
    // centroid (230, 230) is a corner of pixel (229, 229), whose center is
    // well inside.
    let vs = [
        vertex(ndc(90), ndc(90), ONE, red(), uv0()),
        vertex(ndc(90), ndc(510), ONE, red(), uv0()),
        vertex(ndc(510), ndc(90), ONE, red(), uv0()),
    ];
    let (mut c, mut z) = buffers(800, 800);
    raster_triangle(&vs, &Mat4::identity(), None, &mut c, &mut z, 800, 800);
    assert_eq!(c[229 + 229 * 800], to_argb(255, 255, 0, 0));
    let p = |x: i64, y: i64| Point { x, y };
    // The same triangle in sub-pixel units; weights at the centroid are equal
    // and add up to the doubled area.
    let (a, b, d) = (p(90 * 16, 90 * 16), p(90 * 16, 510 * 16), p(510 * 16, 90 * 16));
    let centroid = p(230 * 16, 230 * 16);
    let area = edge_function(a, b, d);
    let (m0, m1, m2) = barycentric_coordinates(centroid, a, b, d).unwrap();
    assert_eq!(m0, m1);
    assert_eq!(m1, m2);
    assert_eq!(m0 + m1 + m2, area);
}

#[test]
fn vertex_with_zero_w_is_not_projected() {
    let v = vertex(0, 0, 0, red(), uv0());
    assert!(project(&Mat4::identity(), &v, 800, 800).is_none());
    let v = vertex(0, 0, ONE, red(), uv0());
    let s = project(&Mat4::identity(), &v, 800, 800).unwrap();
    assert_eq!((s.pos.x, s.pos.y, s.rec), (400 * 16, 400 * 16, 0x10000));
}

#[test]
fn perspective_correct_texture_coordinates() {
    // A 256 x 1 texture whose texel i holds i: the sampled color tells the
    // interpolated u. The right edge of the triangle is four times as far.
    let tex = Texture { width: 256, height: 1, data: (0..256u32).collect() };
    let vs = [
        vertex(ndc(100), ndc(100), ONE, red(), Vec2 { x: 0, y: 0 }),
        vertex(ndc(100), ndc(700), ONE, red(), Vec2 { x: 0, y: 0 }),
        vertex(
            4 * ndc(700),
            4 * ndc(400),
            4 * ONE,
            red(),
            Vec2 { x: UV_ONE - 1, y: 0 },
        ),
    ];
    let (mut c, mut z) = buffers(800, 800);
    raster_triangle(&vs, &Mat4::identity(), Some(&tex), &mut c, &mut z, 800, 800);
    for &x in &[150usize, 250, 400, 550, 650] {
        let y = 400usize;
        // Screen-space fraction t of the way from the left edge to the right
        // corner along the middle row, then the perspective-correct u.
        let t = ((x as f64 + 0.5) - 100.0) / 600.0;
        let (r0, r1) = (1.0, 0.25);
        let u = t * r1 / ((1.0 - t) * r0 + t * r1);
        let expected = u * (UV_ONE - 1) as f64 / UV_ONE as f64 * 255.0;
        let got = c[x + y * 800] as f64;
        assert!((got - expected).abs() <= 1.5, "x {}: got {} want {}", x, got, expected);
    }
}

#[test]
fn texture_sampling_wraps_around() {
    let tex = Texture::from_rgb(4, 4, &(0..48u8).collect());
    let a = tex.argb_at_uv(UV_ONE + UV_ONE / 2, -UV_ONE / 4);
    let b = tex.argb_at_uv(UV_ONE / 2, 3 * UV_ONE / 4);
    assert_eq!(a, b);
    // u = 0.5 -> column 1, v = 0.75 -> row 2: texel 9.
    assert_eq!(b, to_argb(255, 27, 28, 29));
}

#[test]
fn texture_with_malformed_size_gives_magenta() {
    let tex = Texture { width: 4, height: 4, data: vec![1, 2, 3] };
    assert_eq!(tex.argb_at_uv(UV_ONE / 2, UV_ONE / 2), to_argb(255, 255, 0, 255));
    assert_eq!(tex.argb_at_uv(0, 0), 1);
    let empty = Texture { width: 0, height: 0, data: vec![] };
    assert_eq!(empty.argb_at_uv(0, 0), to_argb(255, 255, 0, 255));
}

#[test]
fn texture_from_rgb_packs_opaque_texels() {
    let tex = Texture::from_rgb(2, 1, &vec![1, 2, 3, 4, 5, 6, 7]);
    assert_eq!(tex.data, vec![0xff01_0203, 0xff04_0506]);
}

#[test]
fn binning_assigns_triangles_to_every_overlapped_tile() {
    // One triangle over tiles 0 and 1 of the top row, one inside tile 5.
    let vs = [
        vertex(ndc(10), ndc(10), ONE, red(), uv0()),
        vertex(ndc(10), ndc(50), ONE, red(), uv0()),
        vertex(ndc(100), ndc(10), ONE, red(), uv0()),
        vertex(ndc(330), ndc(70), ONE, red(), uv0()),
        vertex(ndc(330), ndc(120), ONE, red(), uv0()),
        vertex(ndc(370), ndc(70), ONE, red(), uv0()),
    ];
    let tris = [UVec3 { x: 0, y: 1, z: 2 }, UVec3 { x: 3, y: 4, z: 5 }];
    let mesh = MeshRenderer::from_vertices(&tris, &vs);
    let mut setup = setup_tiles(800, 800, 64);
    assert_eq!(setup.grid.tiles_x, 13);
    assert_eq!(setup.tiles.len(), 169);
    assert_eq!(setup.tiles[14], Tile { min_x: 64, min_y: 64, max_x: 128, max_y: 128 });
    bin_triangles(&mesh, &mut setup, &Mat4::identity());
    let holding = |t: u32| -> Vec<usize> {
        (0..setup.bins.len()).filter(|&b| setup.bins[b].triangle_indices.contains(&t)).collect()
    };
    assert_eq!(holding(0), vec![0, 1]);
    assert_eq!(holding(1), vec![18]);
}

#[test]
fn tile_rendering_touches_only_its_tile() {
    let mesh = quad_mesh();
    let mut setup = setup_tiles(800, 800, 64);
    bin_triangles(&mesh, &mut setup, &Mat4::identity());
    let b = 3 * 13 + 3; // pixels 192..256 on both axes
    let tile = setup.tiles[b];
    let (c, z) = buffers(800, 800);
    let mut lc = read_tile(&c, 800, 800, tile, 0);
    let mut lz = read_tile(&z, 800, 800, tile, 0);
    render_tile(&setup, b, &mesh, &Mat4::identity(), None, &mut lc, &mut lz, false);
    assert_eq!(lc.len(), 64 * 64);
    assert_eq!(lc[0], CLEAR); // pixel (192, 192)
    assert_eq!(lc[8 + 8 * 64], to_argb(255, 255, 0, 0)); // pixel (200, 200)
}

#[test]
fn mesh_sections_are_rebased() {
    let v = vertex(0, 0, ONE, red(), uv0());
    let mut mesh = MeshRenderer::new();
    mesh.add_section_from_vertices(&[UVec3 { x: 0, y: 1, z: 2 }], &[v, v, v]);
    mesh.add_section_from_vertices(&[UVec3 { x: 2, y: 0, z: 1 }], &[v, v, v]);
    assert_eq!(mesh.vertices().len(), 6);
    assert_eq!(mesh.triangles()[1], UVec3 { x: 5, y: 3, z: 4 });
    let other = MeshRenderer::from_vertices(&[UVec3 { x: 0, y: 0, z: 0 }], &[v]);
    let merged = mesh.add(other);
    assert_eq!(merged.triangles()[2], UVec3 { x: 6, y: 6, z: 6 });
    let corners = merged.get_vertices_from_triangle(merged.triangles()[1]);
    assert_eq!(corners[0], v);
}

#[test]
fn mesh_buffers_get_default_color_and_uv() {
    let mut mesh = MeshRenderer::new();
    let p = Vec3 { x: 1, y: 2, z: 3 };
    let n = Vec3 { x: 0, y: 0, z: ONE };
    mesh.add_section_from_buffers(&[UVec3 { x: 0, y: 0, z: 0 }], &[p], &[n], &[], &[]);
    let v = mesh.vertices()[0];
    assert_eq!(v.position, Vec4 { x: 1, y: 2, z: 3, w: ONE });
    assert_eq!(v.color, Vec3 { x: ONE, y: ONE, z: ONE });
    assert_eq!(v.uv, Vec2 { x: 0, y: 0 });
}

#[test]
fn transform_applies_the_matrix() {
    let mut m = Mat4::identity();
    m.w_axis = Vec4 { x: 2 * ONE, y: 0, z: 0, w: ONE };
    let c = m.transform(Vec4 { x: ONE, y: ONE, z: 0, w: ONE });
    assert_eq!((c.x, c.y, c.z, c.w), (3 * ONE as i64, ONE as i64, 0, ONE as i64));
}

#[test]
fn small_helpers() {
    assert_eq!(to_argb(0x12, 0x34, 0x56, 0x78), 0x1234_5678);
    assert_eq!(coords_to_index(3, 2, 10), 23);
    assert_eq!(map_to_range(0, -ONE as i64, ONE as i64, 0, 800), 400);
    assert_eq!(map_to_range(-ONE as i64 / 2, -ONE as i64, ONE as i64, 0, 800), 200);
    assert_eq!(map_to_range(-3, 0, 2, 0, 1), -2);
    let mut buf = vec![1u32, 2, 3];
    clear_buffer(&mut buf, 9);
    assert_eq!(buf, vec![9, 9, 9]);
    let mut bytes = vec![0u8; 9];
    convert_framebuffer_to_image(&[0x1122_3344, 0xff00_80c0], &mut bytes);
    assert_eq!(bytes, vec![0x22, 0x33, 0x44, 0x11, 0x00, 0x80, 0xc0, 0xff, 0]);
    let a = Point { x: 0, y: 0 };
    let b = Point { x: 0, y: 10 };
    let c = Point { x: 10, y: 0 };
    assert_eq!(edge_function(a, b, c), 100);
    assert!(barycentric_coordinates(Point { x: 20, y: 20 }, a, b, c).is_none());
}

fn screen_tile(w: usize, h: usize) -> Tile {
    Tile { min_x: 0, min_y: 0, max_x: w, max_y: h }
}

#[test]
fn line_steps_along_the_longer_axis() {
    let mut buf = vec![0u32; 10 * 10];
    draw_line(&mut buf, 10, 10, screen_tile(10, 10), 7, 1, 1, 7, 4);
    let lit: Vec<(usize, usize)> =
        (0..100).filter(|&i| buf[i] == 7).map(|i| (i % 10, i / 10)).collect();
    // Seven pixels, one per column, rows rounded to nearest (halves up).
    assert_eq!(lit, vec![(1, 1), (2, 2), (3, 2), (4, 3), (5, 3), (6, 4), (7, 4)]);
}

#[test]
fn line_is_clipped_to_the_screen() {
    let mut buf = vec![0u32; 4 * 4];
    draw_line(&mut buf, 4, 4, screen_tile(4, 4), 1, -3, 2, 10, 2);
    assert_eq!(&buf[8..12], &[1, 1, 1, 1]);
    assert_eq!(buf.iter().filter(|&&p| p == 1).count(), 4);
    let mut dot = vec![0u32; 4];
    draw_line(&mut dot, 2, 2, screen_tile(2, 2), 5, 1, 1, 1, 1);
    assert_eq!(dot, vec![0, 0, 0, 5]);
}

#[test]
fn wireframe_draws_only_the_edges() {
    let vs = [
        vertex(ndc(200), ndc(200), ONE, red(), uv0()),
        vertex(ndc(200), ndc(600), ONE, red(), uv0()),
        vertex(ndc(600), ndc(200), ONE, red(), uv0()),
    ];
    let mut c = vec![CLEAR; 800 * 800];
    raster_triangle_wireframe(&vs, &Mat4::identity(), &mut c, 800, 800, screen_tile(800, 800), 9);
    assert_eq!(c[200 + 200 * 800], 9);
    assert_eq!(c[400 + 200 * 800], 9);
    assert_eq!(c[200 + 400 * 800], 9);
    assert_eq!(c[400 + 400 * 800], 9);
    assert_eq!(c[300 + 300 * 800], CLEAR);
}

#[test]
fn tile_colors_are_opaque_and_fixed_per_tile() {
    for b in 0..20 {
        let c = tile_color(b);
        assert_eq!(c >> 24, 255);
        assert!((c >> 16) & 0xff < 255 && (c >> 8) & 0xff < 255 && c & 0xff < 255);
        assert_eq!(c, tile_color(b));
    }
    assert!((0..20).any(|b| tile_color(b) != tile_color(0)));
}

#[test]
fn wireframe_tile_keeps_depth() {
    let mesh = quad_mesh();
    let mut setup = setup_tiles(800, 800, 64);
    bin_triangles(&mesh, &mut setup, &Mat4::identity());
    let b = 3 * 13 + 3;
    let tile = setup.tiles[b];
    let (c, z) = buffers(800, 800);
    let mut lc = read_tile(&c, 800, 800, tile, 0);
    let mut lz = read_tile(&z, 800, 800, tile, 0);
    let z_before = lz.clone();
    render_tile(&setup, b, &mesh, &Mat4::identity(), None, &mut lc, &mut lz, true);
    assert_eq!(lz, z_before);
    assert_eq!(lc[8 + 8 * 64], tile_color(b)); // corner pixel (200, 200)
    assert_eq!(lc[8 + 28 * 64], tile_color(b)); // pixel (200, 220), on the left edge
    assert_eq!(lc[30 + 20 * 64], CLEAR);
}

#[test]
fn wireframe_culls_back_facing_triangles() {
    let vs = [
        vertex(ndc(200), ndc(200), ONE, red(), uv0()),
        vertex(ndc(600), ndc(200), ONE, red(), uv0()),
        vertex(ndc(200), ndc(600), ONE, red(), uv0()),
    ];
    let mut c = vec![CLEAR; 800 * 800];
    raster_triangle_wireframe(&vs, &Mat4::identity(), &mut c, 800, 800, screen_tile(800, 800), 9);
    assert!(c.iter().all(|&p| p == CLEAR));
}

#[test]
fn wireframe_scene_outlines_and_keeps_depth() {
    let mesh = quad_mesh();
    let (mut c, mut z) = buffers(800, 800);
    render_scene(&mesh, &Mat4::identity(), None, &mut c, &mut z, 800, 800, 64, true);
    assert!(z.iter().all(|&d| d == FAR));
    // Pixel (200, 200) lies in tile (3, 3) of the 13-wide grid.
    assert_eq!(c[200 + 200 * 800], tile_color(3 * 13 + 3));
    assert_eq!(c[300 + 250 * 800], CLEAR);
    assert_eq!(c[100 + 100 * 800], CLEAR);
}

#[test]
fn binning_appends_to_existing_bins() {
    let mesh = quad_mesh();
    let mut setup = setup_tiles(800, 800, 64);
    bin_triangles(&mesh, &mut setup, &Mat4::identity());
    let b = 3 * 13 + 3;
    assert_eq!(setup.bins[b].triangle_indices, vec![0, 1]);
    bin_triangles(&mesh, &mut setup, &Mat4::identity());
    assert_eq!(setup.bins[b].triangle_indices, vec![0, 1, 0, 1]);
}

#[test]
fn mesh_buffers_without_normals_get_zero_normals() {
    let mut mesh = MeshRenderer::new();
    let p = Vec3 { x: 1, y: 2, z: 3 };
    mesh.add_section_from_buffers(&[UVec3 { x: 0, y: 1, z: 0 }], &[p, p], &[], &[], &[]);
    assert_eq!(mesh.vertices().len(), 2);
    assert_eq!(mesh.vertices()[1].normal, Vec3 { x: 0, y: 0, z: 0 });
}

#[test]
fn indices_group_into_triangles() {
    let t = triangles_from_indices(&[0, 1, 2, 2, 1, 3, 7]);
    assert_eq!(t, vec![UVec3 { x: 0, y: 1, z: 2 }, UVec3 { x: 2, y: 1, z: 3 }]);
    assert!(triangles_from_indices(&[4, 5]).is_empty());
}

#[test]
fn vertex_arithmetic_is_component_wise() {
    let a = vertex(ONE, 2 * ONE, 3 * ONE, Vec3 { x: ONE, y: 0, z: ONE / 2 }, Vec2 { x: 10, y: 20 });
    let b = vertex(ONE, -ONE, 0, Vec3 { x: 0, y: ONE, z: ONE / 2 }, Vec2 { x: 1, y: 2 });
    let s = a.add(b);
    assert_eq!(s.position, Vec4 { x: 2 * ONE, y: ONE, z: 0, w: 3 * ONE });
    assert_eq!(s.color, Vec3 { x: ONE, y: ONE, z: ONE });
    assert_eq!(s.uv, Vec2 { x: 11, y: 22 });
    assert_eq!(s.sub(b), a);
    let h = a.scale(ONE / 2);
    assert_eq!(h.position, Vec4 { x: ONE / 2, y: ONE, z: 0, w: 3 * ONE / 2 });
    assert_eq!(h.normal, Vec3 { x: 0, y: 0, z: ONE / 2 });
    assert_eq!(h.uv, Vec2 { x: 5, y: 10 });
}
