use rusterizer::math::{Mat4, Vec2, Vec3, Vec4};
use rusterizer::mesh::{Mesh, Model};
use rusterizer::rendering::{perspective_divide, Renderer};
use rusterizer::structs::{FragIn, Vertex};
use rusterizer::image::{ImageData, PixelFormat};
use rusterizer::texture::{FilterMode, Material, Sampler, Texture, WrapMode};

const WHITE: i32 = 65536;

fn fx(value: f64) -> i32 {
    (value * 65536.0).round() as i32
}

fn towards_the_light() -> Vec3 {
    Vec3 { x: 58617, y: 29309, z: 0 }
}

fn vertex(x: f64, y: f64, z: f64, colour: Vec3, u: f64, v: f64) -> Vertex {
    Vertex {
        position: Vec3 { x: fx(x), y: fx(y), z: fx(z) },
        normal: towards_the_light(),
        tangent: Vec3 { x: 0, y: 0, z: 0 },
        colour,
        uv: Vec2 { x: fx(u), y: fx(v) },
    }
}

fn fragment(x: f64, y: f64, z: f64, w: f64, colour: Vec3) -> FragIn {
    FragIn {
        position: Vec4 { x: fx(x), y: fx(y), z: fx(z), w: fx(w) },
        normal: towards_the_light(),
        tangent: Vec3 { x: 0, y: 0, z: 0 },
        colour,
        uv: Vec2 { x: 0, y: 0 },
    }
}

fn white() -> Vec3 {
    Vec3 { x: WHITE, y: WHITE, z: WHITE }
}

fn red() -> Vec3 {
    Vec3 { x: WHITE, y: 0, z: 0 }
}

fn green() -> Vec3 {
    Vec3 { x: 0, y: WHITE, z: 0 }
}

fn checkerboard() -> Material {
    Material {
        texture: Texture {
            width: 2,
            height: 2,
            depth: 4,
            data: vec![0xFFFFFFFF, 0xFF000000, 0xFF000000, 0xFFFFFFFF],
            mipmap_offsets: vec![0],
        },
        sampler: Sampler {
            filter_mode_mag: FilterMode::Point,
            filter_mode_min: FilterMode::Point,
            filter_mode_mipmap: FilterMode::Point,
            wrap_mode_s: WrapMode::Repeat,
            wrap_mode_t: WrapMode::Repeat,
            mipmap_enabled: false,
        },
    }
}

fn quad(colour: Vec3) -> Mesh {
    let top_left = vertex(-1.0, 1.0, 0.5, colour, 0.0, 0.0);
    let top_right = vertex(1.0, 1.0, 0.5, colour, 1.0, 0.0);
    let bottom_left = vertex(-1.0, -1.0, 0.5, colour, 0.0, 1.0);
    let bottom_right = vertex(1.0, -1.0, 0.5, colour, 1.0, 1.0);
    Mesh { verts: vec![top_left, bottom_left, bottom_right, top_left, bottom_right, top_right] }
}

fn inside(x: usize, y: usize) -> bool {
    let (px, py) = (x as f64 + 0.5, y as f64 + 0.5);
    let corners = [(100.0, 100.0), (300.0, 500.0), (500.0, 100.0)];
    let mut all = true;
    for i in 0..3 {
        let (ax, ay) = corners[(i + 1) % 3];
        let (bx, by) = corners[(i + 2) % 3];
        let e = (px - ax) * (by - ay) - (py - ay) * (bx - ax);
        all = all && e >= 0.0;
    }
    all
}

#[test]
fn a_white_triangle_fills_just_its_own_pixels() {
    let renderer = Renderer::new();
    let mesh = Mesh {
        verts: vec![
            vertex(100.0 / 256.0 - 1.0, 1.0 - 100.0 / 256.0, 0.5, white(), 0.0, 0.0),
            vertex(300.0 / 256.0 - 1.0, 1.0 - 500.0 / 256.0, 0.5, white(), 0.0, 0.0),
            vertex(500.0 / 256.0 - 1.0, 1.0 - 100.0 / 256.0, 0.5, white(), 0.0, 0.0),
        ],
    };
    let mut colour = vec![0u32; 512 * 512];
    let mut depth = vec![0u32; 512 * 512];
    renderer.draw_mesh(&mesh, &Mat4::identity(), &mut colour, &mut depth, 512, 512, None);
    let mut filled = 0;
    for y in 0..512 {
        for x in 0..512 {
            let i = x + y * 512;
            if inside(x, y) {
                filled += 1;
                assert_eq!(colour[i], 0x00FFFFFF);
                assert_eq!(depth[i], 1 << 29);
            } else {
                assert_eq!(colour[i], 0);
                assert_eq!(depth[i], 0);
            }
        }
    }
    assert_eq!(filled, 80000);
    assert_eq!(colour[300 + 200 * 512], 0x00FFFFFF);
    assert_eq!(colour[99 + 100 * 512], 0);
    assert_eq!(colour[300 + 99 * 512], 0);
    assert_eq!(colour[300 + 498 * 512], 0x00FFFFFF);
    assert_eq!(colour[300 + 499 * 512], 0);
    assert_eq!(colour[100 + 100 * 512], 0x00FFFFFF);
    assert_eq!(colour[499 + 100 * 512], 0x00FFFFFF);
    assert_eq!(colour[500 + 100 * 512], 0);
}

#[test]
fn a_triangle_turned_away_is_not_filled() {
    let renderer = Renderer::new();
    let mesh = Mesh {
        verts: vec![
            vertex(-0.5, 0.5, 0.5, white(), 0.0, 0.0),
            vertex(0.5, 0.5, 0.5, white(), 0.0, 0.0),
            vertex(0.0, -0.5, 0.5, white(), 0.0, 0.0),
        ],
    };
    let mut colour = vec![0u32; 64 * 64];
    let mut depth = vec![0u32; 64 * 64];
    renderer.draw_mesh(&mesh, &Mat4::identity(), &mut colour, &mut depth, 64, 64, None);
    assert_eq!(colour, vec![0u32; 64 * 64]);
    assert_eq!(depth, vec![0u32; 64 * 64]);
}

#[test]
fn a_textured_quad_shows_the_checkerboard() {
    let renderer = Renderer::new();
    let material = checkerboard();
    let mut colour = vec![0x123456u32; 64];
    let mut depth = vec![0u32; 64];
    renderer.draw_mesh(&quad(white()), &Mat4::identity(), &mut colour, &mut depth, 8, 8, Some(&material));
    for y in 0..8 {
        for x in 0..8 {
            let expected = if (x < 4) == (y < 4) { 0x00FFFFFF } else { 0x00000000 };
            assert_eq!(colour[x + y * 8], expected);
            assert_eq!(depth[x + y * 8], 1 << 29);
        }
    }
}

#[test]
fn a_transparent_texel_leaves_the_pixel() {
    let renderer = Renderer::new();
    let mut material = checkerboard();
    material.texture.data = vec![0xFFFFFFFF, 0x7FFFFFFF, 0x00000000, 0x80FF0000];
    let mut colour = vec![0x123456u32; 64];
    let mut depth = vec![5u32; 64];
    renderer.draw_mesh(&quad(white()), &Mat4::identity(), &mut colour, &mut depth, 8, 8, Some(&material));
    for y in 0..8 {
        for x in 0..8 {
            let i = x + y * 8;
            match (x < 4, y < 4) {
                (true, true) => assert_eq!((colour[i], depth[i]), (0x00FFFFFF, 1 << 29)),
                (false, false) => assert_eq!((colour[i], depth[i]), (0x000000FF, 1 << 29)),
                _ => assert_eq!((colour[i], depth[i]), (0x123456, 5)),
            }
        }
    }
}

fn two_triangles(first_near: bool) -> (Vec<u32>, Vec<u32>) {
    let near = [
        fragment(-1.0, 1.0, 0.75, 1.0, red()),
        fragment(-1.0, -1.0, 0.75, 1.0, red()),
        fragment(1.0, -1.0, 0.75, 1.0, red()),
    ];
    let far = [
        fragment(-1.0, 1.0, 0.25, 1.0, green()),
        fragment(-1.0, -1.0, 0.25, 1.0, green()),
        fragment(1.0, 1.0, 0.25, 1.0, green()),
    ];
    let mut colour = vec![0u32; 256];
    let mut depth = vec![0u32; 256];
    let order = if first_near { [near, far] } else { [far, near] };
    for t in order {
        Renderer::draw_triangle_filled(t[0], t[1], t[2], &mut colour, &mut depth, 16, 16, None);
    }
    (colour, depth)
}

#[test]
fn the_nearer_triangle_shows_in_either_order() {
    let (colour, depth) = two_triangles(true);
    assert_eq!(two_triangles(false), (colour.clone(), depth.clone()));
    assert_eq!(colour[2 + 8 * 16], 0x00FF0000);
    assert_eq!(depth[2 + 8 * 16], 3 << 28);
    assert_eq!(colour[2 + 13 * 16], 0x00FF0000);
    assert_eq!(colour[13 + 13 * 16], 0x00FF0000);
    assert_eq!(colour[13 + 2 * 16], 0x0000FF00);
    assert_eq!(depth[13 + 2 * 16], 1 << 28);
    assert_eq!(colour[2 + 2 * 16], 0x00FF0000);
    assert_eq!(colour[10 + 1 * 16], 0x0000FF00);
    assert_eq!(colour[14 + 5 * 16], 0x00000000);
    assert_eq!(depth[14 + 5 * 16], 0);
    let mut both = 0;
    for i in 0..256 {
        if colour[i] == 0x00FF0000 {
            both += 1;
            assert_eq!(depth[i], 3 << 28);
        }
    }
    assert_eq!(both, 136);
}

#[test]
fn the_far_triangle_shows_where_the_near_one_is_not() {
    let far = [
        fragment(-1.0, 1.0, 0.25, 1.0, green()),
        fragment(-1.0, -1.0, 0.25, 1.0, green()),
        fragment(1.0, -1.0, 0.25, 1.0, green()),
    ];
    let near = [
        fragment(-1.0, 1.0, 0.75, 1.0, red()),
        fragment(-1.0, 0.0, 0.75, 1.0, red()),
        fragment(0.0, 0.0, 0.75, 1.0, red()),
    ];
    let mut colour = vec![0u32; 256];
    let mut depth = vec![0u32; 256];
    Renderer::draw_triangle_filled(near[0], near[1], near[2], &mut colour, &mut depth, 16, 16, None);
    Renderer::draw_triangle_filled(far[0], far[1], far[2], &mut colour, &mut depth, 16, 16, None);
    assert_eq!(colour[1 + 5 * 16], 0x00FF0000);
    assert_eq!(colour[1 + 12 * 16], 0x0000FF00);
    assert_eq!(depth[1 + 12 * 16], 1 << 28);
    assert_eq!(colour[12 + 1 * 16], 0);
}

#[test]
fn a_fragment_of_equal_depth_takes_the_pixel() {
    let first = [
        fragment(-1.0, 1.0, 0.5, 1.0, red()),
        fragment(-1.0, -1.0, 0.5, 1.0, red()),
        fragment(1.0, -1.0, 0.5, 1.0, red()),
    ];
    let second = [
        fragment(-1.0, 1.0, 0.5, 1.0, green()),
        fragment(-1.0, -1.0, 0.5, 1.0, green()),
        fragment(1.0, -1.0, 0.5, 1.0, green()),
    ];
    let mut colour = vec![0u32; 256];
    let mut depth = vec![0u32; 256];
    Renderer::draw_triangle_filled(first[0], first[1], first[2], &mut colour, &mut depth, 16, 16, None);
    Renderer::draw_triangle_filled(second[0], second[1], second[2], &mut colour, &mut depth, 16, 16, None);
    assert_eq!(colour[2 + 8 * 16], 0x0000FF00);
}

#[test]
fn depth_outside_the_unit_interval_is_not_drawn() {
    let mut colour = vec![0u32; 256];
    let mut depth = vec![0u32; 256];
    for z in [-0.25, 1.25] {
        Renderer::draw_triangle_filled(
            fragment(-1.0, 1.0, z, 1.0, red()),
            fragment(-1.0, -1.0, z, 1.0, red()),
            fragment(1.0, -1.0, z, 1.0, red()),
            &mut colour,
            &mut depth,
            16,
            16,
            None,
        );
    }
    assert_eq!(colour, vec![0u32; 256]);
    assert_eq!(depth, vec![0u32; 256]);
    for z in [0.0, 1.0] {
        let mut colour = vec![0u32; 256];
        let mut depth = vec![0u32; 256];
        Renderer::draw_triangle_filled(
            fragment(-1.0, 1.0, z, 1.0, red()),
            fragment(-1.0, -1.0, z, 1.0, red()),
            fragment(1.0, -1.0, z, 1.0, red()),
            &mut colour,
            &mut depth,
            16,
            16,
            None,
        );
        assert_eq!(colour[2 + 8 * 16], 0x00FF0000);
        assert_eq!(depth[2 + 8 * 16], (z * 1073741824.0) as u32);
    }
}

#[test]
fn a_vertex_behind_the_eye_stops_the_triangle() {
    let mut colour = vec![0u32; 256];
    let mut depth = vec![0u32; 256];
    for w in [0.0, -1.0] {
        Renderer::draw_triangle_filled(
            fragment(-1.0, 1.0, 0.5, 1.0, red()),
            fragment(-1.0, -1.0, 0.5, w, red()),
            fragment(1.0, -1.0, 0.5, 1.0, red()),
            &mut colour,
            &mut depth,
            16,
            16,
            None,
        );
    }
    assert_eq!(colour, vec![0u32; 256]);
}

#[test]
fn a_triangle_one_pixel_wide_is_skipped() {
    let mut colour = vec![0u32; 256];
    let mut depth = vec![0u32; 256];
    Renderer::draw_triangle_filled(
        fragment(0.0, 1.0, 0.5, 1.0, red()),
        fragment(0.0, -1.0, 0.5, 1.0, red()),
        fragment(0.1, -1.0, 0.5, 1.0, red()),
        &mut colour,
        &mut depth,
        16,
        16,
        None,
    );
    assert_eq!(colour, vec![0u32; 256]);
}

#[test]
fn depth_divides_by_the_interpolated_w() {
    let mut colour = vec![0u32; 256];
    let mut depth = vec![0u32; 256];
    Renderer::draw_triangle_filled(
        fragment(-1.0, 1.0, 0.5, 2.0, red()),
        fragment(-1.0, -1.0, 0.5, 2.0, red()),
        fragment(1.0, -1.0, 0.5, 2.0, red()),
        &mut colour,
        &mut depth,
        16,
        16,
        None,
    );
    assert_eq!(depth[2 + 8 * 16], 1 << 28);
    assert_eq!(colour[2 + 8 * 16], 0x00FF0000);
}

#[test]
fn perspective_divide_keeps_w() {
    let v = fragment(1.0, -2.0, 0.5, 4.0, red());
    let d = perspective_divide(v);
    assert_eq!(d.position, Vec4 { x: fx(0.25), y: fx(-0.5), z: fx(0.125), w: fx(4.0) });
    assert_eq!(d.colour, v.colour);
    assert_eq!(d.normal, v.normal);
    assert_eq!(d.uv, v.uv);
    let tiny = FragIn { position: Vec4 { x: 65536, y: -65536, z: 1, w: 1 }, ..v };
    assert_eq!(
        perspective_divide(tiny).position,
        Vec4 { x: i32::MAX, y: i32::MIN, z: 65536, w: 1 }
    );
    let none = FragIn { position: Vec4 { x: 5, y: 6, z: 7, w: 0 }, ..v };
    assert_eq!(perspective_divide(none), none);
    let negative = FragIn { position: Vec4 { x: 5, y: 6, z: 7, w: -8 }, ..v };
    assert_eq!(perspective_divide(negative), negative);
}

#[test]
fn the_vertex_stage_applies_model_view_and_projection() {
    let mut renderer = Renderer::new();
    let mut view = Mat4::identity();
    view.w_axis = Vec4 { x: 0, y: 0, z: fx(-3.0), w: fx(1.0) };
    let projection = Mat4 {
        x_axis: Vec4 { x: fx(2.0), y: 0, z: 0, w: 0 },
        y_axis: Vec4 { x: 0, y: fx(2.0), z: 0, w: 0 },
        z_axis: Vec4 { x: 0, y: 0, z: fx(-1.0), w: fx(-1.0) },
        w_axis: Vec4 { x: 0, y: 0, z: fx(-0.5), w: 0 },
    };
    renderer.set_view_matrix(view);
    renderer.set_projection_matrix(projection);
    assert_eq!(renderer.view_matrix, view);
    assert_eq!(renderer.projection_matrix, projection);
    let mut model = Mat4::identity();
    model.x_axis.x = fx(0.5);
    model.w_axis.y = fx(1.0);
    let v = vertex(2.0, 1.0, 1.0, red(), 0.25, 0.75);
    let out = renderer.vertex_shader(&v, &model);
    assert_eq!(out.position, Vec4 { x: fx(2.0), y: fx(4.0), z: fx(1.5), w: fx(2.0) });
    assert_eq!(out.normal, v.normal);
    assert_eq!(out.tangent, v.tangent);
    assert_eq!(out.colour, v.colour);
    assert_eq!(out.uv, v.uv);
}

#[test]
fn a_triangle_across_the_near_plane_is_cut() {
    let renderer = Renderer::new();
    let mesh = Mesh {
        verts: vec![
            vertex(-1.0, 1.0, -0.5, white(), 0.0, 0.0),
            vertex(-1.0, -1.0, 0.5, white(), 0.0, 0.0),
            vertex(1.0, -1.0, 0.5, white(), 0.0, 0.0),
        ],
    };
    let mut colour = vec![0u32; 256];
    let mut depth = vec![0u32; 256];
    renderer.draw_mesh(&mesh, &Mat4::identity(), &mut colour, &mut depth, 16, 16, None);
    assert_eq!(colour[1 + 14 * 16], 0x00FFFFFF);
    assert_eq!(colour[1 + 9 * 16], 0x00FFFFFF);
    assert_eq!(colour[1 + 6 * 16], 0);
    assert_eq!(colour[0 + 1 * 16], 0);
    assert!(depth[1 + 14 * 16] > depth[1 + 9 * 16]);
    for y in 0..8 {
        for x in 0..16 {
            assert_eq!(colour[x + y * 16], 0);
        }
    }
}

#[test]
fn a_mesh_without_triangles_draws_nothing() {
    let renderer = Renderer::new();
    let mut colour = vec![7u32; 4];
    let mut depth = vec![9u32; 4];
    renderer.draw_mesh(&Mesh { verts: vec![] }, &Mat4::identity(), &mut colour, &mut depth, 2, 2, None);
    assert_eq!(colour, vec![7u32; 4]);
    assert_eq!(depth, vec![9u32; 4]);
}

#[test]
fn the_model_matrix_moves_the_mesh() {
    let renderer = Renderer::new();
    let mut model = Mat4::identity();
    model.x_axis.x = fx(0.5);
    model.w_axis.x = fx(0.5);
    let mut colour = vec![0u32; 64];
    let mut depth = vec![0u32; 64];
    renderer.draw_mesh(&quad(white()), &model, &mut colour, &mut depth, 8, 8, None);
    for y in 0..8 {
        for x in 0..8 {
            let expected = if x >= 4 { 0x00FFFFFF } else { 0 };
            assert_eq!(colour[x + y * 8], expected);
        }
    }
}

#[test]
fn materials_are_found_by_name() {
    let mut renderer = Renderer::new();
    renderer.materials.push(("plain".to_string(), checkerboard()));
    let mut other = checkerboard();
    other.texture.width = 99;
    renderer.materials.push(("other".to_string(), other.clone()));
    renderer.materials.push(("plain".to_string(), other.clone()));
    renderer.materials.push(("None".to_string(), other.clone()));
    assert_eq!(renderer.material(&"plain".to_string()), Some(&checkerboard()));
    assert_eq!(renderer.material(&"other".to_string()), Some(&other));
    assert_eq!(renderer.material(&"missing".to_string()), None);
    assert_eq!(renderer.material(&"None".to_string()), None);
    assert_eq!(renderer.material(&"".to_string()), None);
}

#[test]
fn a_model_draws_each_mesh_with_its_material() {
    let mut renderer = Renderer::new();
    renderer.materials.push(("chequered".to_string(), checkerboard()));
    let mut left = Mat4::identity();
    left.x_axis.x = fx(0.5);
    left.w_axis.x = fx(-0.5);
    let half = |mesh: Mesh, matrix: &Mat4| -> Mesh {
        let mut verts = Vec::new();
        for v in mesh.verts {
            let p = matrix.mul_vec4(Vec4 { x: v.position.x, y: v.position.y, z: v.position.z, w: 65536 });
            verts.push(Vertex { position: Vec3 { x: p.x, y: p.y, z: p.z }, ..v });
        }
        Mesh { verts }
    };
    let mut right = Mat4::identity();
    right.x_axis.x = fx(0.5);
    right.w_axis.x = fx(0.5);
    let mut model = Model::new();
    model.meshes.push(("chequered".to_string(), half(quad(white()), &left)));
    model.meshes.push(("None".to_string(), half(quad(red()), &right)));
    let mut colour = vec![0u32; 64];
    let mut depth = vec![0u32; 64];
    renderer.draw_model(&model, &Mat4::identity(), &mut colour, &mut depth, 8, 8);
    for y in 0..8 {
        for x in 0..8 {
            let expected = if x >= 4 {
                0x00FF0000
            } else if (x < 2) == (y < 4) {
                0x00FFFFFF
            } else {
                0
            };
            assert_eq!(colour[x + y * 8], expected);
        }
    }
}

#[test]
fn a_mesh_with_an_unknown_material_is_drawn_plain() {
    let renderer = Renderer::new();
    let mut model = Model::new();
    model.meshes.push(("unknown".to_string(), quad(green())));
    let mut colour = vec![0u32; 16];
    let mut depth = vec![0u32; 16];
    renderer.draw_model(&model, &Mat4::identity(), &mut colour, &mut depth, 4, 4);
    assert_eq!(colour, vec![0x0000FF00u32; 16]);
}

#[test]
fn later_meshes_of_a_model_lose_the_depth_test() {
    let renderer = Renderer::new();
    let mut behind = quad(green());
    for v in behind.verts.iter_mut() {
        v.position.z = fx(0.25);
    }
    let mut model = Model::new();
    model.meshes.push(("None".to_string(), quad(red())));
    model.meshes.push(("unknown".to_string(), behind));
    let mut colour = vec![0u32; 16];
    let mut depth = vec![0u32; 16];
    renderer.draw_model(&model, &Mat4::identity(), &mut colour, &mut depth, 4, 4);
    assert_eq!(colour, vec![0x00FF0000u32; 16]);
    assert_eq!(depth, vec![1u32 << 29; 16]);
}

#[test]
fn a_triangle_behind_the_near_plane_draws_nothing() {
    let renderer = Renderer::new();
    let mesh = Mesh {
        verts: vec![
            vertex(-1.0, 1.0, -0.5, white(), 0.0, 0.0),
            vertex(-1.0, -1.0, -0.25, white(), 0.0, 0.0),
            vertex(1.0, -1.0, -0.125, white(), 0.0, 0.0),
        ],
    };
    let mut colour = vec![3u32; 256];
    let mut depth = vec![0u32; 256];
    renderer.draw_mesh(&mesh, &Mat4::identity(), &mut colour, &mut depth, 16, 16, None);
    assert_eq!(colour, vec![3u32; 256]);
    assert_eq!(depth, vec![0u32; 256]);
}

#[test]
fn a_triangle_beside_the_image_draws_nothing() {
    let mut colour = vec![0u32; 256];
    let mut depth = vec![0u32; 256];
    Renderer::draw_triangle_filled(
        fragment(2.0, 1.0, 0.5, 1.0, red()),
        fragment(2.0, -1.0, 0.5, 1.0, red()),
        fragment(4.0, -1.0, 0.5, 1.0, red()),
        &mut colour,
        &mut depth,
        16,
        16,
        None,
    );
    assert_eq!(colour, vec![0u32; 256]);
    Renderer::draw_triangle_filled(
        fragment(-4.0, 9.0, 0.5, 1.0, red()),
        fragment(-4.0, 7.0, 0.5, 1.0, red()),
        fragment(-2.0, 7.0, 0.5, 1.0, red()),
        &mut colour,
        &mut depth,
        16,
        16,
        None,
    );
    assert_eq!(colour, vec![0u32; 256]);
}

#[test]
fn a_triangle_larger_than_the_image_fills_it() {
    let mut colour = vec![0u32; 256];
    let mut depth = vec![0u32; 256];
    Renderer::draw_triangle_filled(
        fragment(-5.0, 5.0, 0.5, 1.0, green()),
        fragment(-5.0, -15.0, 0.5, 1.0, green()),
        fragment(15.0, 5.0, 0.5, 1.0, green()),
        &mut colour,
        &mut depth,
        16,
        16,
        None,
    );
    assert_eq!(colour, vec![0x0000FF00u32; 256]);
    assert_eq!(depth, vec![1u32 << 29; 256]);
}

#[test]
fn colours_are_interpolated_across_the_triangle() {
    let mut colour = vec![0u32; 64 * 64];
    let mut depth = vec![0u32; 64 * 64];
    Renderer::draw_triangle_filled(
        fragment(-1.0, 1.0, 0.5, 1.0, red()),
        fragment(-1.0, -1.0, 0.5, 1.0, green()),
        fragment(1.0, -1.0, 0.5, 1.0, Vec3 { x: 0, y: 0, z: WHITE }),
        &mut colour,
        &mut depth,
        64,
        64,
        None,
    );
    let top = colour[0];
    let bottom_left = colour[63 * 64];
    let bottom_right = colour[63 + 63 * 64];
    assert_eq!(top, 0x00FD0001);
    assert_eq!(bottom_left, 0x0001FB01);
    assert_eq!(bottom_right, 0x000100FD);
    let middle = colour[21 + 42 * 64];
    assert_eq!(middle, 0x00555355);
}

fn layered() -> Material {
    let mut data = vec![0xFF0000FFu32; 64];
    data.extend(vec![0xFF00FF00u32; 16]);
    data.extend(vec![0xFFFF0000u32; 4]);
    data.extend(vec![0xFFFFFFFFu32; 1]);
    let mut material = checkerboard();
    material.texture = Texture { width: 8, height: 8, depth: 4, data, mipmap_offsets: vec![0, 64, 80, 84] };
    material
}

fn quad_at(z: f64) -> Mesh {
    let mut mesh = quad(white());
    for v in mesh.verts.iter_mut() {
        v.position.z = fx(z);
    }
    mesh
}

#[test]
fn a_small_quad_reads_a_coarser_level() {
    let renderer = Renderer::new();
    let material = layered();
    for (z, expected) in [(0.0, 0x000000FFu32), (0.5, 0x0000FF00), (0.75, 0x00FF0000), (1.0, 0x00FF0000)] {
        let mut colour = vec![0u32; 16];
        let mut depth = vec![0u32; 16];
        renderer.draw_mesh(&quad_at(z), &Mat4::identity(), &mut colour, &mut depth, 4, 4, Some(&material));
        assert_eq!(colour, vec![expected; 16]);
    }
}

#[test]
fn a_large_quad_reads_the_finest_level() {
    let renderer = Renderer::new();
    let material = layered();
    let mut colour = vec![0u32; 256];
    let mut depth = vec![0u32; 256];
    renderer.draw_mesh(&quad_at(0.0), &Mat4::identity(), &mut colour, &mut depth, 16, 16, Some(&material));
    assert_eq!(colour, vec![0x00FF0000u32; 256]);
}

#[test]
fn a_texture_of_three_channels_shows() {
    let renderer = Renderer::new();
    let image = ImageData {
        pixels: vec![0x10, 0x20, 0x30],
        format: PixelFormat::R8G8B8,
        width: 1,
        height: 1,
    };
    let mut material = checkerboard();
    material.texture = Texture::load_texture_from_gltf_image(&image);
    assert_eq!(material.texture.data, vec![0xFF302010]);
    let mut colour = vec![0u32; 16];
    let mut depth = vec![0u32; 16];
    renderer.draw_mesh(&quad(white()), &Mat4::identity(), &mut colour, &mut depth, 4, 4, Some(&material));
    assert_eq!(colour, vec![0x00102030u32; 16]);
}

#[test]
fn the_mip_level_follows_the_logarithm_of_the_ratio() {
    let renderer = Renderer::new();
    let mut data = vec![0xFF0000FFu32; 12 * 8];
    data.extend(vec![0xFF00FF00u32; 6 * 4]);
    data.extend(vec![0xFFFF0000u32; 3 * 2]);
    data.extend(vec![0xFFFFFFFFu32; 1]);
    let mut material = checkerboard();
    material.texture =
        Texture { width: 12, height: 8, depth: 4, data, mipmap_offsets: vec![0, 96, 120, 126] };
    for (z, expected) in [(0.0, 0x000000FFu32), (0.22, 0x000000FF), (0.25, 0x0000FF00), (0.625, 0x00FF0000)] {
        let mut colour = vec![0u32; 16];
        let mut depth = vec![0u32; 16];
        renderer.draw_mesh(&quad_at(z), &Mat4::identity(), &mut colour, &mut depth, 4, 4, Some(&material));
        assert_eq!(colour, vec![expected; 16]);
    }
}
