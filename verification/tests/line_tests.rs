use rusterizer::math::{Vec2, Vec3};
use rusterizer::rendering::Renderer;
use rusterizer::structs::Vertex;

fn at(x: f64, y: f64) -> Vec2 {
    Vec2 { x: (x * 65536.0).round() as i32, y: (y * 65536.0).round() as i32 }
}

fn drawn(buffer: &[u32], width: usize) -> Vec<(usize, usize, u32)> {
    let mut out = Vec::new();
    for (i, c) in buffer.iter().enumerate() {
        if *c != 0 {
            out.push((i % width, i / width, *c));
        }
    }
    out
}

const RED: u32 = 0x00FF0000;
const GREEN: u32 = 0x0000FF00;
const BLUE: u32 = 0x000000FF;

#[test]
fn a_flat_line_is_red_and_leaves_out_its_first_pixel() {
    let mut buffer = vec![0u32; 64];
    Renderer::draw_line(at(1.5, 2.5), at(5.5, 2.5), &mut buffer, 8, 8);
    assert_eq!(drawn(&buffer, 8), vec![(2, 2, RED), (3, 2, RED), (4, 2, RED), (5, 2, RED)]);
}

#[test]
fn a_flat_line_runs_backwards() {
    let mut buffer = vec![0u32; 64];
    Renderer::draw_line(at(5.0, 2.0), at(1.0, 3.0), &mut buffer, 8, 8);
    assert_eq!(drawn(&buffer, 8), vec![(4, 2, RED), (1, 3, RED), (2, 3, RED), (3, 3, RED)]);
}

#[test]
fn a_steep_line_is_green() {
    let mut buffer = vec![0u32; 64];
    Renderer::draw_line(at(2.0, 1.0), at(3.0, 7.0), &mut buffer, 8, 8);
    assert_eq!(
        drawn(&buffer, 8),
        vec![(2, 2, GREEN), (2, 3, GREEN), (3, 4, GREEN), (3, 5, GREEN), (3, 6, GREEN), (3, 7, GREEN)]
    );
}

#[test]
fn a_steep_line_runs_upwards() {
    let mut buffer = vec![0u32; 64];
    Renderer::draw_line(at(3.0, 7.0), at(2.0, 1.0), &mut buffer, 8, 8);
    assert_eq!(
        drawn(&buffer, 8),
        vec![(2, 1, GREEN), (2, 2, GREEN), (2, 3, GREEN), (2, 4, GREEN), (3, 5, GREEN), (3, 6, GREEN)]
    );
}

#[test]
fn a_diagonal_line_is_blue_and_leaves_out_its_last_pixel() {
    let mut buffer = vec![0u32; 64];
    Renderer::draw_line(at(1.0, 1.0), at(4.0, 4.0), &mut buffer, 8, 8);
    assert_eq!(drawn(&buffer, 8), vec![(1, 1, BLUE), (2, 2, BLUE), (3, 3, BLUE)]);
    let mut buffer = vec![0u32; 64];
    Renderer::draw_line(at(4.0, 1.0), at(1.0, 4.0), &mut buffer, 8, 8);
    assert_eq!(drawn(&buffer, 8), vec![(4, 1, BLUE), (3, 2, BLUE), (2, 3, BLUE)]);
}

#[test]
fn a_line_shorter_than_a_pixel_draws_nothing() {
    let mut buffer = vec![0u32; 64];
    Renderer::draw_line(at(1.25, 1.25), at(1.75, 2.0), &mut buffer, 8, 8);
    assert_eq!(drawn(&buffer, 8), vec![]);
    Renderer::draw_line(at(3.0, 3.0), at(3.0, 3.0), &mut buffer, 8, 8);
    assert_eq!(drawn(&buffer, 8), vec![]);
}

#[test]
fn only_the_pixels_in_the_image_are_drawn() {
    let mut buffer = vec![0u32; 16];
    Renderer::draw_line(at(-3.0, 1.0), at(9.0, 1.0), &mut buffer, 4, 4);
    assert_eq!(drawn(&buffer, 4), vec![(0, 1, RED), (1, 1, RED), (2, 1, RED), (3, 1, RED)]);
    let mut buffer = vec![0u32; 16];
    Renderer::draw_line(at(-2.0, -2.0), at(6.0, 6.0), &mut buffer, 4, 4);
    assert_eq!(drawn(&buffer, 4), vec![(0, 0, BLUE), (1, 1, BLUE), (2, 2, BLUE), (3, 3, BLUE)]);
    let mut buffer = vec![0u32; 16];
    Renderer::draw_line(at(-20.0, -30.0), at(-2.0, -3.0), &mut buffer, 4, 4);
    assert_eq!(drawn(&buffer, 4), vec![]);
}

#[test]
fn a_line_draws_over_what_is_there() {
    let mut buffer = vec![0x111111u32; 9];
    Renderer::draw_line(at(0.0, 1.0), at(2.0, 1.0), &mut buffer, 3, 3);
    assert_eq!(
        buffer,
        vec![0x111111, 0x111111, 0x111111, 0x111111, RED, RED, 0x111111, 0x111111, 0x111111]
    );
}

#[test]
fn the_longest_line() {
    let mut buffer = vec![0u32; 4];
    Renderer::draw_line(
        Vec2 { x: i32::MIN, y: i32::MIN },
        Vec2 { x: i32::MAX, y: i32::MAX },
        &mut buffer,
        2,
        2,
    );
    assert_eq!(buffer, vec![BLUE, 0, 0, BLUE]);
    let mut buffer = vec![0u32; 4];
    Renderer::draw_line(
        Vec2 { x: i32::MAX, y: 0 },
        Vec2 { x: i32::MIN, y: 65536 },
        &mut buffer,
        2,
        2,
    );
    assert_eq!(buffer, vec![RED, RED, 0, 0]);
}

fn corner(x: f64, y: f64) -> Vertex {
    let zero = Vec3 { x: 0, y: 0, z: 0 };
    Vertex {
        position: Vec3 { x: at(x, y).x, y: at(x, y).y, z: 12345 },
        normal: zero,
        tangent: zero,
        colour: zero,
        uv: Vec2 { x: 0, y: 0 },
    }
}

#[test]
fn the_outline_of_a_triangle_is_three_lines() {
    let mut buffer = vec![0u32; 64];
    Renderer::draw_triangle_wireframe(corner(1.0, 1.0), corner(6.0, 1.0), corner(1.0, 6.0), &mut buffer, 8, 8);
    let mut expected = vec![0u32; 64];
    Renderer::draw_line(at(1.0, 1.0), at(6.0, 1.0), &mut expected, 8, 8);
    Renderer::draw_line(at(6.0, 1.0), at(1.0, 6.0), &mut expected, 8, 8);
    Renderer::draw_line(at(1.0, 6.0), at(1.0, 1.0), &mut expected, 8, 8);
    assert_eq!(buffer, expected);
    assert_eq!(
        drawn(&buffer, 8),
        vec![
            (1, 1, GREEN),
            (2, 1, RED),
            (3, 1, RED),
            (4, 1, RED),
            (5, 1, RED),
            (6, 1, BLUE),
            (1, 2, GREEN),
            (5, 2, BLUE),
            (1, 3, GREEN),
            (4, 3, BLUE),
            (1, 4, GREEN),
            (3, 4, BLUE),
            (1, 5, GREEN),
            (2, 5, BLUE),
        ]
    );
}
