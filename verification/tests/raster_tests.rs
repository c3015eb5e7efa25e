use rusterizer::math::{Vec3, Vec4};
use rusterizer::raster::{
    barycentric, bounding_box, edge_function, interpolate, interpolate_depth, ndc_to_screen,
    perspective_weights, Bounds, Corrected, ScreenPoint, Weights, DEPTH_ONE,
};
use rusterizer::logarithm::{log2, log2_exact};
use rusterizer::shading::{select_mip_level, shade_fragment};

fn fx(value: f64) -> i32 {
    (value * 65536.0).round() as i32
}

fn point(x: i32, y: i32) -> ScreenPoint {
    ScreenPoint { x, y }
}

fn position(x: f64, y: f64, z: f64, w: f64) -> Vec4 {
    Vec4 { x: fx(x), y: fx(y), z: fx(z), w: fx(w) }
}

#[test]
fn edge_function_is_twice_the_signed_area() {
    assert_eq!(edge_function(point(0, 0), point(0, 256), point(256, 0)), 65536);
    assert_eq!(edge_function(point(0, 0), point(256, 0), point(0, 256)), -65536);
    assert_eq!(edge_function(point(0, 0), point(256, 256), point(512, 512)), 0);
    assert_eq!(
        edge_function(point(i32::MIN, i32::MIN), point(i32::MIN, i32::MAX), point(i32::MAX, i32::MIN)),
        18446744065119617025
    );
}

#[test]
fn screen_mapping_lays_the_unit_square_over_the_image() {
    assert_eq!(ndc_to_screen(position(0.0, 0.0, 0.0, 1.0), 640, 480), point(81920, 61440));
    assert_eq!(ndc_to_screen(position(-1.0, 1.0, 0.0, 1.0), 640, 480), point(0, 0));
    assert_eq!(ndc_to_screen(position(1.0, -1.0, 0.0, 1.0), 640, 480), point(163840, 122880));
    assert_eq!(ndc_to_screen(position(0.5, 0.5, 0.0, 1.0), 3, 3), point(576, 192));
    assert_eq!(ndc_to_screen(Vec4 { x: 1, y: 1, z: 0, w: 1 }, 1, 1), point(128, 127));
}

#[test]
fn screen_mapping_saturates() {
    let far = Vec4 { x: i32::MAX, y: i32::MAX, z: 0, w: 65536 };
    assert_eq!(ndc_to_screen(far, 1 << 20, 1 << 20), point(i32::MAX, i32::MIN));
    let far = Vec4 { x: i32::MIN, y: i32::MIN, z: 0, w: 65536 };
    assert_eq!(ndc_to_screen(far, 1 << 20, 1 << 20), point(i32::MIN, i32::MAX));
}

#[test]
fn bounding_box_is_held_to_the_image() {
    let b = bounding_box(point(25600, 25600), point(76800, 128000), point(128000, 25600), 512, 512);
    assert_eq!(b, Bounds { x_min: 100, x_max: 500, y_min: 100, y_max: 500 });
    let b = bounding_box(point(-1000, 300), point(255, 100000), point(200000, -5), 640, 480);
    assert_eq!(b, Bounds { x_min: 0, x_max: 639, y_min: 0, y_max: 390 });
    let b = bounding_box(point(-1, -1), point(-300, -300), point(-2, -700), 640, 480);
    assert_eq!(b, Bounds { x_min: 0, x_max: 0, y_min: 0, y_max: 0 });
    let b = bounding_box(point(i32::MAX, 0), point(0, i32::MAX), point(0, 0), usize::MAX, usize::MAX);
    assert_eq!(b, Bounds { x_min: 0, x_max: 8388607, y_min: 0, y_max: 8388607 });
}

#[test]
fn barycentric_weights_of_an_inner_point() {
    let b = barycentric(point(0, 0), point(0, 2560), point(2560, 0), point(640, 896)).unwrap();
    assert_eq!(b, Weights { b0: 429496729, b1: 375809638, b2: 268435456 });
    let sum = b.b0 + b.b1 + b.b2;
    assert!(sum <= DEPTH_ONE as i64 && sum >= DEPTH_ONE as i64 - 2);
}

#[test]
fn barycentric_weights_at_a_corner_and_on_an_edge() {
    let (s0, s1, s2) = (point(0, 0), point(0, 2560), point(2560, 0));
    assert_eq!(barycentric(s0, s1, s2, s0), Some(Weights { b0: 1073741824, b1: 0, b2: 0 }));
    assert_eq!(barycentric(s0, s1, s2, s1), Some(Weights { b0: 0, b1: 1073741824, b2: 0 }));
    assert_eq!(barycentric(s0, s1, s2, s2), Some(Weights { b0: 0, b1: 0, b2: 1073741824 }));
    assert_eq!(
        barycentric(s0, s1, s2, point(1280, 1280)),
        Some(Weights { b0: 0, b1: 536870912, b2: 536870912 })
    );
}

#[test]
fn no_weights_outside_the_triangle() {
    let (s0, s1, s2) = (point(0, 0), point(0, 2560), point(2560, 0));
    assert_eq!(barycentric(s0, s1, s2, point(-1, 5)), None);
    assert_eq!(barycentric(s0, s1, s2, point(5, -1)), None);
    assert_eq!(barycentric(s0, s1, s2, point(1281, 1280)), None);
}

#[test]
fn no_weights_for_a_triangle_turned_away_or_without_area() {
    assert_eq!(barycentric(point(0, 0), point(2560, 0), point(0, 2560), point(640, 896)), None);
    assert_eq!(barycentric(point(0, 0), point(256, 256), point(512, 512), point(256, 256)), None);
    assert_eq!(barycentric(point(7, 7), point(7, 7), point(7, 7), point(7, 7)), None);
}

#[test]
fn weights_sum_to_one_over_a_whole_triangle() {
    let (s0, s1, s2) = (point(100, 130), point(1900, 7000), point(9000, 900));
    let mut inside = 0;
    for y in 0..40 {
        for x in 0..40 {
            if let Some(b) = barycentric(s0, s1, s2, point(256 * x + 128, 256 * y + 128)) {
                inside += 1;
                assert!(b.b0 >= 0 && b.b1 >= 0 && b.b2 >= 0);
                let sum = b.b0 + b.b1 + b.b2;
                assert!(sum <= 1073741824 && sum >= 1073741822);
            }
        }
    }
    assert!(inside > 50);
}

#[test]
fn depth_is_interpolated_z_over_interpolated_w() {
    let b = Weights { b0: 429496729, b1: 375809638, b2: 268435456 };
    let d = interpolate_depth(
        b,
        position(0.0, 0.0, 0.0, 1.0),
        position(0.0, 0.0, 1.0, 2.0),
        position(0.0, 0.0, 0.5, 4.0),
    );
    assert_eq!(d, 242870174);
    let flat = interpolate_depth(
        b,
        position(0.0, 0.0, 0.5, 1.0),
        position(0.0, 0.0, 0.5, 1.0),
        position(0.0, 0.0, 0.5, 1.0),
    );
    assert_eq!(flat, 536870912);
    let behind = interpolate_depth(
        b,
        position(0.0, 0.0, -0.5, 1.0),
        position(0.0, 0.0, -0.5, 1.0),
        position(0.0, 0.0, -0.5, 1.0),
    );
    assert_eq!(behind, -536870912);
}

#[test]
fn perspective_weights_divide_by_w() {
    let b = Weights { b0: 429496729, b1: 375809638, b2: 268435456 };
    let c = perspective_weights(b, fx(1.0), fx(2.0), fx(4.0));
    assert_eq!(
        c,
        Corrected {
            c0: 14757395238351798272,
            c1: 6456360418926395392,
            c2: 2305843009213693952,
        }
    );
    assert_eq!(interpolate(c, 0, fx(1.0), fx(0.5)), 21202);
}

#[test]
fn interpolation_across_perspective_matches_the_analytic_value() {
    let w = [1.0, 2.0, 4.0];
    let a = [0.0, 1.0, 0.5];
    let points = [(0.2, 0.3, 0.5), (0.4, 0.35, 0.25), (0.1, 0.1, 0.8), (0.6, 0.3, 0.1), (0.0, 0.5, 0.5)];
    for (share0, share1, share2) in points {
        let b = Weights {
            b0: (share0 * 1073741824.0) as i64,
            b1: (share1 * 1073741824.0) as i64,
            b2: (share2 * 1073741824.0) as i64,
        };
        let c = perspective_weights(b, fx(w[0]), fx(w[1]), fx(w[2]));
        let got = interpolate(c, fx(a[0]), fx(a[1]), fx(a[2])) as f64 / 65536.0;
        let analytic = (share0 * a[0] / w[0] + share1 * a[1] / w[1] + share2 * a[2] / w[2])
            / (share0 / w[0] + share1 / w[1] + share2 / w[2]);
        let affine = share0 * a[0] + share1 * a[1] + share2 * a[2];
        assert!((got - analytic).abs() < 0.0001);
        assert!((affine - analytic).abs() > 0.05);
    }
}

#[test]
fn equal_values_interpolate_to_themselves() {
    let b = Weights { b0: 1, b1: 7, b2: 1073741000 };
    let c = perspective_weights(b, 1, i32::MAX, 12345);
    assert_eq!(interpolate(c, 77, 77, 77), 77);
    assert_eq!(interpolate(c, i32::MIN, i32::MIN, i32::MIN), i32::MIN);
    assert_eq!(interpolate(c, i32::MAX, i32::MAX, i32::MAX), i32::MAX);
}

#[test]
fn light_from_the_front_leaves_the_colour() {
    let white = Vec3 { x: 65536, y: 65536, z: 65536 };
    let towards = Vec3 { x: 58617, y: 29309, z: 0 };
    assert_eq!(shade_fragment(white, towards, None), Some(0x00FFFFFF));
    let colour = Vec3 { x: 65536, y: 32768, z: 0 };
    assert_eq!(shade_fragment(colour, towards, None), Some(0x00FF7F00));
}

#[test]
fn light_from_the_side_and_from_behind() {
    let white = Vec3 { x: 65536, y: 65536, z: 65536 };
    let none = Vec3 { x: 0, y: 0, z: 0 };
    assert_eq!(shade_fragment(white, none, None), Some(0x007F7F7F));
    let sideways = Vec3 { x: 0, y: 0, z: 65536 };
    assert_eq!(shade_fragment(white, sideways, None), Some(0x007F7F7F));
    let away = Vec3 { x: -58617, y: -29309, z: 0 };
    assert_eq!(shade_fragment(white, away, None), Some(0x00000000));
    let up = Vec3 { x: 0, y: 65536, z: 0 };
    assert_eq!(shade_fragment(white, up, None), Some(0x00B8B8B8));
}

#[test]
fn colours_outside_the_unit_interval_are_held_to_it() {
    let towards = Vec3 { x: 58617, y: 29309, z: 0 };
    let colour = Vec3 { x: 3 * 65536, y: -65536, z: 65535 };
    assert_eq!(shade_fragment(colour, towards, None), Some(0x00FF00FE));
}

#[test]
fn texel_multiplies_the_colour() {
    let white = Vec3 { x: 65536, y: 65536, z: 65536 };
    let towards = Vec3 { x: 58617, y: 29309, z: 0 };
    assert_eq!(shade_fragment(white, towards, Some(0xFF4080C0)), Some(0x00C08040));
    assert_eq!(shade_fragment(white, towards, Some(0x80FFFFFF)), Some(0x00FFFFFF));
    let grey = Vec3 { x: 32768, y: 32768, z: 32768 };
    assert_eq!(shade_fragment(grey, towards, Some(0xFF4080C0)), Some(0x00604020));
}

#[test]
fn transparent_texel_drops_the_fragment() {
    let white = Vec3 { x: 65536, y: 65536, z: 65536 };
    let towards = Vec3 { x: 58617, y: 29309, z: 0 };
    assert_eq!(shade_fragment(white, towards, Some(0x7FFFFFFF)), None);
    assert_eq!(shade_fragment(white, towards, Some(0x00FFFFFF)), None);
}

#[test]
fn logarithm_is_exact_at_powers_of_two() {
    assert_eq!(log2(1), 0);
    assert_eq!(log2(2), 65536);
    assert_eq!(log2(8), 196608);
    assert_eq!(log2(1 << 100), 100 * 65536);
    assert_eq!(log2(1 << 127), 127 * 65536);
}

#[test]
fn logarithm_is_rounded_down_to_sixteen_fractional_bits() {
    assert_eq!(log2(3), 103872);
    assert_eq!(log2(5), 152169);
    assert_eq!(log2(6), 169408);
    assert_eq!(log2(7), 183982);
    assert_eq!(log2(10), 217705);
    assert_eq!(log2(12), 234944);
    assert_eq!(log2(1000), 653117);
    assert_eq!(log2(65535), 1048574);
    assert_eq!(log2(65537), 1048577);
    assert_eq!(log2((1 << 65) + 12345), 4259840);
    assert_eq!(log2((1 << 40) - 1), 2621439);
    assert_eq!(log2(u128::MAX), 8388607);
}

#[test]
fn logarithm_agrees_with_the_power_in_full() {
    for a in [1u128, 2, 3, 5, 6, 7, 8, 10, 12, 100, 255, 256, 257, 1000] {
        assert_eq!(log2(a), log2_exact(a));
    }
    assert_eq!(log2_exact(3), 103872);
    assert_eq!(log2_exact(1000), 653117);
    assert_eq!(log2_exact(1 << 20), 20 * 65536);
}

#[test]
fn logarithm_just_below_a_power_of_two() {
    assert_eq!(log2((1 << 48) - 1), 3145727);
    assert_eq!(log2((1 << 20) - 1), 20 * 65536 - 1);
}

#[test]
fn mip_level_follows_the_ratio_of_the_areas() {
    assert_eq!(select_mip_level(16 * 65536, 65536, 0, 6), 4);
    assert_eq!(select_mip_level(16 * 65536, 65536, 0, 4), 2);
    assert_eq!(select_mip_level(16 * 65536, 65536, 1 << 29, 6), 2);
    assert_eq!(select_mip_level(65536, 16 * 65536, 0, 6), 0);
    assert_eq!(select_mip_level(-48 * 65536, 2 * 65536, 1 << 28, 10), 3);
    assert_eq!(select_mip_level(1000, -3, 357913941, 12), 5);
    assert_eq!(select_mip_level(16 * 65536, 65536, DEPTH_ONE, 6), 0);
    assert_eq!(select_mip_level(6291456, 1048576, 236223201, 4), 2);
    assert_eq!(select_mip_level(5 * 65536, 65536, 148704461, 8), 2);
    assert_eq!(select_mip_level(3 * 65536, 65536, 1 << 28, 8), 1);
}

#[test]
fn mip_level_without_area_or_without_levels() {
    assert_eq!(select_mip_level(0, 65536, 0, 6), 0);
    assert_eq!(select_mip_level(65536, 0, 0, 6), 0);
    assert_eq!(select_mip_level(1 << 40, 1, 0, 1), 0);
    assert_eq!(select_mip_level(1 << 40, 1, 0, 0), 0);
    assert_eq!(select_mip_level(1 << 40, 1, 0, 2), 0);
    assert_eq!(select_mip_level(i128::MIN, 1, 0, 200), 127);
    assert_eq!(select_mip_level(i128::MAX, i128::MIN, 0, 200), 0);
}
