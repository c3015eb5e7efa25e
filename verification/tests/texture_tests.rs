use rusterizer::image::{ImageData, PixelFormat};
use rusterizer::texture::{
    level_extent, wrap_coordinate, FilterMode, Sampler, Texture, TextureError, WrapMode,
    OUT_OF_BOUNDS_COLOUR,
};

fn fx(value: f64) -> i32 {
    (value * 65536.0).round() as i32
}

fn sampler(s: WrapMode, t: WrapMode) -> Sampler {
    Sampler {
        filter_mode_mag: FilterMode::Point,
        filter_mode_min: FilterMode::Point,
        filter_mode_mipmap: FilterMode::Point,
        wrap_mode_s: s,
        wrap_mode_t: t,
        mipmap_enabled: true,
    }
}

fn texture(width: usize, height: usize, data: Vec<u32>) -> Texture {
    Texture { width, height, depth: 4, data, mipmap_offsets: vec![0] }
}

fn sixteen() -> Vec<u32> {
    vec![
        0xff000001, 0xfe250711, 0xfd4a0e21, 0xfc6f1531, 0xfb941c41, 0xfab92351, 0xf9de2a61,
        0xf8033171, 0xf7283881, 0xf64d3f91, 0xf57246a1, 0xf4974db1, 0xf3bc54c1, 0xf2e15bd1,
        0xf10662e1, 0xf02b69f1,
    ]
}

#[test]
fn load_packs_four_channels() {
    let pixels = vec![1, 2, 3, 4, 5, 6, 7, 8];
    let t = Texture::load(&pixels, 2, 1, 4).unwrap();
    assert_eq!(t.width, 2);
    assert_eq!(t.height, 1);
    assert_eq!(t.depth, 4);
    assert_eq!(t.data, vec![0x04030201, 0x08070605]);
    assert_eq!(t.mipmap_offsets, vec![0]);
}

#[test]
fn load_makes_three_channels_opaque() {
    let pixels = vec![1, 2, 3, 4, 5, 6];
    let t = Texture::load(&pixels, 1, 2, 3).unwrap();
    assert_eq!(t.depth, 3);
    assert_eq!(t.data, vec![0xff030201, 0xff060504]);
    assert_eq!(t.mipmap_offsets, vec![0]);
}

#[test]
fn load_drops_an_incomplete_pixel() {
    let pixels = vec![1, 2, 3, 4, 5];
    let t = Texture::load(&pixels, 1, 1, 4).unwrap();
    assert_eq!(t.data, vec![0x04030201]);
}

#[test]
fn load_refuses_other_channel_counts() {
    let pixels = vec![1, 2, 3, 4];
    assert_eq!(Texture::load(&pixels, 2, 2, 1), Err(TextureError::UnsupportedFormat));
    assert_eq!(Texture::load(&pixels, 1, 2, 2), Err(TextureError::UnsupportedFormat));
    assert_eq!(Texture::load(&pixels, 1, 1, 0), Err(TextureError::UnsupportedFormat));
    assert_eq!(Texture::load(&pixels, 1, 1, 5), Err(TextureError::UnsupportedFormat));
}

#[test]
fn the_error_says_what_went_wrong() {
    assert_eq!(TextureError::UnsupportedFormat.message(), "Unsupported texture type");
}

fn decode(format: PixelFormat, pixels: Vec<u8>) -> Vec<u32> {
    let image = ImageData { pixels, format, width: 7, height: 9 };
    let t = Texture::load_texture_from_gltf_image(&image);
    assert_eq!(t.width, 7);
    assert_eq!(t.height, 9);
    assert_eq!(t.depth, 4);
    assert_eq!(t.mipmap_offsets, vec![0]);
    t.data
}

#[test]
fn decoded_images_of_eight_bits() {
    assert_eq!(decode(PixelFormat::R8, vec![0x11, 0x22]), vec![0xFF000011, 0xFF000022]);
    assert_eq!(decode(PixelFormat::R8G8, vec![0x11, 0x22, 0x33, 0x44]), vec![0xFF002211, 0xFF004433]);
    assert_eq!(decode(PixelFormat::R8G8B8, vec![0x11, 0x22, 0x33]), vec![0xFF332211]);
    assert_eq!(
        decode(PixelFormat::R8G8B8, vec![0x11, 0x22, 0x33, 0x44, 0x55, 0x66]),
        vec![0xFF332211, 0xFF665544]
    );
    assert_eq!(
        decode(PixelFormat::R8G8B8A8, vec![0x11, 0x22, 0x33, 0x44, 0x55, 0x66, 0x77, 0x88]),
        vec![0x44332211, 0x88776655]
    );
}

#[test]
fn decoded_images_with_blue_first() {
    assert_eq!(
        decode(PixelFormat::B8G8R8A8, vec![0x11, 0x22, 0x33, 0x44, 0x55, 0x66, 0x77, 0x88]),
        vec![0x44112233, 0x88556677]
    );
    assert_eq!(
        decode(PixelFormat::B8G8R8, vec![0x11, 0x22, 0x33, 0x44, 0x55, 0x66]),
        vec![0xFF112233, 0xFF445566]
    );
}

#[test]
fn decoded_images_of_sixteen_bits_keep_the_second_byte() {
    assert_eq!(decode(PixelFormat::R16, vec![0x11, 0x22, 0x33, 0x44]), vec![0xFF000022, 0xFF000044]);
    assert_eq!(decode(PixelFormat::R16G16, vec![0x11, 0x22, 0x33, 0x44]), vec![0xFF004422]);
    assert_eq!(
        decode(PixelFormat::R16G16B16, vec![0x11, 0x22, 0x33, 0x44, 0x55, 0x66]),
        vec![0xFF664422]
    );
    assert_eq!(
        decode(PixelFormat::R16G16B16A16, vec![0x11, 0x22, 0x33, 0x44, 0x55, 0x66, 0x77, 0x88]),
        vec![0x88664422]
    );
}

#[test]
fn decoded_image_without_pixels() {
    assert_eq!(decode(PixelFormat::R16G16B16A16, vec![]), Vec::<u32>::new());
}

#[test]
fn pixel_layouts() {
    let l = PixelFormat::B8G8R8.layout();
    assert_eq!(l.stride, 3);
    assert_eq!(l.red, Some(2));
    assert_eq!(l.green, Some(1));
    assert_eq!(l.blue, Some(0));
    assert_eq!(l.alpha, None);
    let l = PixelFormat::R16G16B16.layout();
    assert_eq!(l.stride, 6);
    assert_eq!(l.red, Some(1));
    assert_eq!(l.green, Some(3));
    assert_eq!(l.blue, Some(5));
    assert_eq!(l.alpha, None);
}

#[test]
fn mipmaps_of_a_square_texture() {
    let mut t = texture(4, 4, sixteen());
    t.generate_mipmaps();
    assert_eq!(t.width, 4);
    assert_eq!(t.height, 4);
    assert_eq!(t.depth, 4);
    assert_eq!(t.mipmap_offsets, vec![0, 16, 20]);
    assert_eq!(t.data.len(), 21);
    assert_eq!(&t.data[..16], &sixteen()[..]);
    assert_eq!(&t.data[16..20], &[0xfc5c1129, 0xfa661f49, 0xf48449a9, 0xf24e57c9]);
    assert_eq!(t.data[20], 0xf7653479);
}

#[test]
fn mipmap_chain_of_a_power_of_two_has_one_level_per_halving() {
    let mut t = texture(32, 32, vec![0x80402010; 32 * 32]);
    t.generate_mipmaps();
    assert_eq!(t.mipmap_offsets.len(), 6);
    let mut offset = 0;
    let mut side = 32;
    for level in 0..6 {
        assert_eq!(t.mipmap_offsets[level], offset);
        offset += side * side;
        side /= 2;
    }
    assert_eq!(t.data.len(), offset);
    assert_eq!(t.data, vec![0x80402010; offset]);
}

#[test]
fn mipmaps_stop_at_a_single_row() {
    let base: Vec<u32> = vec![
        0xff000000, 0xff1e140a, 0xff3c2814, 0xff5a3c1e, 0xff785028, 0xff966432, 0xffb4783c,
        0xffd28c46, 0xfff0a050, 0xff0eb45a, 0xff2cc864, 0xff4adc6e, 0xff68f078, 0xff870482,
        0xffa5188c,
    ];
    let mut t = texture(5, 3, base.clone());
    t.generate_mipmaps();
    assert_eq!(t.mipmap_offsets, vec![0, 15]);
    assert_eq!(&t.data[..15], &base[..]);
    assert_eq!(&t.data[15..], &[0xff5a3c1e, 0xff966432]);
}

#[test]
fn mipmaps_of_a_single_texel_add_nothing() {
    let mut t = texture(1, 1, vec![7]);
    t.generate_mipmaps();
    assert_eq!(t.mipmap_offsets, vec![0]);
    assert_eq!(t.data, vec![7]);
    let mut t = texture(0, 8, vec![]);
    t.generate_mipmaps();
    assert_eq!(t.mipmap_offsets, vec![0]);
    let mut t = texture(1, 8, vec![1, 2, 3, 4, 5, 6, 7, 8]);
    t.generate_mipmaps();
    assert_eq!(t.mipmap_offsets, vec![0]);
    assert_eq!(t.data.len(), 8);
}

#[test]
fn mipmaps_generated_twice_come_twice() {
    let mut t = texture(2, 2, vec![0x04040404, 0x08080808, 0x0c0c0c0c, 0x10101010]);
    t.generate_mipmaps();
    assert_eq!(t.mipmap_offsets, vec![0, 4]);
    assert_eq!(t.data[4], 0x0a0a0a0a);
    t.generate_mipmaps();
    assert_eq!(t.mipmap_offsets, vec![0, 4, 5]);
    assert_eq!(t.data, vec![0x04040404, 0x08080808, 0x0c0c0c0c, 0x10101010, 0x0a0a0a0a, 0x0a0a0a0a]);
}

#[test]
fn level_extents_halve() {
    assert_eq!(level_extent(640, 0), 640);
    assert_eq!(level_extent(640, 3), 80);
    assert_eq!(level_extent(5, 1), 2);
    assert_eq!(level_extent(5, 3), 0);
    assert_eq!(level_extent(usize::MAX, 64), 0);
    assert_eq!(level_extent(usize::MAX, 1000), 0);
}

#[test]
fn repeat_keeps_the_fraction() {
    assert_eq!(wrap_coordinate(WrapMode::Repeat, fx(1.5)), fx(0.5));
    assert_eq!(wrap_coordinate(WrapMode::Repeat, fx(0.5)), fx(0.5));
    assert_eq!(wrap_coordinate(WrapMode::Repeat, fx(-0.25)), fx(0.75));
    assert_eq!(wrap_coordinate(WrapMode::Repeat, fx(1.0)), 0);
    assert_eq!(wrap_coordinate(WrapMode::Repeat, i32::MIN), 0);
    assert_eq!(wrap_coordinate(WrapMode::Repeat, i32::MAX), 65535);
}

#[test]
fn mirror_folds_back() {
    assert_eq!(wrap_coordinate(WrapMode::Mirror, fx(1.5)), fx(0.5));
    assert_eq!(wrap_coordinate(WrapMode::Mirror, fx(0.25)), fx(0.25));
    assert_eq!(wrap_coordinate(WrapMode::Mirror, fx(1.25)), fx(0.75));
    assert_eq!(wrap_coordinate(WrapMode::Mirror, fx(1.0)), fx(1.0));
    assert_eq!(wrap_coordinate(WrapMode::Mirror, fx(2.25)), fx(0.25));
    assert_eq!(wrap_coordinate(WrapMode::Mirror, fx(-0.25)), fx(0.25));
    assert_eq!(wrap_coordinate(WrapMode::Mirror, i32::MIN), 0);
    assert_eq!(wrap_coordinate(WrapMode::Mirror, i32::MAX), 1);
}

#[test]
fn clamp_holds_to_the_unit_interval() {
    assert_eq!(wrap_coordinate(WrapMode::Clamp, fx(1.5)), 65535);
    assert_eq!(wrap_coordinate(WrapMode::Clamp, fx(1.0)), 65535);
    assert_eq!(wrap_coordinate(WrapMode::Clamp, fx(0.5)), fx(0.5));
    assert_eq!(wrap_coordinate(WrapMode::Clamp, fx(-3.0)), 0);
}

#[test]
fn sampling_reads_the_texel_under_the_coordinates() {
    let t = texture(2, 2, vec![1, 2, 3, 4]);
    let s = sampler(WrapMode::Repeat, WrapMode::Repeat);
    assert_eq!(t.argb_at_uv(fx(0.25), fx(0.25), 0, &s), 1);
    assert_eq!(t.argb_at_uv(fx(0.75), fx(0.25), 0, &s), 2);
    assert_eq!(t.argb_at_uv(fx(0.25), fx(0.75), 0, &s), 3);
    assert_eq!(t.argb_at_uv(fx(0.75), fx(0.75), 0, &s), 4);
    assert_eq!(t.argb_at_uv(0, 0, 0, &s), 1);
    assert_eq!(t.argb_at_uv(fx(0.5), 0, 0, &s), 2);
    assert_eq!(t.argb_at_uv(fx(0.5) - 1, fx(0.5) - 1, 0, &s), 1);
}

#[test]
fn wrap_modes_at_one_and_a_half() {
    let t = texture(4, 1, vec![10, 20, 30, 40]);
    let repeat = sampler(WrapMode::Repeat, WrapMode::Repeat);
    let mirror = sampler(WrapMode::Mirror, WrapMode::Repeat);
    let clamp = sampler(WrapMode::Clamp, WrapMode::Repeat);
    assert_eq!(t.argb_at_uv(fx(1.5), 0, 0, &repeat), t.argb_at_uv(fx(0.5), 0, 0, &repeat));
    assert_eq!(t.argb_at_uv(fx(1.5), 0, 0, &repeat), 30);
    assert_eq!(t.argb_at_uv(fx(1.5), 0, 0, &clamp), t.argb_at_uv(fx(1.0) - 1, 0, 0, &clamp));
    assert_eq!(t.argb_at_uv(fx(1.5), 0, 0, &clamp), 40);
    assert_eq!(t.argb_at_uv(fx(1.5), 0, 0, &mirror), t.argb_at_uv(fx(0.5), 0, 0, &mirror));
    assert_eq!(t.argb_at_uv(fx(1.5), 0, 0, &mirror), 30);
    assert_eq!(t.argb_at_uv(fx(1.25), 0, 0, &mirror), 40);
    assert_eq!(t.argb_at_uv(fx(1.25), 0, 0, &repeat), 20);
    assert_eq!(t.argb_at_uv(fx(1.25), 0, 0, &clamp), 40);
}

#[test]
fn each_axis_has_its_own_wrap_mode() {
    let t = texture(2, 2, vec![1, 2, 3, 4]);
    let s = sampler(WrapMode::Repeat, WrapMode::Clamp);
    assert_eq!(t.argb_at_uv(fx(1.25), fx(1.25), 0, &s), 3);
    let s = sampler(WrapMode::Clamp, WrapMode::Repeat);
    assert_eq!(t.argb_at_uv(fx(1.25), fx(1.25), 0, &s), 2);
}

#[test]
fn sampling_reads_the_chosen_level() {
    let mut t = texture(4, 4, sixteen());
    t.generate_mipmaps();
    let s = sampler(WrapMode::Repeat, WrapMode::Repeat);
    assert_eq!(t.argb_at_uv(fx(0.75), fx(0.25), 0, &s), 0xf8033171);
    assert_eq!(t.argb_at_uv(fx(0.75), 0, 0, &s), 0xfc6f1531);
    assert_eq!(t.argb_at_uv(fx(0.75), fx(0.25), 1, &s), 0xfa661f49);
    assert_eq!(t.argb_at_uv(fx(0.75), fx(0.75), 1, &s), 0xf24e57c9);
    assert_eq!(t.argb_at_uv(fx(0.75), fx(0.25), 2, &s), 0xf7653479);
}

#[test]
fn sampling_outside_gives_the_warning_colour() {
    assert_eq!(OUT_OF_BOUNDS_COLOUR, 0xFFFF00FF);
    let t = texture(2, 2, vec![1, 2, 3, 4]);
    let repeat = sampler(WrapMode::Repeat, WrapMode::Repeat);
    let mirror = sampler(WrapMode::Mirror, WrapMode::Mirror);
    assert_eq!(t.argb_at_uv(0, 0, 1, &repeat), OUT_OF_BOUNDS_COLOUR);
    assert_eq!(t.argb_at_uv(0, 0, 70, &repeat), OUT_OF_BOUNDS_COLOUR);
    assert_eq!(t.argb_at_uv(fx(1.0), fx(0.75), 0, &mirror), OUT_OF_BOUNDS_COLOUR);
    assert_eq!(t.argb_at_uv(fx(1.0), fx(0.25), 0, &mirror), 3);
    assert_eq!(t.argb_at_uv(0, fx(1.0), 0, &mirror), OUT_OF_BOUNDS_COLOUR);
    let short = texture(2, 2, vec![1, 2, 3]);
    assert_eq!(short.argb_at_uv(fx(0.75), fx(0.75), 0, &repeat), OUT_OF_BOUNDS_COLOUR);
    assert_eq!(short.argb_at_uv(fx(0.25), fx(0.75), 0, &repeat), 3);
    let empty = texture(0, 0, vec![]);
    assert_eq!(empty.argb_at_uv(0, 0, 0, &repeat), OUT_OF_BOUNDS_COLOUR);
}
