use rusterizer::colour::{alpha, blue, colour_rgb, colour_rgba, green, red};

#[test]
fn texel_holds_red_in_its_lowest_byte() {
    assert_eq!(colour_rgba(0x11, 0x22, 0x33, 0x44), 0x11443322);
}

#[test]
fn pixel_holds_blue_in_its_lowest_byte() {
    assert_eq!(colour_rgb(0x22, 0x33, 0x44), 0x00223344);
}

#[test]
fn channels_come_back_out_of_a_texel() {
    let t = colour_rgba(1, 2, 3, 4);
    assert_eq!(alpha(t), 1);
    assert_eq!(red(t), 2);
    assert_eq!(green(t), 3);
    assert_eq!(blue(t), 4);
}
