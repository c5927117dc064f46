use cpuengine::num::{isqrt, Rat};
use cpuengine::render::{color, flatten, Color, Depth, Intensity, Texture, PNG};

#[test]
fn isqrt_values() {
    assert_eq!(isqrt(0), 0);
    assert_eq!(isqrt(1), 1);
    assert_eq!(isqrt(8), 2);
    assert_eq!(isqrt(9), 3);
    assert_eq!(isqrt(10), 3);
    assert_eq!(isqrt(1 << 40), 1 << 20);
}

#[test]
fn rat_truncates_toward_zero() {
    assert_eq!(Rat::new(7, 2).trunc(), 3);
    assert_eq!(Rat::new(-7, 2).trunc(), -3);
    assert_eq!(Rat::new(0, 5).trunc(), 0);
}

#[test]
fn color_scaling_is_exact() {
    // intensity 4/sqrt(25) = 4/5
    let intensity = Intensity { num: 4, norm2: 25 };
    let scaled = color(Color::new(100, 50, 255), &intensity);
    assert_eq!(scaled, Color::new(80, 40, 204));
    // full intensity keeps the color
    let one = Intensity::one();
    assert_eq!(color(Color::new(12, 34, 56), &one), Color::new(12, 34, 56));
    // intensity 1/sqrt(2) darkens 255 to 180
    let dim = Intensity { num: 1, norm2: 2 };
    assert_eq!(color(Color::new(255, 255, 255), &dim), Color::new(180, 180, 180));
}

#[test]
fn set_pixel_applies_depth_test() {
    let mut png = PNG::new(4, 4);
    let red = Color::new(255, 0, 0);
    let blue = Color::new(0, 0, 255);
    // first write lands on the empty cell
    png.set_pixel(256, 256, Rat::from_int(5), red);
    assert_eq!(png.pixel_color(1, 1), red);
    // a farther write loses
    png.set_pixel(256, 256, Rat::from_int(3), blue);
    assert_eq!(png.pixel_color(1, 1), red);
    // an equal-depth write loses too: the test is strict
    png.set_pixel(256, 256, Rat::from_int(5), blue);
    assert_eq!(png.pixel_color(1, 1), red);
    // a nearer write wins
    png.set_pixel(256, 256, Rat::from_int(7), blue);
    assert_eq!(png.pixel_color(1, 1), blue);
    match png.pixel_depth(1, 1) {
        Depth::Val(w) => assert_eq!(w, Rat::from_int(7)),
        Depth::Empty => panic!("depth missing"),
    }
}

#[test]
fn set_pixel_out_of_bounds_is_ignored() {
    let mut png = PNG::new(4, 4);
    let red = Color::new(255, 0, 0);
    // past the right edge, below zero, past the bottom: all silently dropped
    png.set_pixel(4 * 256, 0, Rat::from_int(1), red);
    png.set_pixel(-1, 0, Rat::from_int(1), red);
    png.set_pixel(0, 4 * 256, Rat::from_int(1), red);
    png.set_pixel(0, -256, Rat::from_int(1), red);
    png.set_pixel(1 << 40, 0, Rat::from_int(1), red);
    for y in 0..4u32 {
        for x in 0..4u32 {
            assert_eq!(png.pixel_color(x, y), Color::new(0, 0, 0));
            assert_eq!(png.pixel_depth(x, y), Depth::Empty);
        }
    }
}

#[test]
fn flatten_reverses_rows_and_flattens() {
    let a = Color::new(1, 2, 3);
    let b = Color::new(4, 5, 6);
    let c = Color::new(7, 8, 9);
    let d = Color::new(10, 11, 12);
    let mut data = vec![vec![a, b], vec![c, d]];
    let flat = flatten(&mut data);
    // rows come out bottom-up, pixels left-to-right, channels R, G, B
    assert_eq!(flat, vec![7, 8, 9, 10, 11, 12, 1, 2, 3, 4, 5, 6]);
    // the grid itself is reversed in place
    assert_eq!(data, vec![vec![c, d], vec![a, b]]);
}

#[test]
fn texture_sampling() {
    let pixels = vec![
        Color::new(1, 0, 0),
        Color::new(0, 1, 0),
        Color::new(0, 0, 1),
        Color::new(9, 9, 9),
    ];
    let tex = Texture::new(2, 2, pixels);
    assert_eq!(tex.get_pixel(0, 0), Color::new(1, 0, 0));
    assert_eq!(tex.get_pixel(1, 0), Color::new(0, 1, 0));
    assert_eq!(tex.get_pixel(0, 1), Color::new(0, 0, 1));
    assert_eq!(tex.get_pixel(1, 1), Color::new(9, 9, 9));
}

#[test]
fn render_encodes_real_png() {
    let mut png = PNG::new(2, 2);
    let red = Color::new(255, 0, 0);
    // write the top-left pixel of the framebuffer (row 0)
    png.set_pixel(0, 0, Rat::from_int(1), red);
    let bytes = png.render().expect("encoding failed");
    // a real PNG signature, not the raw buffer
    assert_eq!(&bytes[0..8], &[137u8, 80, 78, 71, 13, 10, 26, 10]);
    // decoding restores the flipped image: framebuffer row 0 is image bottom
    let decoded = image::load_from_memory(&bytes).expect("decode failed").to_rgb8();
    assert_eq!(decoded.dimensions(), (2, 2));
    assert_eq!(decoded.get_pixel(0, 1).0, [255, 0, 0]);
    assert_eq!(decoded.get_pixel(0, 0).0, [0, 0, 0]);
    assert_eq!(decoded.get_pixel(1, 1).0, [0, 0, 0]);
}
