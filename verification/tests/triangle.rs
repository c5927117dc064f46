use cpuengine::geometry::Point3;
use cpuengine::num::Rat;
use cpuengine::render::{Color, Depth, Intensity, Texture, PNG};
use cpuengine::triangle::Triangle;

fn white_texture() -> Texture {
    Texture::new(1, 1, vec![Color::new(255, 255, 255)])
}

fn flat_tex_coords() -> Vec<Point3> {
    vec![Point3::new(0, 0, 0), Point3::new(0, 0, 0), Point3::new(0, 0, 0)]
}

// a right triangle over the first pixels, with one vertex raised to depth 100
fn sloped_triangle() -> (Point3, Point3, Point3) {
    (
        Point3::new(0, 0, 0),
        Point3::new(4 * 256, 0, 100),
        Point3::new(0, 4 * 256, 0),
    )
}

#[test]
fn covered_pixel_gets_interpolated_depth() {
    let tex = white_texture();
    let coords = flat_tex_coords();
    let (a, b, c) = sloped_triangle();
    let mut png = PNG::new(8, 8);
    let tri = Triangle::new(a, b, c, &tex, &coords, Intensity::one());
    tri.render(&mut png);
    // pixel (1, 1): weight of b is 1/4, so depth is 100/4 = 25 exactly
    match png.pixel_depth(1, 1) {
        Depth::Val(w) => assert_eq!(w.num, 25 * w.den),
        Depth::Empty => panic!("pixel not covered"),
    }
    // pixel centers outside the triangle stay untouched
    assert_eq!(png.pixel_depth(4, 4), Depth::Empty);
    // full intensity and a white texture paint covered pixels white
    assert_eq!(png.pixel_color(1, 1), Color::new(255, 255, 255));
}

#[test]
fn rendering_twice_changes_nothing() {
    let tex = white_texture();
    let coords = flat_tex_coords();
    let (a, b, c) = sloped_triangle();
    let tri = Triangle::new(a, b, c, &tex, &coords, Intensity::one());
    let mut once = PNG::new(8, 8);
    tri.render(&mut once);
    let mut twice = PNG::new(8, 8);
    tri.render(&mut twice);
    tri.render(&mut twice);
    for y in 0..8u32 {
        for x in 0..8u32 {
            assert_eq!(once.pixel_color(x, y), twice.pixel_color(x, y));
            assert_eq!(once.pixel_depth(x, y), twice.pixel_depth(x, y));
        }
    }
}

#[test]
fn draw_order_does_not_matter() {
    let tex = white_texture();
    let coords = flat_tex_coords();
    // two overlapping triangles at constant depths 10 (near) and 5 (far)
    let near = (
        Point3::new(0, 0, 10),
        Point3::new(4 * 256, 0, 10),
        Point3::new(0, 4 * 256, 10),
    );
    let far = (
        Point3::new(0, 0, 5),
        Point3::new(4 * 256, 0, 5),
        Point3::new(0, 4 * 256, 5),
    );
    let dim = Intensity { num: 1, norm2: 2 };
    let tri_near = Triangle::new(near.0, near.1, near.2, &tex, &coords, Intensity::one());
    let tri_far = Triangle::new(far.0, far.1, far.2, &tex, &coords, dim);

    let mut ab = PNG::new(8, 8);
    tri_near.render(&mut ab);
    tri_far.render(&mut ab);
    let mut ba = PNG::new(8, 8);
    tri_far.render(&mut ba);
    tri_near.render(&mut ba);

    // the overlapping pixel shows the nearer triangle's color either way
    assert_eq!(ab.pixel_color(1, 1), Color::new(255, 255, 255));
    assert_eq!(ba.pixel_color(1, 1), Color::new(255, 255, 255));
    for y in 0..8u32 {
        for x in 0..8u32 {
            assert_eq!(ab.pixel_color(x, y), ba.pixel_color(x, y));
        }
    }
}

#[test]
fn degenerate_triangle_rasterizes_nothing() {
    let tex = white_texture();
    let coords = flat_tex_coords();
    // collinear vertices: zero area, every pixel skipped, no crash
    let tri = Triangle::new(
        Point3::new(0, 0, 0),
        Point3::new(512, 512, 0),
        Point3::new(1024, 1024, 0),
        &tex,
        &coords,
        Intensity::one(),
    );
    let mut png = PNG::new(8, 8);
    tri.render(&mut png);
    for y in 0..8u32 {
        for x in 0..8u32 {
            assert_eq!(png.pixel_depth(x, y), Depth::Empty);
        }
    }
}

#[test]
fn texture_colors_are_sampled() {
    // 2x2 texture; the face maps exactly onto it
    let tex = Texture::new(
        2,
        2,
        vec![
            Color::new(200, 0, 0),
            Color::new(0, 200, 0),
            Color::new(0, 0, 200),
            Color::new(200, 200, 0),
        ],
    );
    // texture coordinates in units of 1/256: the whole [0,1] square
    let coords = vec![Point3::new(0, 0, 0), Point3::new(256, 0, 0), Point3::new(0, 256, 0)];
    let tri = Triangle::new(
        Point3::new(0, 0, 0),
        Point3::new(8 * 256, 0, 0),
        Point3::new(0, 8 * 256, 0),
        &tex,
        &coords,
        Intensity::one(),
    );
    let mut png = PNG::new(8, 8);
    tri.render(&mut png);
    // near the a-corner the sample is texture pixel (0, 0)
    assert_eq!(png.pixel_color(0, 0), Color::new(200, 0, 0));
    // halfway toward the b-corner the interpolated coordinate rounds to column 1
    assert_eq!(png.pixel_color(4, 0), Color::new(0, 200, 0));
}

#[test]
fn get_color_out_of_bounds_falls_back_to_white() {
    let tex = Texture::new(1, 1, vec![Color::new(7, 7, 7)]);
    // texture coordinates far outside [0, 1]
    let coords = vec![
        Point3::new(2560, 2560, 0),
        Point3::new(2560, 2560, 0),
        Point3::new(2560, 2560, 0),
    ];
    let tri = Triangle::new(
        Point3::new(0, 0, 0),
        Point3::new(1024, 0, 0),
        Point3::new(0, 1024, 0),
        &tex,
        &coords,
        Intensity::one(),
    );
    // any positive-area weight triple samples out of bounds here
    let sample = tri.get_color((0, 0, 1024 * 1024));
    assert_eq!(sample, Color::new(255, 255, 255));
}

#[test]
fn depth_only_moves_nearer() {
    let tex = white_texture();
    let coords = flat_tex_coords();
    let (a, b, c) = sloped_triangle();
    let tri = Triangle::new(a, b, c, &tex, &coords, Intensity::one());
    let mut png = PNG::new(8, 8);
    // seed a pixel with a very near depth; the triangle cannot displace it
    let green = Color::new(0, 255, 0);
    png.set_pixel(256, 256, Rat::from_int(1000), green);
    tri.render(&mut png);
    assert_eq!(png.pixel_color(1, 1), green);
}
