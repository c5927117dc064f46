use cpuengine::geometry::Point3;
use cpuengine::line::Line;
use cpuengine::num::Rat;
use cpuengine::render::{Color, Depth, PNG};

#[test]
fn line_intersect() {
    let color = Color::new(255, 255, 255);
    let line0_vertex0 = Point3::new(1, 11, 0);
    let line0_vertex1 = Point3::new(10, 20, 0);
    let line0 = Line::new(line0_vertex0, line0_vertex1, color);

    let line1_vertex0 = Point3::new(2, 18, 0);
    let line1_vertex1 = Point3::new(11, 9, 0);
    let line1 = Line::new(line1_vertex0, line1_vertex1, color);

    let intersect = line0.intersect(&line1).unwrap();

    assert_eq!(intersect.x.trunc() as i32, 5);
    assert_eq!(intersect.y.trunc() as i32, 15);

    let intersect = line1.intersect(&line0).unwrap();

    assert_eq!(intersect.x.trunc() as i32, 5);
    assert_eq!(intersect.y.trunc() as i32, 15);
}

#[test]
fn steep_line_intersect() {
    let color = Color::new(255, 255, 255);
    let line0_vertex0 = Point3::new(0, 0, 0);
    let line0_vertex1 = Point3::new(2, 200, 0);
    let line0 = Line::new(line0_vertex0, line0_vertex1, color);

    let line1_vertex0 = Point3::new(0, 100, 0);
    let line1_vertex1 = Point3::new(1, 0, 0);
    let line1 = Line::new(line1_vertex0, line1_vertex1, color);

    let intersect = line0.intersect(&line1).unwrap();

    assert_eq!(intersect.x.trunc() as i32, 0);
    assert_eq!(intersect.y.trunc() as i32, 50);

    let intersect = line1.intersect(&line0).unwrap();

    assert_eq!(intersect.x.trunc() as i32, 0);
    assert_eq!(intersect.y.trunc() as i32, 50);
}

#[test]
fn intersect_error() {
    let color = Color::new(255, 255, 255);
    let line0_vertex0 = Point3::new(6, 4, 0);
    let line0_vertex1 = Point3::new(4, 6, 0);
    let line0 = Line::new(line0_vertex0, line0_vertex1, color);

    let line1_vertex0 = Point3::new(7, 7, 0);
    let line1_vertex1 = Point3::new(6, 6, 0);
    let line1 = Line::new(line1_vertex0, line1_vertex1, color);

    let intersect = line0.intersect(&line1);
    if intersect.is_ok() {
        panic!("Should not intersect")
    }

    let intersect = line1.intersect(&line0);
    if intersect.is_ok() {
        panic!("Should not intersect")
    }
}

#[test]
fn intersect_exact_crossing_value() {
    // the crossing point comes back exactly, not merely truncated
    let color = Color::new(1, 2, 3);
    let line0 = Line::new(Point3::new(0, 0, 0), Point3::new(2, 200, 0), color);
    let line1 = Line::new(Point3::new(0, 100, 0), Point3::new(1, 0, 0), color);
    let p = line0.intersect(&line1).unwrap();
    // x = 1/2, y = 50
    assert_eq!(p.x.num * 2, p.x.den);
    assert_eq!(p.y.num, 50 * p.y.den);
}

#[test]
fn parallel_lines_do_not_intersect() {
    let color = Color::new(0, 0, 0);
    let line0 = Line::new(Point3::new(0, 0, 0), Point3::new(10, 10, 0), color);
    let line1 = Line::new(Point3::new(0, 5, 0), Point3::new(10, 15, 0), color);
    assert!(line0.intersect(&line1).is_err());
}

#[test]
fn vertical_line_reports_no_intersection() {
    // vertical segments have no defined slope, so intersect fails
    let color = Color::new(0, 0, 0);
    let vertical = Line::new(Point3::new(5, 0, 0), Point3::new(5, 10, 0), color);
    let other = Line::new(Point3::new(0, 5, 0), Point3::new(10, 5, 0), color);
    assert!(vertical.intersect(&other).is_err());
    assert!(other.intersect(&vertical).is_err());
}

#[test]
fn line_render_draws_pixels() {
    let mut png = PNG::new(4, 4);
    let color = Color::new(10, 20, 30);
    // a diagonal in units: one pixel per x-step
    let line = Line::new(Point3::new(0, 0, 0), Point3::new(3 * 256, 3 * 256, 0), color);
    line.render(&mut png);
    assert_eq!(png.pixel_color(0, 0), color);
    assert_eq!(png.pixel_color(1, 1), color);
    assert_eq!(png.pixel_color(2, 2), color);
    // the stepping stops one pixel short of the far endpoint
    assert_eq!(png.pixel_color(3, 3), Color::new(0, 0, 0));
    // off-diagonal pixels stay black and depth-free
    assert_eq!(png.pixel_color(2, 0), Color::new(0, 0, 0));
    assert_eq!(png.pixel_depth(2, 0), Depth::Empty);
    // drawn pixels carry depth zero
    match png.pixel_depth(1, 1) {
        Depth::Val(w) => assert_eq!(w, Rat::from_int(0)),
        Depth::Empty => panic!("pixel has no depth"),
    }
}

#[test]
fn vertical_line_draws_column() {
    // a vertical segment has no slope; the rasterizer steps over y instead
    let mut png = PNG::new(4, 4);
    let color = Color::new(10, 20, 30);
    let line = Line::new(Point3::new(512, 0, 0), Point3::new(512, 3 * 256, 0), color);
    line.render(&mut png);
    assert_eq!(png.pixel_color(2, 0), color);
    assert_eq!(png.pixel_color(2, 1), color);
    assert_eq!(png.pixel_color(2, 2), color);
    // the stepping stops one pixel short of the far endpoint
    assert_eq!(png.pixel_color(2, 3), Color::new(0, 0, 0));
    // other columns stay untouched
    for y in 0..4u32 {
        assert_eq!(png.pixel_depth(0, y), Depth::Empty);
        assert_eq!(png.pixel_depth(1, y), Depth::Empty);
        assert_eq!(png.pixel_depth(3, y), Depth::Empty);
    }
}

#[test]
fn steep_line_steps_over_y() {
    // y-extent 3 pixels, x-extent 1 pixel: one pixel per y-step
    let mut png = PNG::new(4, 4);
    let color = Color::new(40, 50, 60);
    let line = Line::new(Point3::new(0, 0, 0), Point3::new(256, 3 * 256, 0), color);
    line.render(&mut png);
    // x = y/3 rounds down to column 0 for the three steps taken
    assert_eq!(png.pixel_color(0, 0), color);
    assert_eq!(png.pixel_color(0, 1), color);
    assert_eq!(png.pixel_color(0, 2), color);
    assert_eq!(png.pixel_depth(0, 3), Depth::Empty);
    assert_eq!(png.pixel_depth(1, 1), Depth::Empty);
}
