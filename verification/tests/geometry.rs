use cpuengine::geometry::{minmax, Point3};

#[test]
fn test_minmax() {
    let vectors: Vec<Point3> = vec![
        Point3::new(30, 17, 44),
        Point3::new(20, 42, 22),
        Point3::new(50, 93, 7),
        Point3::new(8, 6, 11),
        Point3::new(10, 15, 64),
    ];

    let (min, max) = minmax(&vectors);

    assert_eq!(min.x.abs() as i32, 8);
    assert_eq!(max.x.abs() as i32, 50);
    assert_eq!(min.y.abs() as i32, 6);
    assert_eq!(max.y.abs() as i32, 93);
    assert_eq!(min.z.abs() as i32, 7);
    assert_eq!(max.z.abs() as i32, 64);
}

#[test]
fn minmax_single_point() {
    let vectors: Vec<Point3> = vec![Point3::new(-3, 9, 0)];
    let (min, max) = minmax(&vectors);
    assert_eq!((min.x, min.y, min.z), (-3, 9, 0));
    assert_eq!((max.x, max.y, max.z), (-3, 9, 0));
}
