use cpuengine::geometry::Point3;
use cpuengine::obj::{Face, LoadError, Object};
use cpuengine::render::{Color, Depth, Texture, PNG};

fn corner(vertex: u32, texture: u32, normal: u32) -> Face {
    Face { vertex, texture, normal }
}

fn white_texture() -> Texture {
    Texture::new(1, 1, vec![Color::new(255, 255, 255)])
}

// a single front-facing triangle spanning most of the screen
fn front_face_arrays() -> (Vec<Point3>, Vec<Point3>, Vec<Point3>, Vec<Vec<Face>>) {
    let vertices = vec![
        Point3::new(-256, -256, 0),
        Point3::new(256, -256, 0),
        Point3::new(0, 256, 0),
    ];
    let textures = vec![Point3::new(0, 0, 0)];
    let normals = vec![];
    let faces = vec![vec![corner(1, 1, 0), corner(2, 1, 0), corner(3, 1, 0)]];
    (vertices, textures, normals, faces)
}

#[test]
fn load_converts_indices_to_zero_based() {
    let (vertices, textures, normals, faces) = front_face_arrays();
    let object = Object::new(vertices, textures, normals, faces, white_texture()).unwrap();
    assert_eq!(object.faces.len(), 1);
    assert_eq!(object.faces[0].len(), 3);
    assert_eq!(object.faces[0][0], corner(0, 0, 0));
    assert_eq!(object.faces[0][1], corner(1, 0, 0));
    assert_eq!(object.faces[0][2], corner(2, 0, 0));
}

#[test]
fn load_rejects_vertex_index_out_of_range() {
    let (vertices, textures, normals, mut faces) = front_face_arrays();
    faces[0][1].vertex = 4;
    let r = Object::new(vertices, textures, normals, faces, white_texture());
    assert_eq!(r.unwrap_err(), LoadError::VertexIndexOutOfRange);
}

#[test]
fn load_rejects_missing_texture_index() {
    // the format writes 0 for an absent texture index; sampling needs one
    let (vertices, textures, normals, mut faces) = front_face_arrays();
    faces[0][0].texture = 0;
    let r = Object::new(vertices, textures, normals, faces, white_texture());
    assert_eq!(r.unwrap_err(), LoadError::TextureIndexOutOfRange);
}

#[test]
fn load_rejects_normal_index_out_of_range() {
    let (vertices, textures, normals, mut faces) = front_face_arrays();
    faces[0][2].normal = 7;
    let r = Object::new(vertices, textures, normals, faces, white_texture());
    assert_eq!(r.unwrap_err(), LoadError::NormalIndexOutOfRange);
}

#[test]
fn load_rejects_short_face() {
    let (vertices, textures, normals, mut faces) = front_face_arrays();
    faces[0].pop();
    let r = Object::new(vertices, textures, normals, faces, white_texture());
    assert_eq!(r.unwrap_err(), LoadError::FaceTooSmall);
}

#[test]
fn load_rejects_coordinate_outside_model_space() {
    let (mut vertices, textures, normals, faces) = front_face_arrays();
    vertices[0].x = 300;
    let r = Object::new(vertices, textures, normals, faces, white_texture());
    assert_eq!(r.unwrap_err(), LoadError::CoordOutOfRange);
}

#[test]
fn front_face_renders_pixels() {
    let (vertices, textures, normals, faces) = front_face_arrays();
    let object = Object::new(vertices, textures, normals, faces, white_texture()).unwrap();
    let mut png = PNG::new(4, 4);
    object.render(&mut png);
    // the screen-space triangle covers the lower middle of the image
    assert_eq!(png.pixel_color(1, 1), Color::new(255, 255, 255));
    assert_ne!(png.pixel_depth(1, 1), Depth::Empty);
}

#[test]
fn back_face_contributes_no_pixels() {
    // the same triangle with two corners swapped faces away from the light
    let (vertices, textures, normals, mut faces) = front_face_arrays();
    faces[0].swap(1, 2);
    let object = Object::new(vertices, textures, normals, faces, white_texture()).unwrap();
    let mut png = PNG::new(4, 4);
    object.render(&mut png);
    for y in 0..4u32 {
        for x in 0..4u32 {
            assert_eq!(png.pixel_color(x, y), Color::new(0, 0, 0));
            assert_eq!(png.pixel_depth(x, y), Depth::Empty);
        }
    }
}

#[test]
fn quad_face_renders_as_triangle_strip() {
    // four corners: the renderer slides a window of three
    let vertices = vec![
        Point3::new(-256, -256, 0),
        Point3::new(256, -256, 0),
        Point3::new(256, 256, 0),
        Point3::new(-256, 256, 0),
    ];
    let textures = vec![Point3::new(0, 0, 0)];
    let normals = vec![];
    let faces = vec![vec![
        corner(1, 1, 0),
        corner(2, 1, 0),
        corner(3, 1, 0),
        corner(4, 1, 0),
    ]];
    let object = Object::new(vertices, textures, normals, faces, white_texture()).unwrap();
    let mut png = PNG::new(4, 4);
    object.render(&mut png);
    // window (v1, v2, v3) is front-facing and covers the lower right half
    assert_eq!(png.pixel_color(2, 1), Color::new(255, 255, 255));
}
