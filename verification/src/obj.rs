//! The mesh model: validated vertex/texture/normal/face arrays, flat
//! Lambertian face intensity with back-face culling, the screen transform,
//! and the per-face render loop.

use vstd::prelude::*;

use crate::geometry::Point3;
use crate::num::{lemma_mul_bound, lemma_mul_bound2, Rat, SCALE};
use crate::render::{Depth, Intensity, Texture, PNG};
use crate::triangle::{pixel_untouched, render_rel, Triangle};

verus! {

/// One corner of a face: indices into the vertex, texture-coordinate and
/// normal arrays.  Stored 0-based after a successful load; normals are not
/// consulted by rendering.
#[derive(Clone, Copy, Debug, PartialEq, Eq, Structural)]
pub struct Face {
    pub vertex: u32,
    pub texture: u32,
    pub normal: u32,
}

/// Why a mesh failed to load.
#[derive(Clone, Copy, Debug, PartialEq, Eq, Structural)]
pub enum LoadError {
    /// A face has fewer than three corners.
    FaceTooSmall,
    /// A face's vertex index does not resolve into the vertex array.
    VertexIndexOutOfRange,
    /// A face's texture index does not resolve into the texture array.
    TextureIndexOutOfRange,
    /// A face's normal index does not resolve into the normal array.
    NormalIndexOutOfRange,
    /// A vertex or texture coordinate lies outside normalized model space.
    CoordOutOfRange,
}

/// The coordinate lies in normalized model space: every component in
/// [-1, 1], that is within one SCALE in units.
pub open spec fn model_in_range(p: Point3) -> bool {
    &&& -SCALE <= p.x <= SCALE
    &&& -SCALE <= p.y <= SCALE
    &&& -SCALE <= p.z <= SCALE
}

/// A parsed mesh: positions, texture coordinates, normals, faces (index
/// triples, 0-based), and the texture image the faces sample.
#[derive(Debug)]
pub struct Object {
    pub faces: Vec<Vec<Face>>,
    pub vertices: Vec<Point3>,
    pub normals: Vec<Point3>,
    pub textures: Vec<Point3>,
    pub texture: Texture,
}

/// One raw, 1-based face corner resolves into arrays of the given lengths.
pub open spec fn corner_valid(f: Face, nv: int, nt: int, nn: int) -> bool {
    &&& 1 <= f.vertex <= nv
    &&& 1 <= f.texture <= nt
    &&& f.normal <= nn
}

/// `g` is `f` with its 1-based indices turned 0-based; an absent normal
/// (index 0) stays 0.
pub open spec fn corner_converted(f: Face, g: Face) -> bool {
    &&& g.vertex == f.vertex - 1
    &&& g.texture == f.texture - 1
    &&& g.normal == (if f.normal >= 1 {
        (f.normal - 1) as int
    } else {
        0
    })
}

/// A raw face is loadable: at least three corners, all of them resolving.
pub open spec fn face_input_ok(fin: Vec<Face>, nv: int, nt: int, nn: int) -> bool {
    &&& fin@.len() >= 3
    &&& forall|k: int| 0 <= k < fin@.len() ==> corner_valid(#[trigger] fin@[k], nv, nt, nn)
}

/// `fout` is the loaded form of the raw face `fin`: same corners, each
/// converted to 0-based.
pub open spec fn face_converted(fin: Vec<Face>, fout: Vec<Face>) -> bool {
    &&& fout@.len() == fin@.len()
    &&& forall|k: int| 0 <= k < fin@.len() ==> corner_converted(#[trigger] fin@[k], fout@[k])
}

/// The raw input loads: every face is loadable and all coordinates lie in
/// normalized model space.
pub open spec fn input_valid(
    vertices: Seq<Point3>,
    textures: Seq<Point3>,
    normals: Seq<Point3>,
    faces: Seq<Vec<Face>>,
) -> bool {
    &&& forall|i: int| 0 <= i < vertices.len() ==> model_in_range(#[trigger] vertices[i])
    &&& forall|i: int| 0 <= i < textures.len() ==> model_in_range(#[trigger] textures[i])
    &&& forall|i: int|
        0 <= i < faces.len() ==> #[trigger] face_input_ok(
            faces[i],
            vertices.len() as int,
            textures.len() as int,
            normals.len() as int,
        )
}

impl Object {
    pub open spec fn wf(self) -> bool {
        &&& self.texture.wf()
        &&& forall|i: int|
            0 <= i < self.vertices@.len() ==> model_in_range(#[trigger] self.vertices@[i])
        &&& forall|i: int|
            0 <= i < self.textures@.len() ==> model_in_range(#[trigger] self.textures@[i])
        &&& forall|i: int| 0 <= i < self.faces@.len() ==> (#[trigger] self.faces@[i])@.len() >= 3
        &&& forall|i: int, k: int|
            0 <= i < self.faces@.len() && 0 <= k < self.faces@[i]@.len() ==> {
                &&& (#[trigger] self.faces@[i]@[k]).vertex < self.vertices@.len()
                &&& self.faces@[i]@[k].texture < self.textures@.len()
            }
    }

    /// The z-component of face `i`'s flat normal `(v2 - v0) x (v1 - v0)`,
    /// taken from its first three corners.
    pub open spec fn face_normal_z(self, i: int) -> int {
        let f = self.faces@[i];
        let v0 = self.vertices@[f@[0].vertex as int];
        let v1 = self.vertices@[f@[1].vertex as int];
        let v2 = self.vertices@[f@[2].vertex as int];
        (v2.x - v0.x) * (v1.y - v0.y) - (v2.y - v0.y) * (v1.x - v0.x)
    }

    /// Face `i` points away from the light direction (0, 0, -1): its
    /// intensity is not positive, so rendering culls it.
    pub open spec fn face_backfacing(self, i: int) -> bool {
        self.face_normal_z(i) >= 0
    }

    /// Builds a mesh from already-parsed arrays with the format's 1-based
    /// indices, validating every face index and coordinate and converting
    /// indices to 0-based.  An absent normal is written as index 0 in the
    /// input and stays 0; normals are never consulted by rendering.
    pub fn new(
        vertices: Vec<Point3>,
        textures: Vec<Point3>,
        normals: Vec<Point3>,
        faces: Vec<Vec<Face>>,
        texture: Texture,
    ) -> (r: Result<Object, LoadError>)
        requires
            texture.wf(),
        ensures
            (r matches Ok(o)) <==> input_valid(vertices@, textures@, normals@, faces@),
            r matches Ok(o) ==> {
                &&& o.wf()
                &&& o.vertices == vertices
                &&& o.textures == textures
                &&& o.normals == normals
                &&& o.texture == texture
                &&& o.faces@.len() == faces@.len()
                &&& forall|i: int|
                    0 <= i < faces@.len() ==> #[trigger] face_converted(faces@[i], o.faces@[i])
            },
            r matches Err(e) ==> !input_valid(vertices@, textures@, normals@, faces@),
    {
        let nv = vertices.len();
        let nt = textures.len();
        let nn = normals.len();
        let mut i: usize = 0;
        while i < vertices.len()
            invariant
                i <= vertices@.len(),
                forall|j: int| 0 <= j < i ==> model_in_range(#[trigger] vertices@[j]),
            decreases vertices@.len() - i,
        {
            let v = vertices[i];
            if v.x < -SCALE || v.x > SCALE || v.y < -SCALE || v.y > SCALE || v.z < -SCALE || v.z
                > SCALE {
                proof {
                    if input_valid(vertices@, textures@, normals@, faces@) {
                        assert(model_in_range(vertices@[i as int]));
                    }
                }
                return Result::Err(LoadError::CoordOutOfRange);
            }
            i = i + 1;
        }
        let mut i: usize = 0;
        while i < textures.len()
            invariant
                i <= textures@.len(),
                forall|j: int| 0 <= j < i ==> model_in_range(#[trigger] textures@[j]),
            decreases textures@.len() - i,
        {
            let t = textures[i];
            if t.x < -SCALE || t.x > SCALE || t.y < -SCALE || t.y > SCALE || t.z < -SCALE || t.z
                > SCALE {
                proof {
                    if input_valid(vertices@, textures@, normals@, faces@) {
                        assert(model_in_range(textures@[i as int]));
                    }
                }
                return Result::Err(LoadError::CoordOutOfRange);
            }
            i = i + 1;
        }
        let mut out_faces: Vec<Vec<Face>> = Vec::new();
        let mut i: usize = 0;
        while i < faces.len()
            invariant
                nv == vertices@.len(),
                nt == textures@.len(),
                nn == normals@.len(),
                i <= faces@.len(),
                out_faces@.len() == i,
                forall|j: int|
                    0 <= j < i ==> #[trigger] face_input_ok(
                        faces@[j],
                        vertices@.len() as int,
                        textures@.len() as int,
                        normals@.len() as int,
                    ),
                forall|j: int|
                    0 <= j < i ==> #[trigger] face_converted(faces@[j], out_faces@[j]),
            decreases faces@.len() - i,
        {
            let face = &faces[i];
            if face.len() < 3 {
                proof {
                    if input_valid(vertices@, textures@, normals@, faces@) {
                        assert(face_input_ok(
                            faces@[i as int],
                            vertices@.len() as int,
                            textures@.len() as int,
                            normals@.len() as int,
                        ));
                    }
                }
                return Result::Err(LoadError::FaceTooSmall);
            }
            let mut out_face: Vec<Face> = Vec::new();
            let mut k: usize = 0;
            while k < face.len()
                invariant
                    nv == vertices@.len(),
                    nt == textures@.len(),
                    nn == normals@.len(),
                    k <= face@.len(),
                    *face == faces@[i as int],
                    i < faces@.len(),
                    out_face@.len() == k,
                    forall|m: int|
                        0 <= m < k ==> corner_valid(
                            #[trigger] face@[m],
                            vertices@.len() as int,
                            textures@.len() as int,
                            normals@.len() as int,
                        ),
                    forall|m: int|
                        0 <= m < k ==> corner_converted(#[trigger] face@[m], out_face@[m]),
                decreases face@.len() - k,
            {
                let f = face[k];
                proof {
                    if input_valid(vertices@, textures@, normals@, faces@) {
                        assert(face_input_ok(
                            faces@[i as int],
                            vertices@.len() as int,
                            textures@.len() as int,
                            normals@.len() as int,
                        ));
                        assert(corner_valid(
                            faces@[i as int]@[k as int],
                            vertices@.len() as int,
                            textures@.len() as int,
                            normals@.len() as int,
                        ));
                        assert(face@[k as int] == faces@[i as int]@[k as int]);
                    }
                }
                if f.vertex < 1 || f.vertex as usize > nv {
                    return Result::Err(LoadError::VertexIndexOutOfRange);
                }
                if f.texture < 1 || f.texture as usize > nt {
                    return Result::Err(LoadError::TextureIndexOutOfRange);
                }
                if f.normal as usize > nn {
                    return Result::Err(LoadError::NormalIndexOutOfRange);
                }
                let normal: u32 = if f.normal >= 1 {
                    f.normal - 1
                } else {
                    0
                };
                out_face.push(Face { vertex: f.vertex - 1, texture: f.texture - 1, normal });
                k = k + 1;
            }
            let ghost prev_faces = out_faces@;
            out_faces.push(out_face);
            proof {
                assert(out_faces@[i as int] == out_face);
                assert(face_input_ok(
                    faces@[i as int],
                    vertices@.len() as int,
                    textures@.len() as int,
                    normals@.len() as int,
                ));
                assert(face_converted(faces@[i as int], out_faces@[i as int]));
                assert forall|j: int| 0 <= j < i + 1 implies #[trigger] face_converted(
                    faces@[j],
                    out_faces@[j],
                ) by {
                    if j < i {
                        assert(out_faces@[j] == prev_faces[j]);
                        assert(face_converted(faces@[j], prev_faces[j]));
                    }
                }
            }
            i = i + 1;
        }
        proof {
            assert forall|j: int| 0 <= j < out_faces@.len() implies (#[trigger] out_faces@[j])@.len()
                >= 3 by {
                assert(face_input_ok(
                    faces@[j],
                    vertices@.len() as int,
                    textures@.len() as int,
                    normals@.len() as int,
                ));
                assert(face_converted(faces@[j], out_faces@[j]));
            }
            assert forall|j: int, k2: int|
                0 <= j < out_faces@.len() && 0 <= k2 < out_faces@[j]@.len() implies {
                &&& (#[trigger] out_faces@[j]@[k2]).vertex < vertices@.len()
                &&& out_faces@[j]@[k2].texture < textures@.len()
            } by {
                assert(face_input_ok(
                    faces@[j],
                    vertices@.len() as int,
                    textures@.len() as int,
                    normals@.len() as int,
                ));
                assert(face_converted(faces@[j], out_faces@[j]));
                assert(corner_valid(
                    faces@[j]@[k2],
                    vertices@.len() as int,
                    textures@.len() as int,
                    normals@.len() as int,
                ));
                assert(corner_converted(faces@[j]@[k2], out_faces@[j]@[k2]));
            }
        }
        Result::Ok(Object { faces: out_faces, vertices, normals, textures, texture })
    }
}

/// The flat Lambertian intensity of a face: the dot product of the
/// normalized face normal `(v2 - v0) x (v1 - v0)` with the light direction
/// (0, 0, -1), held exactly as `num / sqrt(norm2)`.  `num` is not positive
/// for a back-facing or degenerate face.
fn calc_intensity(vertices: &[Point3]) -> (r: Intensity)
    requires
        vertices@.len() >= 3,
        model_in_range(vertices@[0]),
        model_in_range(vertices@[1]),
        model_in_range(vertices@[2]),
    ensures
        ({
            let v0 = vertices@[0];
            let v1 = vertices@[1];
            let v2 = vertices@[2];
            let nx = (v2.y - v0.y) * (v1.z - v0.z) - (v2.z - v0.z) * (v1.y - v0.y);
            let ny = (v2.z - v0.z) * (v1.x - v0.x) - (v2.x - v0.x) * (v1.z - v0.z);
            let nz = (v2.x - v0.x) * (v1.y - v0.y) - (v2.y - v0.y) * (v1.x - v0.x);
            &&& r.num == -nz
            &&& r.norm2 == nx * nx + ny * ny + nz * nz
            &&& -0x200000 <= r.num <= 0x200000
            &&& 0 <= r.norm2 <= 0x40000000000
            &&& r.num * r.num <= r.norm2
        }),
{
    let v0 = vertices[0];
    let v1 = vertices[1];
    let v2 = vertices[2];
    let ux: i128 = (v2.x as i128) - (v0.x as i128);
    let uy: i128 = (v2.y as i128) - (v0.y as i128);
    let uz: i128 = (v2.z as i128) - (v0.z as i128);
    let wx: i128 = (v1.x as i128) - (v0.x as i128);
    let wy: i128 = (v1.y as i128) - (v0.y as i128);
    let wz: i128 = (v1.z as i128) - (v0.z as i128);
    proof {
        lemma_mul_bound2(uy as int, wz as int, 0x200, 0x200);
        lemma_mul_bound2(uz as int, wy as int, 0x200, 0x200);
        lemma_mul_bound2(uz as int, wx as int, 0x200, 0x200);
        lemma_mul_bound2(ux as int, wz as int, 0x200, 0x200);
        lemma_mul_bound2(ux as int, wy as int, 0x200, 0x200);
        lemma_mul_bound2(uy as int, wx as int, 0x200, 0x200);
    }
    let nx: i128 = uy * wz - uz * wy;
    let ny: i128 = uz * wx - ux * wz;
    let nz: i128 = ux * wy - uy * wx;
    proof {
        lemma_mul_bound2(nx as int, nx as int, 0x100000, 0x100000);
        lemma_mul_bound2(ny as int, ny as int, 0x100000, 0x100000);
        lemma_mul_bound2(nz as int, nz as int, 0x100000, 0x100000);
        assert(nx * nx >= 0 && ny * ny >= 0 && nz * nz >= 0) by (nonlinear_arith);
        assert(nz * nz == (-nz) * (-nz)) by (nonlinear_arith);
    }
    Intensity { num: -nz, norm2: nx * nx + ny * ny + nz * nz }
}

/// Maps a normalized model-space vertex to screen space:
/// `x' = (x + 1) * width / 2`, `y' = (y + 1) * height / 2` in pixels,
/// carried exactly in units; `z` passes through unscaled as depth.
fn to_screen(v: Point3, width: u32, height: u32) -> (r: Point3)
    requires
        model_in_range(v),
        1 <= width <= 16384,
        1 <= height <= 16384,
    ensures
        r.x == (v.x + SCALE) * width / 2,
        r.y == (v.y + SCALE) * height / 2,
        r.z == v.z,
        r == to_screen_spec(v, width as int, height as int),
        r.in_range(),
{
    proof {
        lemma_mul_bound(v.x + SCALE, width as int, 512, 16384);
        lemma_mul_bound(v.y + SCALE, height as int, 512, 16384);
        assert((v.x + SCALE) * (width as int) >= 0 && (v.y + SCALE) * (height as int) >= 0)
            by (nonlinear_arith)
            requires
                v.x + SCALE >= 0,
                v.y + SCALE >= 0,
                width >= 1,
                height >= 1,
        ;
    }
    let tx: i64 = (v.x + SCALE) * (width as i64);
    let ty: i64 = (v.y + SCALE) * (height as i64);
    Point3 { x: tx / 2, y: ty / 2, z: v.z }
}

/// The screen-space image of a model vertex: `x' = (x + 1) * width / 2`,
/// `y' = (y + 1) * height / 2` in pixels, carried in units; `z` unscaled.
pub open spec fn to_screen_spec(v: Point3, width: int, height: int) -> Point3 {
    Point3 {
        x: ((v.x + SCALE) * width / 2) as i64,
        y: ((v.y + SCALE) * height / 2) as i64,
        z: v.z,
    }
}

impl Object {
    /// The texture coordinates of face `fi`'s corners, in order.
    pub open spec fn face_tex_coords(self, fi: int) -> Seq<Point3> {
        Seq::new(
            self.faces@[fi]@.len(),
            |k: int| self.textures@[self.faces@[fi]@[k].texture as int],
        )
    }

    /// The screen-space position of corner `k` of face `fi`.
    pub open spec fn screen_vertex(self, fi: int, k: int, width: int, height: int) -> Point3 {
        to_screen_spec(self.vertices@[self.faces@[fi]@[k].vertex as int], width, height)
    }

    /// The exact intensity of face `fi`: `-nz / sqrt(|n|^2)` for the flat
    /// normal `n` of its first three corners.
    pub open spec fn face_intensity(self, fi: int) -> Intensity {
        let f = self.faces@[fi];
        let v0 = self.vertices@[f@[0].vertex as int];
        let v1 = self.vertices@[f@[1].vertex as int];
        let v2 = self.vertices@[f@[2].vertex as int];
        let nx = (v2.y - v0.y) * (v1.z - v0.z) - (v2.z - v0.z) * (v1.y - v0.y);
        let ny = (v2.z - v0.z) * (v1.x - v0.x) - (v2.x - v0.x) * (v1.z - v0.z);
        let nz = (v2.x - v0.x) * (v1.y - v0.y) - (v2.y - v0.y) * (v1.x - v0.x);
        Intensity { num: (-nz) as i128, norm2: (nx * nx + ny * ny + nz * nz) as i128 }
    }

    /// `tri` is window `w` of face `fi`: three consecutive screen-space
    /// corners, the mesh texture, the face's texture coordinates and its
    /// flat intensity.
    pub open spec fn window_triangle_matches(
        self,
        fi: int,
        w: int,
        tri: Triangle,
        width: int,
        height: int,
    ) -> bool {
        &&& tri.a == self.screen_vertex(fi, w, width, height)
        &&& tri.b == self.screen_vertex(fi, w + 1, width, height)
        &&& tri.c == self.screen_vertex(fi, w + 2, width, height)
        &&& *tri.texture == self.texture
        &&& tri.texture_vertices@ == self.face_tex_coords(fi)
        &&& tri.intensity == self.face_intensity(fi)
    }

    /// What rendering face `fi` does to the framebuffer: a back-facing face
    /// leaves it untouched; any other face is rasterized as the ordered
    /// chain of its window triangles, each step an exact triangle
    /// rasterization.
    pub open spec fn face_steps(self, fi: int, before: PNG, after: PNG) -> bool {
        if self.face_backfacing(fi) {
            after == before
        } else {
            exists|tris: Seq<Triangle>, states: Seq<PNG>|
                {
                    &&& tris.len() == self.faces@[fi]@.len() - 2
                    &&& states.len() == tris.len() + 1
                    &&& states[0] == before
                    &&& states[tris.len() as int] == after
                    &&& forall|w: int|
                        0 <= w < tris.len() ==> {
                            &&& self.window_triangle_matches(
                                fi,
                                w,
                                #[trigger] tris[w],
                                before.width as int,
                                before.height as int,
                            )
                            &&& render_rel(tris[w], states[w], states[w + 1])
                        }
                }
        }
    }

    /// The framebuffer after `render` is the result of rendering every face
    /// in order.
    pub open spec fn render_steps(self, before: PNG, after: PNG) -> bool {
        exists|states: Seq<PNG>|
            {
                &&& states.len() == self.faces@.len() + 1
                &&& states[0] == before
                &&& states[self.faces@.len() as int] == after
                &&& forall|i: int|
                    0 <= i < self.faces@.len() ==> #[trigger] self.face_steps(
                        i,
                        states[i],
                        states[i + 1],
                    )
            }
    }
}

/// The stored depth of a cell never moves backwards: an empty cell may take
/// any value, a stored value may only be replaced by one at least as near.
pub open spec fn depth_no_decrease(d0: Depth, d1: Depth) -> bool {
    match d0 {
        Depth::Empty => true,
        Depth::Val(w0) => match d1 {
            Depth::Empty => false,
            Depth::Val(w1) => !w1.lt(w0),
        },
    }
}

/// Rational order is transitive over positive denominators.
proof fn lemma_rat_le_trans(w0: Rat, w1: Rat, w2: Rat)
    by (nonlinear_arith)
    requires
        w0.den > 0,
        w1.den > 0,
        w2.den > 0,
        !w1.lt(w0),
        !w2.lt(w1),
    ensures
        !w2.lt(w0),
{
}

impl Object {
    /// Renders every face: resolves its corners, culls it when its flat
    /// intensity is not positive, transforms the vertices to screen space
    /// and rasterizes the face as a sliding window of triangles.  Depths
    /// only ever move nearer; if every face is back-facing, the framebuffer
    /// is untouched.
    pub fn render(&self, renderer: &mut PNG)
        requires
            self.wf(),
            old(renderer).wf(),
        ensures
            final(renderer).wf(),
            final(renderer).width == old(renderer).width,
            final(renderer).height == old(renderer).height,
            forall|r: int, c: int|
                0 <= r < old(renderer).height && 0 <= c < old(renderer).width
                    ==> depth_no_decrease(
                    old(renderer).depth_at(r, c),
                    #[trigger] final(renderer).depth_at(r, c),
                ),
            (forall|i: int| 0 <= i < self.faces@.len() ==> self.face_backfacing(i)) ==> forall|
                r: int,
                c: int,
            |
                0 <= r < old(renderer).height && 0 <= c < old(renderer).width
                    ==> #[trigger] pixel_untouched(*old(renderer), *final(renderer), r, c),
            self.render_steps(*old(renderer), *final(renderer)),
    {
        let (width, height) = renderer.get_size();
        let ghost mut states: Seq<PNG> = seq![*renderer];
        let mut fi: usize = 0;
        while fi < self.faces.len()
            invariant
                self.wf(),
                old(renderer).wf(),
                renderer.wf(),
                renderer.width == old(renderer).width,
                renderer.height == old(renderer).height,
                width == old(renderer).width,
                height == old(renderer).height,
                fi <= self.faces@.len(),
                forall|r: int, c: int|
                    0 <= r < old(renderer).height && 0 <= c < old(renderer).width
                        ==> depth_no_decrease(
                        old(renderer).depth_at(r, c),
                        #[trigger] renderer.depth_at(r, c),
                    ),
                (forall|i: int| 0 <= i < self.faces@.len() ==> self.face_backfacing(i)) ==> forall|
                    r: int,
                    c: int,
                |
                    0 <= r < old(renderer).height && 0 <= c < old(renderer).width
                        ==> #[trigger] pixel_untouched(*old(renderer), *renderer, r, c),
                states.len() == fi + 1,
                states[0] == *old(renderer),
                states[fi as int] == *renderer,
                forall|i: int|
                    0 <= i < fi ==> #[trigger] self.face_steps(i, states[i], states[i + 1]),
            decreases self.faces@.len() - fi,
        {
            let ghost face_start = *renderer;
            let face = &self.faces[fi];
            let mut vertices: Vec<Point3> = Vec::new();
            let mut texture_vertices: Vec<Point3> = Vec::new();
            let mut k: usize = 0;
            while k < face.len()
                invariant
                    self.wf(),
                    fi < self.faces@.len(),
                    *face == self.faces@[fi as int],
                    k <= face@.len(),
                    vertices@.len() == k,
                    texture_vertices@.len() == k,
                    forall|m: int|
                        0 <= m < k ==> #[trigger] vertices@[m] == self.vertices@[face@[m].vertex
                            as int],
                    forall|m: int|
                        0 <= m < k ==> #[trigger] texture_vertices@[m] == self.textures@[face@[m].texture
                            as int],
                decreases face@.len() - k,
            {
                let f = face[k];
                vertices.push(self.vertices[f.vertex as usize]);
                texture_vertices.push(self.textures[f.texture as usize]);
                k = k + 1;
            }
            let intensity = calc_intensity(vertices.as_slice());
            if intensity.num > 0 {
                proof {
                    assert(intensity.num * intensity.num >= 1) by (nonlinear_arith)
                        requires
                            intensity.num >= 1,
                    ;
                }
                let mut screen: Vec<Point3> = Vec::new();
                let mut k: usize = 0;
                while k < vertices.len()
                    invariant
                        self.wf(),
                        1 <= width <= 16384,
                        1 <= height <= 16384,
                        k <= vertices@.len(),
                        screen@.len() == k,
                        forall|m: int|
                            0 <= m < vertices@.len() ==> model_in_range(
                                #[trigger] vertices@[m],
                            ),
                        forall|m: int| 0 <= m < k ==> (#[trigger] screen@[m]).in_range(),
                        forall|m: int|
                            0 <= m < k ==> #[trigger] screen@[m] == to_screen_spec(
                                vertices@[m],
                                width as int,
                                height as int,
                            ),
                    decreases vertices@.len() - k,
                {
                    screen.push(to_screen(vertices[k], width, height));
                    k = k + 1;
                }
                proof {
                    assert(screen@.len() >= 3);
                    assert(texture_vertices@ =~= self.face_tex_coords(fi as int));
                    assert(intensity == self.face_intensity(fi as int));
                    assert forall|m: int| 0 <= m < screen@.len() implies #[trigger] screen@[m]
                        == self.screen_vertex(fi as int, m, width as int, height as int) by {
                        assert(screen@[m] == to_screen_spec(vertices@[m], width as int, height as int));
                        assert(vertices@[m] == self.vertices@[face@[m].vertex as int]);
                        assert(face@[m] == self.faces@[fi as int]@[m]);
                    }
                }
                let ghost mut wtris: Seq<Triangle> = Seq::empty();
                let ghost mut wstates: Seq<PNG> = seq![*renderer];
                let mut w: usize = 0;
                while w < screen.len() - 2
                    invariant
                        screen@.len() >= 3,
                        w <= screen@.len() - 2,
                        old(renderer).wf(),
                        self.wf(),
                        renderer.wf(),
                        renderer.width == old(renderer).width,
                        renderer.height == old(renderer).height,
                        face_start.width == old(renderer).width,
                        face_start.height == old(renderer).height,
                        fi < self.faces@.len(),
                        screen@.len() == self.faces@[fi as int]@.len(),
                        intensity.wf(),
                        intensity == self.face_intensity(fi as int),
                        texture_vertices@ == self.face_tex_coords(fi as int),
                        texture_vertices@.len() >= 3,
                        forall|m: int|
                            0 <= m < texture_vertices@.len() ==> model_in_range(
                                #[trigger] texture_vertices@[m],
                            ),
                        forall|m: int|
                            0 <= m < screen@.len() ==> (#[trigger] screen@[m]).in_range(),
                        forall|m: int|
                            0 <= m < screen@.len() ==> #[trigger] screen@[m]
                                == self.screen_vertex(
                                fi as int,
                                m,
                                old(renderer).width as int,
                                old(renderer).height as int,
                            ),
                        wtris.len() == w,
                        wstates.len() == w + 1,
                        wstates[0] == face_start,
                        wstates[w as int] == *renderer,
                        forall|j: int|
                            0 <= j < w ==> {
                                &&& self.window_triangle_matches(
                                    fi as int,
                                    j,
                                    #[trigger] wtris[j],
                                    face_start.width as int,
                                    face_start.height as int,
                                )
                                &&& render_rel(wtris[j], wstates[j], wstates[j + 1])
                            },
                        forall|r: int, c: int|
                            0 <= r < old(renderer).height && 0 <= c < old(renderer).width
                                ==> depth_no_decrease(
                                old(renderer).depth_at(r, c),
                                #[trigger] renderer.depth_at(r, c),
                            ),
                    decreases screen@.len() - w,
                {
                    let ghost pre = *renderer;
                    proof {
                        assert(pre.wf());
                    }
                    let triangle = Triangle::new(
                        screen[w],
                        screen[w + 1],
                        screen[w + 2],
                        &self.texture,
                        &texture_vertices,
                        intensity,
                    );
                    triangle.render(renderer);
                    proof {
                        lemma_monotone_step(triangle, *old(renderer), pre, *renderer);
                        wtris = wtris.push(triangle);
                        wstates = wstates.push(*renderer);
                        assert(self.window_triangle_matches(
                            fi as int,
                            w as int,
                            triangle,
                            face_start.width as int,
                            face_start.height as int,
                        ));
                        assert forall|j: int| 0 <= j < w + 1 implies {
                            &&& self.window_triangle_matches(
                                fi as int,
                                j,
                                #[trigger] wtris[j],
                                face_start.width as int,
                                face_start.height as int,
                            )
                            &&& render_rel(wtris[j], wstates[j], wstates[j + 1])
                        } by {
                            if j < w {
                                assert(wtris[j] == wtris.drop_last()[j]);
                                assert(wstates[j] == wstates.drop_last()[j]);
                                assert(wstates[j + 1] == wstates.drop_last()[j + 1]);
                            }
                        }
                    }
                    w = w + 1;
                }
                proof {
                    assert(!self.face_backfacing(fi as int));
                    assert(wtris.len() == self.faces@[fi as int]@.len() - 2);
                    assert(self.face_steps(fi as int, face_start, *renderer));
                }
            } else {
                proof {
                    assert(self.face_backfacing(fi as int));
                    assert(self.face_steps(fi as int, face_start, *renderer));
                }
            }
            proof {
                states = states.push(*renderer);
                assert(states[fi as int] == face_start);
                assert forall|i: int|
                    0 <= i < fi + 1 implies #[trigger] self.face_steps(
                    i,
                    states[i],
                    states[i + 1],
                ) by {
                    if i < fi {
                        assert(states[i] == states.drop_last()[i]);
                        assert(states[i + 1] == states.drop_last()[i + 1]);
                    }
                }
            }
            fi = fi + 1;
        }
        proof {
            assert(states.len() == self.faces@.len() + 1);
            assert(self.render_steps(*old(renderer), *renderer));
        }
    }
}

/// One rasterized triangle keeps the depth buffer monotone relative to any
/// earlier state it was already monotone against.
proof fn lemma_monotone_step(tri: Triangle, orig: PNG, pre: PNG, cur: PNG)
    requires
        orig.wf(),
        pre.wf(),
        pre.width == orig.width,
        pre.height == orig.height,
        render_rel(tri, pre, cur),
        forall|r: int, c: int|
            0 <= r < orig.height && 0 <= c < orig.width ==> depth_no_decrease(
                orig.depth_at(r, c),
                #[trigger] pre.depth_at(r, c),
            ),
    ensures
        forall|r: int, c: int|
            0 <= r < orig.height && 0 <= c < orig.width ==> depth_no_decrease(
                orig.depth_at(r, c),
                #[trigger] cur.depth_at(r, c),
            ),
{
    assert forall|r: int, c: int|
        0 <= r < orig.height && 0 <= c < orig.width implies depth_no_decrease(
        orig.depth_at(r, c),
        #[trigger] cur.depth_at(r, c),
    ) by {
        let trig = crate::triangle::pixel_done(tri, pre, cur, r, c);
        let x = c * (SCALE as int);
        let y = r * (SCALE as int);
        crate::render::lemma_grid_index(r, c, orig.width as int, orig.height as int);
        assert(pre.depth_at(r, c).wf());
        assert(orig.depth_at(r, c).wf());
        if tri.covered(x, y) && crate::triangle::depth_passes_int(
            pre.depth_at(r, c),
            tri.depth_num(x, y),
            tri.depth_den(),
        ) {
            assert(tri.depth_den() > 0);
            match cur.depth_at(r, c) {
                Depth::Val(w1) => {
                    match orig.depth_at(r, c) {
                        Depth::Val(w0) => {
                            match pre.depth_at(r, c) {
                                Depth::Val(wp) => {
                                    assert(!wp.lt(w0));
                                    assert(wp.lt(w1));
                                    assert(!w1.lt(wp)) by (nonlinear_arith)
                                        requires
                                            wp.den > 0,
                                            w1.den > 0,
                                            wp.lt(w1),
                                    ;
                                    lemma_rat_le_trans(w0, wp, w1);
                                },
                                Depth::Empty => {
                                    assert(false);
                                },
                            }
                        },
                        Depth::Empty => {},
                    }
                },
                Depth::Empty => {
                    assert(false);
                },
            }
        } else {
            assert(cur.depth_at(r, c) == pre.depth_at(r, c));
        }
    }
}

} // verus!
