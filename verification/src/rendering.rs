//! The renderer: from the vertices of a mesh to the pixels of the image.
use crate::clip::{behind, clip, clip_near_plane};
use crate::fixed::{div_fixed, div_saturating, saturate};
use crate::fragment::{
    fill_triangle, fillable, filled_up_to, fragment, fragment_of_exec, kept_outside, lemma_pixel_index, owned,
    to_texel_exec, Fragment, Frame,
};
use crate::math::{Mat4, Vec4};
use crate::mesh::{Mesh, Model};
use crate::raster::{
    barycentric, bounding_box, edge, edge_function, ndc_to_screen, to_screen, Bounds, ScreenPoint,
};
use crate::structs::{FragIn, Vertex};
use crate::texture::Material;
use vstd::prelude::*;

verus! {

/// The state that every draw call reads: the two matrices of the camera and
/// the materials by name.  In a renderer that is well formed no name occurs
/// twice.
pub struct Renderer {
    pub projection_matrix: Mat4,
    pub view_matrix: Mat4,
    pub materials: Vec<(String, Material)>,
}

impl Renderer {
    /// Fills one triangle.  The positions of the three vertices are in
    /// normalised device coordinates, with `w` as it left the vertex stage.
    /// Every pixel becomes what `fill_triangle` says.
    ///
    /// The depth buffer holds, for every pixel, the greatest depth that was
    /// drawn there: a frame starts with the depth zero everywhere, and a
    /// fragment is drawn unless its depth is less than the one the pixel
    /// holds.  A triangle is filled where it runs anticlockwise before the
    /// eye; one that runs clockwise, or has no area, leaves the frame as it is.
    pub fn draw_triangle_filled(
        v0_in: FragIn,
        v1_in: FragIn,
        v2_in: FragIn,
        colour_buffer: &mut Vec<u32>,
        depth_buffer: &mut Vec<u32>,
        width: usize,
        height: usize,
        material: Option<&Material>,
    )
        requires
            width >= 1,
            height >= 1,
            old(colour_buffer)@.len() == width * height,
            old(depth_buffer)@.len() == width * height,
        ensures
            (Frame { colour: final(colour_buffer)@, depth: final(depth_buffer)@ }) == fill_triangle(
                (Frame { colour: old(colour_buffer)@, depth: old(depth_buffer)@ }),
                v0_in,
                v1_in,
                v2_in,
                width as int,
                height as int,
                owned(material),
            ),
    {
        let ghost before = Frame { colour: colour_buffer@, depth: depth_buffer@ };
        let size: usize = colour_buffer.len();
        let ghost after = fill_triangle(
            before,
            v0_in,
            v1_in,
            v2_in,
            width as int,
            height as int,
            owned(material),
        );
        let s0: ScreenPoint = ndc_to_screen(v0_in.position, width, height);
        let s1: ScreenPoint = ndc_to_screen(v1_in.position, width, height);
        let s2: ScreenPoint = ndc_to_screen(v2_in.position, width, height);
        let bounds: Bounds = bounding_box(s0, s1, s2, width, height);
        if v0_in.position.w <= 0 || v1_in.position.w <= 0 || v2_in.position.w <= 0
            || bounds.x_max <= bounds.x_min || bounds.y_max <= bounds.y_min {
            assert(after.colour =~= before.colour);
            assert(after.depth =~= before.depth);
            return ;
        }
        let screen_area: i128 = edge_function(s0, s1, s2);
        let texture_area: i128 = match material {
            None => 0,
            Some(m) => edge_function(
                to_texel_exec(v0_in.uv, &m.texture),
                to_texel_exec(v1_in.uv, &m.texture),
                to_texel_exec(v2_in.uv, &m.texture),
            ),
        };
        assert(kept_outside(before, after, bounds, width as int));
        let mut y: usize = bounds.y_min;
        while y <= bounds.y_max
            invariant
                width >= 1,
                height >= 1,
                before.colour.len() == width * height,
                before.depth.len() == width * height,
                size == width * height,
                after == fill_triangle(
                    before,
                    v0_in,
                    v1_in,
                    v2_in,
                    width as int,
                    height as int,
                    owned(material),
                ),
                s0 == to_screen(v0_in.position, width as int, height as int),
                s1 == to_screen(v1_in.position, width as int, height as int),
                s2 == to_screen(v2_in.position, width as int, height as int),
                bounds == Bounds::of(s0, s1, s2, width as int, height as int),
                fillable(v0_in, v1_in, v2_in, width as int, height as int),
                bounds.x_max <= 8388607,
                bounds.y_max <= 8388607,
                bounds.x_max < width,
                bounds.y_max < height,
                screen_area == edge(s0, s1, s2),
                material matches Some(m) ==> texture_area == crate::fragment::texture_area(
                    v0_in,
                    v1_in,
                    v2_in,
                    &m.texture,
                ),
                kept_outside(before, after, bounds, width as int),
                bounds.y_min <= y <= bounds.y_max + 1,
                filled_up_to(
                    before,
                    after,
                    (Frame { colour: colour_buffer@, depth: depth_buffer@ }),
                    width as int,
                    0,
                    y as int,
                ),
            decreases bounds.y_max + 1 - y,
        {
            let mut x: usize = bounds.x_min;
            assert(filled_up_to(
                before,
                after,
                (Frame { colour: colour_buffer@, depth: depth_buffer@ }),
                width as int,
                x as int,
                y as int,
            ));
            while x <= bounds.x_max
                invariant
                    width >= 1,
                    height >= 1,
                    before.colour.len() == width * height,
                    before.depth.len() == width * height,
                    size == width * height,
                    after == fill_triangle(
                        before,
                        v0_in,
                        v1_in,
                        v2_in,
                        width as int,
                        height as int,
                        owned(material),
                    ),
                    s0 == to_screen(v0_in.position, width as int, height as int),
                    s1 == to_screen(v1_in.position, width as int, height as int),
                    s2 == to_screen(v2_in.position, width as int, height as int),
                    bounds == Bounds::of(s0, s1, s2, width as int, height as int),
                    fillable(v0_in, v1_in, v2_in, width as int, height as int),
                    bounds.x_max <= 8388607,
                    bounds.y_max <= 8388607,
                    bounds.x_max < width,
                    bounds.y_max < height,
                    screen_area == edge(s0, s1, s2),
                    material matches Some(m) ==> texture_area == crate::fragment::texture_area(
                        v0_in,
                        v1_in,
                        v2_in,
                        &m.texture,
                    ),
                    kept_outside(before, after, bounds, width as int),
                    bounds.y_min <= y <= bounds.y_max,
                    bounds.x_min <= x <= bounds.x_max + 1,
                    filled_up_to(
                        before,
                        after,
                        (Frame { colour: colour_buffer@, depth: depth_buffer@ }),
                        width as int,
                        x as int,
                        y as int,
                    ),
                decreases bounds.x_max + 1 - x,
            {
                proof {
                    lemma_pixel_index(x as int, y as int, width as int, height as int);
                }
                let i: usize = x + y * width;
                let centre = ScreenPoint { x: (256 * x + 128) as i32, y: (256 * y + 128) as i32 };
                let found: Option<Fragment> = match barycentric(s0, s1, s2, centre) {
                    None => None,
                    Some(b) => fragment_of_exec(
                        &v0_in,
                        &v1_in,
                        &v2_in,
                        screen_area,
                        texture_area,
                        material,
                        b,
                    ),
                };
                assert(found == fragment(
                    v0_in,
                    v1_in,
                    v2_in,
                    width as int,
                    height as int,
                    owned(material),
                    x as int,
                    y as int,
                ));
                let ghost earlier = Frame { colour: colour_buffer@, depth: depth_buffer@ };
                assert(earlier.colour[i as int] == before.colour[i as int]);
                assert(earlier.depth[i as int] == before.depth[i as int]);
                match found {
                    Some(f) => {
                        if f.depth >= depth_buffer[i] {
                            colour_buffer.set(i, f.colour);
                            depth_buffer.set(i, f.depth);
                        }
                    },
                    None => {},
                }
                proof {
                    let now = Frame { colour: colour_buffer@, depth: depth_buffer@ };
                    assert(now.colour[i as int] == after.colour[i as int]);
                    assert(now.depth[i as int] == after.depth[i as int]);
                    assert forall|j: int| 0 <= j < before.colour.len() implies if j / (width as int)
                        < y || (j / (width as int) == y && j % (width as int) < x + 1) {
                        #[trigger] now.colour[j] == after.colour[j] && now.depth[j] == after.depth[j]
                    } else {
                        now.colour[j] == before.colour[j] && now.depth[j] == before.depth[j]
                    } by {
                        let w = width as int;
                        vstd::arithmetic::div_mod::lemma_fundamental_div_mod(j, w);
                        if j != i {
                            assert(now.colour[j] == earlier.colour[j]);
                            assert(now.depth[j] == earlier.depth[j]);
                            if j / w == y && j % w == x {
                                assert(w * (j / w) == y * w) by (nonlinear_arith)
                                    requires
                                        j / w == y,
                                ;
                                assert(false);
                            }
                        }
                    }
                    assert(now.colour.len() == before.colour.len());
                    assert(now.depth.len() == before.depth.len());
                    assert(filled_up_to(before, after, now, width as int, x + 1, y as int));
                }
                x = x + 1;
            }
            proof {
                let now = Frame { colour: colour_buffer@, depth: depth_buffer@ };
                assert forall|j: int| 0 <= j < before.colour.len() implies if j / (width as int) < y
                    + 1 || (j / (width as int) == y + 1 && j % (width as int) < 0) {
                    #[trigger] now.colour[j] == after.colour[j] && now.depth[j] == after.depth[j]
                } else {
                    now.colour[j] == before.colour[j] && now.depth[j] == before.depth[j]
                } by {
                    vstd::arithmetic::div_mod::lemma_fundamental_div_mod(j, width as int);
                }
            }
            y = y + 1;
        }
        proof {
            let now = Frame { colour: colour_buffer@, depth: depth_buffer@ };
            assert forall|j: int| 0 <= j < before.colour.len() implies now.colour[j]
                == after.colour[j] && now.depth[j] == after.depth[j] by {
                vstd::arithmetic::div_mod::lemma_fundamental_div_mod(j, width as int);
            }
            assert(now.colour =~= after.colour);
            assert(now.depth =~= after.depth);
        }
    }
}

/// A vertex after the perspective divide: `x`, `y` and `z` divided by `w`,
/// and `w` kept.  A vertex whose `w` is not positive is left as it is; no
/// triangle with such a vertex is filled.
pub open spec fn divided(v: FragIn) -> FragIn {
    if v.position.w > 0 {
        FragIn {
            position: Vec4 {
                x: saturate(div_fixed(v.position.x as int, v.position.w as int)) as i32,
                y: saturate(div_fixed(v.position.y as int, v.position.w as int)) as i32,
                z: saturate(div_fixed(v.position.z as int, v.position.w as int)) as i32,
                w: v.position.w,
            },
            normal: v.normal,
            tangent: v.tangent,
            colour: v.colour,
            uv: v.uv,
        }
    } else {
        v
    }
}

/// Carries a vertex from clip space to normalised device coordinates.
pub fn perspective_divide(v: FragIn) -> (r: FragIn)
    ensures
        r == divided(v),
{
    if v.position.w > 0 {
        FragIn {
            position: Vec4 {
                x: div_saturating(v.position.x, v.position.w),
                y: div_saturating(v.position.y, v.position.w),
                z: div_saturating(v.position.z, v.position.w),
                w: v.position.w,
            },
            normal: v.normal,
            tangent: v.tangent,
            colour: v.colour,
            uv: v.uv,
        }
    } else {
        v
    }
}

/// The frame after the first `n` triangles of a clipped triangle list have
/// been divided and filled, one after another.
pub open spec fn draw_clipped(
    frame: Frame,
    clipped: Seq<FragIn>,
    n: nat,
    width: int,
    height: int,
    material: Option<Material>,
) -> Frame
    decreases n,
{
    if n == 0 {
        frame
    } else {
        fill_triangle(
            draw_clipped(frame, clipped, (n - 1) as nat, width, height, material),
            divided(clipped[3 * n - 3]),
            divided(clipped[3 * n - 2]),
            divided(clipped[3 * n - 1]),
            width,
            height,
            material,
        )
    }
}

/// The material that stands under `name` in a list of materials: the first
/// entry with that name.  The name `"None"` stands for no material, and so
/// does a name that the list does not hold.
pub open spec fn material_named(materials: Seq<(String, Material)>, name: Seq<char>, from: int) -> Option<
    Material,
>
    decreases materials.len() - from,
{
    if name == "None"@ || from < 0 || from >= materials.len() {
        None
    } else if materials[from].0@ == name {
        Some(materials[from].1)
    } else {
        material_named(materials, name, from + 1)
    }
}

/// A lookup at or after `from` sees a list only from `from` on.
proof fn lemma_lookup_of_equal_tails(
    a: Seq<(String, Material)>,
    b: Seq<(String, Material)>,
    name: Seq<char>,
    from: int,
)
    requires
        a.len() == b.len(),
        forall|j: int| from <= j < a.len() ==> a[j] == b[j],
    ensures
        material_named(a, name, from) == material_named(b, name, from),
    decreases a.len() - from,
{
    if name != "None"@ && 0 <= from < a.len() && a[from].0@ != name {
        lemma_lookup_of_equal_tails(a, b, name, from + 1);
    }
}

/// What a lookup finds after the entry at `at` has been replaced by one of
/// the same name, when no entry before `at` has that name.
proof fn lemma_lookup_after_replacing(
    materials: Seq<(String, Material)>,
    at: int,
    entry: (String, Material),
    name: Seq<char>,
    from: int,
)
    requires
        0 <= from <= at < materials.len(),
        materials[at].0@ == entry.0@,
        forall|j: int| from <= j < at ==> materials[j].0@ != entry.0@,
    ensures
        material_named(materials.update(at, entry), name, from) == if name == entry.0@ && name
            != "None"@ {
            Some(entry.1)
        } else {
            material_named(materials, name, from)
        },
    decreases at - from,
{
    let after = materials.update(at, entry);
    if name != "None"@ {
        if from < at {
            lemma_lookup_after_replacing(materials, at, entry, name, from + 1);
        } else if name != entry.0@ {
            lemma_lookup_of_equal_tails(after, materials, name, at + 1);
        }
    }
}

/// What a lookup finds after an entry has been added at the end, when no
/// entry from `from` on has its name.
proof fn lemma_lookup_after_adding(
    materials: Seq<(String, Material)>,
    entry: (String, Material),
    name: Seq<char>,
    from: int,
)
    requires
        0 <= from <= materials.len(),
        forall|j: int| from <= j < materials.len() ==> materials[j].0@ != entry.0@,
    ensures
        material_named(materials.push(entry), name, from) == if name == entry.0@ && name != "None"@ {
            Some(entry.1)
        } else {
            material_named(materials, name, from)
        },
    decreases materials.len() - from,
{
    let after = materials.push(entry);
    if name != "None"@ {
        if from < materials.len() {
            assert(after[from] == materials[from]);
            lemma_lookup_after_adding(materials, entry, name, from + 1);
        } else {
            assert(after[from] == entry);
            assert(material_named(after, name, from + 1) is None);
        }
    }
}

/// No name occurs twice in a list of materials.
pub open spec fn material_names_distinct(materials: Seq<(String, Material)>) -> bool {
    forall|i: int, j: int|
        0 <= i < j < materials.len() ==> (#[trigger] materials[i]).0@ != (#[trigger] materials[j]).0@
}

impl Renderer {
    /// No name occurs twice among the materials.
    pub open spec fn wf(&self) -> bool {
        material_names_distinct(self.materials@)
    }

    /// A vertex after the vertex stage: its position carried through the
    /// model, the view and the projection matrix, its attributes unchanged.
    pub open spec fn transformed(&self, vert: Vertex, model_matrix: Mat4) -> FragIn {
        FragIn {
            position: self.projection_matrix.mul_vec4_spec(
                self.view_matrix.mul_vec4_spec(
                    model_matrix.mul_vec4_spec(
                        Vec4 { x: vert.position.x, y: vert.position.y, z: vert.position.z, w: 65536 },
                    ),
                ),
            ),
            normal: vert.normal,
            tangent: vert.tangent,
            colour: vert.colour,
            uv: vert.uv,
        }
    }

    /// The frame after one triangle of a mesh has gone through the whole
    /// pipeline: vertex stage, clipping, perspective divide and fill.
    pub open spec fn triangle_frame(
        &self,
        frame: Frame,
        a: Vertex,
        b: Vertex,
        c: Vertex,
        model_matrix: Mat4,
        width: int,
        height: int,
        material: Option<Material>,
    ) -> Frame {
        let clipped = clip(
            self.transformed(a, model_matrix),
            self.transformed(b, model_matrix),
            self.transformed(c, model_matrix),
        );
        draw_clipped(frame, clipped, clipped.len() / 3, width, height, material)
    }

    /// The frame after the first `n` triangles of a vertex list have been
    /// drawn in their order.
    pub open spec fn mesh_frame(
        &self,
        frame: Frame,
        verts: Seq<Vertex>,
        n: nat,
        model_matrix: Mat4,
        width: int,
        height: int,
        material: Option<Material>,
    ) -> Frame
        decreases n,
    {
        if n == 0 {
            frame
        } else {
            self.triangle_frame(
                self.mesh_frame(frame, verts, (n - 1) as nat, model_matrix, width, height, material),
                verts[3 * n - 3],
                verts[3 * n - 2],
                verts[3 * n - 1],
                model_matrix,
                width,
                height,
                material,
            )
        }
    }

    /// The frame after the first `n` meshes of a model have been drawn in
    /// their order, each with the material that stands under its name.
    pub open spec fn model_frame(
        &self,
        frame: Frame,
        meshes: Seq<(String, Mesh)>,
        n: nat,
        model_matrix: Mat4,
        width: int,
        height: int,
    ) -> Frame
        decreases n,
    {
        if n == 0 {
            frame
        } else {
            self.mesh_frame(
                self.model_frame(frame, meshes, (n - 1) as nat, model_matrix, width, height),
                meshes[n - 1].1.verts@,
                meshes[n - 1].1.triangles(),
                model_matrix,
                width,
                height,
                material_named(self.materials@, meshes[n - 1].0@, 0),
            )
        }
    }

    /// A renderer whose matrices leave every vertex where it is, without
    /// materials.
    pub fn new() -> (r: Renderer)
        ensures
            r.projection_matrix == Mat4::identity_spec(),
            r.view_matrix == Mat4::identity_spec(),
            r.materials@.len() == 0,
            r.wf(),
    {
        Renderer {
            projection_matrix: Mat4::identity(),
            view_matrix: Mat4::identity(),
            materials: Vec::new(),
        }
    }

    /// The vertex stage.  Only the position is transformed: the normal and
    /// the tangent are passed on as they are, so they stay those of the
    /// object where the model is turned or scaled.
    pub fn vertex_shader(&self, vert: &Vertex, model_matrix: &Mat4) -> (v: FragIn)
        ensures
            v == self.transformed(*vert, *model_matrix),
    {
        let object = Vec4 { x: vert.position.x, y: vert.position.y, z: vert.position.z, w: 65536 };
        let world: Vec4 = model_matrix.mul_vec4(object);
        let eye: Vec4 = self.view_matrix.mul_vec4(world);
        let position: Vec4 = self.projection_matrix.mul_vec4(eye);
        FragIn {
            position,
            normal: vert.normal,
            tangent: vert.tangent,
            colour: vert.colour,
            uv: vert.uv,
        }
    }

    /// Looks a material up by its name.
    pub fn material(&self, name: &String) -> (m: Option<&Material>)
        ensures
            owned(m) == material_named(self.materials@, name@, 0),
    {
        let none: String = "None".to_owned();
        if *name == none {
            return None;
        }
        let mut i: usize = 0;
        while i < self.materials.len()
            invariant
                0 <= i <= self.materials@.len(),
                name@ != "None"@,
                material_named(self.materials@, name@, 0) == material_named(
                    self.materials@,
                    name@,
                    i as int,
                ),
            decreases self.materials@.len() - i,
        {
            if self.materials[i].0 == *name {
                return Some(&self.materials[i].1);
            }
            i = i + 1;
        }
        None
    }

    /// Divides and fills the triangles that clipping has left.
    fn draw_clipped_triangles(
        new_triangles: &Vec<FragIn>,
        colour_buffer: &mut Vec<u32>,
        depth_buffer: &mut Vec<u32>,
        width: usize,
        height: usize,
        material: Option<&Material>,
    )
        requires
            new_triangles@.len() % 3 == 0,
            width >= 1,
            height >= 1,
            old(colour_buffer)@.len() == width * height,
            old(depth_buffer)@.len() == width * height,
        ensures
            (Frame { colour: final(colour_buffer)@, depth: final(depth_buffer)@ }) == draw_clipped(
                (Frame { colour: old(colour_buffer)@, depth: old(depth_buffer)@ }),
                new_triangles@,
                new_triangles@.len() / 3,
                width as int,
                height as int,
                owned(material),
            ),
            final(colour_buffer)@.len() == width * height,
            final(depth_buffer)@.len() == width * height,
    {
        let ghost start = Frame { colour: colour_buffer@, depth: depth_buffer@ };
        let length: usize = new_triangles.len();
        let pieces: usize = length / 3;
        let mut k: usize = 0;
        while k < pieces
            invariant
                length == new_triangles@.len(),
                length == 3 * pieces,
                0 <= k <= pieces,
                width >= 1,
                height >= 1,
                colour_buffer@.len() == width * height,
                depth_buffer@.len() == width * height,
                (Frame { colour: colour_buffer@, depth: depth_buffer@ }) == draw_clipped(
                    start,
                    new_triangles@,
                    k as nat,
                    width as int,
                    height as int,
                    owned(material),
                ),
            decreases pieces - k,
        {
            let a: FragIn = perspective_divide(new_triangles[3 * k]);
            let b: FragIn = perspective_divide(new_triangles[3 * k + 1]);
            let c: FragIn = perspective_divide(new_triangles[3 * k + 2]);
            let ghost earlier = Frame { colour: colour_buffer@, depth: depth_buffer@ };
            Self::draw_triangle_filled(
                a,
                b,
                c,
                colour_buffer,
                depth_buffer,
                width,
                height,
                material,
            );
            proof {
                let now = Frame { colour: colour_buffer@, depth: depth_buffer@ };
                assert(now == fill_triangle(
                    earlier,
                    a,
                    b,
                    c,
                    width as int,
                    height as int,
                    owned(material),
                ));
                assert(now.colour.len() == earlier.colour.len());
                assert(now.depth.len() == earlier.depth.len());
            }
            k = k + 1;
        }
    }

    /// Carries one triangle of a mesh through the whole pipeline.
    fn draw_triangle(
        &self,
        a: &Vertex,
        b: &Vertex,
        c: &Vertex,
        model_matrix: &Mat4,
        colour_buffer: &mut Vec<u32>,
        depth_buffer: &mut Vec<u32>,
        width: usize,
        height: usize,
        material: Option<&Material>,
    )
        requires
            width >= 1,
            height >= 1,
            old(colour_buffer)@.len() == width * height,
            old(depth_buffer)@.len() == width * height,
        ensures
            (Frame { colour: final(colour_buffer)@, depth: final(depth_buffer)@ })
                == self.triangle_frame(
                (Frame { colour: old(colour_buffer)@, depth: old(depth_buffer)@ }),
                *a,
                *b,
                *c,
                *model_matrix,
                width as int,
                height as int,
                owned(material),
            ),
            final(colour_buffer)@.len() == width * height,
            final(depth_buffer)@.len() == width * height,
    {
        let v0: FragIn = self.vertex_shader(a, model_matrix);
        let v1: FragIn = self.vertex_shader(b, model_matrix);
        let v2: FragIn = self.vertex_shader(c, model_matrix);
        let new_triangles: Vec<FragIn> = clip_near_plane(v0, v1, v2);
        Self::draw_clipped_triangles(
            &new_triangles,
            colour_buffer,
            depth_buffer,
            width,
            height,
            material,
        );
    }

    /// Draws the triangles of one mesh in their order.
    pub fn draw_mesh(
        &self,
        mesh: &Mesh,
        model_matrix: &Mat4,
        colour_buffer: &mut Vec<u32>,
        depth_buffer: &mut Vec<u32>,
        width: usize,
        height: usize,
        material: Option<&Material>,
    )
        requires
            mesh.wf(),
            width >= 1,
            height >= 1,
            old(colour_buffer)@.len() == width * height,
            old(depth_buffer)@.len() == width * height,
        ensures
            (Frame { colour: final(colour_buffer)@, depth: final(depth_buffer)@ })
                == self.mesh_frame(
                (Frame { colour: old(colour_buffer)@, depth: old(depth_buffer)@ }),
                mesh.verts@,
                mesh.triangles(),
                *model_matrix,
                width as int,
                height as int,
                owned(material),
            ),
            final(colour_buffer)@.len() == width * height,
            final(depth_buffer)@.len() == width * height,
    {
        let ghost before = Frame { colour: colour_buffer@, depth: depth_buffer@ };
        let length: usize = mesh.verts.len();
        let count: usize = length / 3;
        let mut n: usize = 0;
        while n < count
            invariant
                length == mesh.verts@.len(),
                length == 3 * count,
                0 <= n <= count,
                width >= 1,
                height >= 1,
                colour_buffer@.len() == width * height,
                depth_buffer@.len() == width * height,
                (Frame { colour: colour_buffer@, depth: depth_buffer@ }) == self.mesh_frame(
                    before,
                    mesh.verts@,
                    n as nat,
                    *model_matrix,
                    width as int,
                    height as int,
                    owned(material),
                ),
            decreases count - n,
        {
            let ghost earlier = Frame { colour: colour_buffer@, depth: depth_buffer@ };
            self.draw_triangle(
                &mesh.verts[3 * n],
                &mesh.verts[3 * n + 1],
                &mesh.verts[3 * n + 2],
                model_matrix,
                colour_buffer,
                depth_buffer,
                width,
                height,
                material,
            );
            proof {
                let m = (n + 1) as nat;
                assert((m - 1) as nat == n as nat);
                assert(self.mesh_frame(
                    before,
                    mesh.verts@,
                    m,
                    *model_matrix,
                    width as int,
                    height as int,
                    owned(material),
                ) == self.triangle_frame(
                    earlier,
                    mesh.verts@[3 * m - 3],
                    mesh.verts@[3 * m - 2],
                    mesh.verts@[3 * m - 1],
                    *model_matrix,
                    width as int,
                    height as int,
                    owned(material),
                ));
            }
            n = n + 1;
        }
    }

    /// Puts a material under a name.  A material that stood under that name
    /// is replaced.  Every other name keeps what it had, and the name
    /// `"None"` goes on standing for no material.
    pub fn add_material(&mut self, name: String, material: Material)
        ensures
            final(self).projection_matrix == old(self).projection_matrix,
            final(self).view_matrix == old(self).view_matrix,
            forall|other: Seq<char>|
                #[trigger] material_named(final(self).materials@, other, 0) == if other == name@
                    && other != "None"@ {
                    Some(material)
                } else {
                    material_named(old(self).materials@, other, 0)
                },
            old(self).wf() ==> final(self).wf(),
    {
        let ghost before = self.materials@;
        let mut i: usize = 0;
        while i < self.materials.len()
            invariant
                self.materials@ == before,
                before == old(self).materials@,
                self.projection_matrix == old(self).projection_matrix,
                self.view_matrix == old(self).view_matrix,
                0 <= i <= before.len(),
                forall|j: int| 0 <= j < i ==> before[j].0@ != name@,
            decreases before.len() - i,
        {
            if self.materials[i].0 == name {
                self.materials.set(i, (name, material));
                proof {
                    assert forall|other: Seq<char>| #[trigger]
                        material_named(self.materials@, other, 0) == if other == name@ && other
                            != "None"@ {
                            Some(material)
                        } else {
                            material_named(before, other, 0)
                        } by {
                        lemma_lookup_after_replacing(before, i as int, (name, material), other, 0);
                    }
                }
                return ;
            }
            i = i + 1;
        }
        self.materials.push((name, material));
        proof {
            assert forall|other: Seq<char>| #[trigger]
                material_named(self.materials@, other, 0) == if other == name@ && other != "None"@ {
                    Some(material)
                } else {
                    material_named(before, other, 0)
                } by {
                lemma_lookup_after_adding(before, (name, material), other, 0);
            }
        }
    }

    /// Draws every mesh of a model, each with the material that stands
    /// under its name in the renderer.
    pub fn draw_model(
        &self,
        model: &Model,
        model_matrix: &Mat4,
        colour_buffer: &mut Vec<u32>,
        depth_buffer: &mut Vec<u32>,
        width: usize,
        height: usize,
    )
        requires
            self.wf(),
            model.wf(),
            width >= 1,
            height >= 1,
            old(colour_buffer)@.len() == width * height,
            old(depth_buffer)@.len() == width * height,
        ensures
            (Frame { colour: final(colour_buffer)@, depth: final(depth_buffer)@ })
                == self.model_frame(
                (Frame { colour: old(colour_buffer)@, depth: old(depth_buffer)@ }),
                model.meshes@,
                model.meshes@.len(),
                *model_matrix,
                width as int,
                height as int,
            ),
            final(colour_buffer)@.len() == width * height,
            final(depth_buffer)@.len() == width * height,
    {
        let ghost before = Frame { colour: colour_buffer@, depth: depth_buffer@ };
        let mut n: usize = 0;
        while n < model.meshes.len()
            invariant
                model.wf(),
                0 <= n <= model.meshes@.len(),
                width >= 1,
                height >= 1,
                colour_buffer@.len() == width * height,
                depth_buffer@.len() == width * height,
                (Frame { colour: colour_buffer@, depth: depth_buffer@ }) == self.model_frame(
                    before,
                    model.meshes@,
                    n as nat,
                    *model_matrix,
                    width as int,
                    height as int,
                ),
            decreases model.meshes@.len() - n,
        {
            let material: Option<&Material> = self.material(&model.meshes[n].0);
            self.draw_mesh(
                &model.meshes[n].1,
                model_matrix,
                colour_buffer,
                depth_buffer,
                width,
                height,
                material,
            );
            n = n + 1;
        }
    }

    /// Replaces the projection matrix.
    pub fn set_projection_matrix(&mut self, matrix: Mat4)
        ensures
            final(self).projection_matrix == matrix,
            final(self).view_matrix == old(self).view_matrix,
            final(self).materials == old(self).materials,
            old(self).wf() ==> final(self).wf(),
    {
        self.projection_matrix = matrix;
    }

    /// Replaces the view matrix.
    pub fn set_view_matrix(&mut self, matrix: Mat4)
        ensures
            final(self).view_matrix == matrix,
            final(self).projection_matrix == old(self).projection_matrix,
            final(self).materials == old(self).materials,
            old(self).wf() ==> final(self).wf(),
    {
        self.view_matrix = matrix;
    }
}

/// A triangle that lies wholly behind the near plane leaves the frame as it
/// is.
pub proof fn lemma_triangle_behind_draws_nothing(
    renderer: Renderer,
    frame: Frame,
    a: Vertex,
    b: Vertex,
    c: Vertex,
    model_matrix: Mat4,
    width: int,
    height: int,
    material: Option<Material>,
)
    requires
        behind(renderer.transformed(a, model_matrix)),
        behind(renderer.transformed(b, model_matrix)),
        behind(renderer.transformed(c, model_matrix)),
    ensures
        renderer.triangle_frame(frame, a, b, c, model_matrix, width, height, material) == frame,
{
}

/// A triangle that lies wholly in front of the near plane is filled as it
/// left the vertex stage, once every vertex has been divided by its `w`.
pub proof fn lemma_triangle_in_front_is_filled_whole(
    renderer: Renderer,
    frame: Frame,
    a: Vertex,
    b: Vertex,
    c: Vertex,
    model_matrix: Mat4,
    width: int,
    height: int,
    material: Option<Material>,
)
    requires
        !behind(renderer.transformed(a, model_matrix)),
        !behind(renderer.transformed(b, model_matrix)),
        !behind(renderer.transformed(c, model_matrix)),
    ensures
        renderer.triangle_frame(frame, a, b, c, model_matrix, width, height, material)
            == fill_triangle(
            frame,
            divided(renderer.transformed(a, model_matrix)),
            divided(renderer.transformed(b, model_matrix)),
            divided(renderer.transformed(c, model_matrix)),
            width,
            height,
            material,
        ),
{
    let clipped = clip(
        renderer.transformed(a, model_matrix),
        renderer.transformed(b, model_matrix),
        renderer.transformed(c, model_matrix),
    );
    assert(clipped.len() == 3);
    assert(draw_clipped(frame, clipped, 0, width, height, material) == frame);
    assert(draw_clipped(frame, clipped, 1, width, height, material) == fill_triangle(
        draw_clipped(frame, clipped, 0, width, height, material),
        divided(clipped[0]),
        divided(clipped[1]),
        divided(clipped[2]),
        width,
        height,
        material,
    ));
}

} // verus!
