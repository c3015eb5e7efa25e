//! Meshes and models.
use crate::math::{Mat4, Vec2, Vec3, Vec4};
use crate::structs::Vertex;
use vstd::prelude::*;

verus! {

/// A list of triangles: every three vertices in a row form one.
#[derive(Clone, Debug, PartialEq, Eq)]
pub struct Mesh {
    pub verts: Vec<Vertex>,
}

/// The meshes of a model, each under the name of its material.  The name
/// `"None"` stands for no material.  In a model that is well formed no name
/// occurs twice.
#[derive(Clone, Debug, PartialEq, Eq)]
pub struct Model {
    pub meshes: Vec<(String, Mesh)>,
}

/// The place of the first mesh under `name` at or after `from`, if there is
/// one.
pub open spec fn mesh_index(meshes: Seq<(String, Mesh)>, name: Seq<char>, from: int) -> Option<int>
    decreases meshes.len() - from,
{
    if from < 0 || from >= meshes.len() {
        None
    } else if meshes[from].0@ == name {
        Some(from)
    } else {
        mesh_index(meshes, name, from + 1)
    }
}

/// A place that `mesh_index` gives lies in the list and holds the name.
pub proof fn lemma_mesh_index(meshes: Seq<(String, Mesh)>, name: Seq<char>, from: int)
    requires
        0 <= from,
    ensures
        mesh_index(meshes, name, from) matches Some(i) ==> from <= i < meshes.len() && meshes[i].0@
            == name,
    decreases meshes.len() - from,
{
    if from < meshes.len() && meshes[from].0@ != name {
        lemma_mesh_index(meshes, name, from + 1);
    }
}

impl Mesh {
    /// The vertices fall into whole triangles.
    pub open spec fn wf(self) -> bool {
        self.verts@.len() % 3 == 0
    }

    /// The number of triangles.
    pub open spec fn triangles(self) -> nat {
        self.verts@.len() / 3
    }
}

/// No name occurs twice in a list of meshes.
pub open spec fn names_distinct(meshes: Seq<(String, Mesh)>) -> bool {
    forall|i: int, j: int|
        0 <= i < j < meshes.len() ==> (#[trigger] meshes[i]).0@ != (#[trigger] meshes[j]).0@
}

/// Where no mesh is found under a name, no mesh has it.
pub proof fn lemma_name_not_found(meshes: Seq<(String, Mesh)>, name: Seq<char>, from: int)
    requires
        0 <= from,
        mesh_index(meshes, name, from) is None,
    ensures
        forall|j: int| from <= j < meshes.len() ==> (#[trigger] meshes[j]).0@ != name,
    decreases meshes.len() - from,
{
    if from < meshes.len() {
        lemma_name_not_found(meshes, name, from + 1);
    }
}

impl Model {
    /// Every mesh falls into whole triangles, and no name occurs twice.
    pub open spec fn wf(self) -> bool {
        &&& forall|i: int| 0 <= i < self.meshes@.len() ==> (#[trigger] self.meshes@[i]).1.wf()
        &&& names_distinct(self.meshes@)
    }

    /// A model without meshes.
    pub fn new() -> (m: Model)
        ensures
            m.meshes@.len() == 0,
            m.wf(),
    {
        Model { meshes: Vec::new() }
    }
}

impl Model {
    /// Finds the mesh under a name.
    pub fn find(&self, material: &String) -> (at: Option<usize>)
        ensures
            at matches Some(i) ==> mesh_index(self.meshes@, material@, 0) == Some(i as int),
            at is None ==> mesh_index(self.meshes@, material@, 0) is None,
    {
        let mut i: usize = 0;
        while i < self.meshes.len()
            invariant
                0 <= i <= self.meshes@.len(),
                mesh_index(self.meshes@, material@, 0) == mesh_index(self.meshes@, material@, i as int),
            decreases self.meshes@.len() - i,
        {
            if self.meshes[i].0 == *material {
                return Some(i);
            }
            i = i + 1;
        }
        None
    }

    /// Adds the triangles of a mesh under the name of its material.  Where
    /// the model holds a mesh under that name, the triangles are appended to
    /// it; else the mesh is added to the model.
    pub fn add_mesh(&mut self, material: String, mesh: Mesh)
        ensures
            match mesh_index(old(self).meshes@, material@, 0) {
                Some(i) => {
                    &&& final(self).meshes@.len() == old(self).meshes@.len()
                    &&& final(self).meshes@[i].0@ == material@
                    &&& final(self).meshes@[i].1.verts@ == old(self).meshes@[i].1.verts@
                        + mesh.verts@
                    &&& forall|j: int|
                        0 <= j < old(self).meshes@.len() && j != i ==> final(self).meshes@[j] == old(
                            self,
                        ).meshes@[j]
                },
                None => final(self).meshes@ == old(self).meshes@.push((material, mesh)),
            },
            old(self).wf() && mesh.wf() ==> final(self).wf(),
    {
        proof {
            lemma_mesh_index(self.meshes@, material@, 0);
            if mesh_index(self.meshes@, material@, 0) is None {
                lemma_name_not_found(self.meshes@, material@, 0);
            }
        }
        match self.find(&material) {
            Some(i) => {
                let mut entry: (String, Mesh) = self.meshes.remove(i);
                let mut verts: Vec<Vertex> = mesh.verts;
                let mut joined: Vec<Vertex> = entry.1.verts;
                joined.append(&mut verts);
                self.meshes.insert(i, (entry.0, Mesh { verts: joined }));
            },
            None => {
                self.meshes.push((material, mesh));
            },
        }
    }
}

/// A channel of a colour, held to at most one.
pub open spec fn at_most_one(channel: int) -> int {
    if channel > 65536 {
        65536
    } else {
        channel
    }
}

fn at_most_one_exec(channel: i32) -> (r: i32)
    ensures
        r == at_most_one(channel as int),
{
    if channel > 65536 {
        65536
    } else {
        channel
    }
}

/// The vertex that the attributes give for one index.  An attribute that
/// the mesh does not have is zero; a colour that it does not have is white.
/// Position, normal and tangent are carried through the matrix as
/// directions.  Every channel of a colour is held to at most one.
pub open spec fn assembled(
    positions: Seq<Vec3>,
    normals: Seq<Vec3>,
    tangents: Seq<Vec4>,
    colours: Seq<Vec4>,
    texcoords: Seq<Vec2>,
    local_matrix: Mat4,
    index: int,
) -> Vertex {
    Vertex {
        position: if positions.len() > 0 {
            local_matrix.transform_vector3_spec(positions[index])
        } else {
            Vec3 { x: 0, y: 0, z: 0 }
        },
        normal: if normals.len() > 0 {
            local_matrix.transform_vector3_spec(normals[index])
        } else {
            Vec3 { x: 0, y: 0, z: 0 }
        },
        tangent: if tangents.len() > 0 {
            local_matrix.transform_vector3_spec(
                Vec3 { x: tangents[index].x, y: tangents[index].y, z: tangents[index].z },
            )
        } else {
            Vec3 { x: 0, y: 0, z: 0 }
        },
        colour: if colours.len() > 0 {
            Vec3 {
                x: at_most_one(colours[index].x as int) as i32,
                y: at_most_one(colours[index].y as int) as i32,
                z: at_most_one(colours[index].z as int) as i32,
            }
        } else {
            Vec3 { x: 65536, y: 65536, z: 65536 }
        },
        uv: if texcoords.len() > 0 {
            texcoords[index]
        } else {
            Vec2 { x: 0, y: 0 }
        },
    }
}

/// Every index lies within an attribute, unless the mesh does not have the
/// attribute.
pub open spec fn indexed<T>(attribute: Seq<T>, indices: Seq<u16>) -> bool {
    attribute.len() > 0 ==> forall|i: int| 0 <= i < indices.len() ==> (#[trigger] indices[i])
        < attribute.len()
}

impl Mesh {
    /// Makes the list of vertices that a list of indices selects from the
    /// attributes of a mesh.
    pub fn from_attributes(
        positions: &Vec<Vec3>,
        normals: &Vec<Vec3>,
        tangents: &Vec<Vec4>,
        colours: &Vec<Vec4>,
        texcoords: &Vec<Vec2>,
        indices: &Vec<u16>,
        local_matrix: &Mat4,
    ) -> (mesh: Mesh)
        requires
            indexed(positions@, indices@),
            indexed(normals@, indices@),
            indexed(tangents@, indices@),
            indexed(colours@, indices@),
            indexed(texcoords@, indices@),
        ensures
            mesh.verts@.len() == indices@.len(),
            forall|i: int|
                0 <= i < indices@.len() ==> #[trigger] mesh.verts@[i] == assembled(
                    positions@,
                    normals@,
                    tangents@,
                    colours@,
                    texcoords@,
                    *local_matrix,
                    indices@[i] as int,
                ),
    {
        let mut verts: Vec<Vertex> = Vec::new();
        let mut i: usize = 0;
        while i < indices.len()
            invariant
                indexed(positions@, indices@),
                indexed(normals@, indices@),
                indexed(tangents@, indices@),
                indexed(colours@, indices@),
                indexed(texcoords@, indices@),
                0 <= i <= indices@.len(),
                verts@.len() == i,
                forall|j: int|
                    0 <= j < i ==> #[trigger] verts@[j] == assembled(
                        positions@,
                        normals@,
                        tangents@,
                        colours@,
                        texcoords@,
                        *local_matrix,
                        indices@[j] as int,
                    ),
            decreases indices@.len() - i,
        {
            let index: usize = indices[i] as usize;
            let zero = Vec3 { x: 0, y: 0, z: 0 };
            let mut vertex = Vertex {
                position: zero,
                normal: zero,
                tangent: zero,
                colour: Vec3 { x: 65536, y: 65536, z: 65536 },
                uv: Vec2 { x: 0, y: 0 },
            };
            if positions.len() > 0 {
                vertex.position = local_matrix.transform_vector3(positions[index]);
            }
            if normals.len() > 0 {
                vertex.normal = local_matrix.transform_vector3(normals[index]);
            }
            if tangents.len() > 0 {
                let t: Vec4 = tangents[index];
                vertex.tangent = local_matrix.transform_vector3(Vec3 { x: t.x, y: t.y, z: t.z });
            }
            if texcoords.len() > 0 {
                vertex.uv = texcoords[index];
            }
            if colours.len() > 0 {
                let c: Vec4 = colours[index];
                vertex.colour = Vec3 {
                    x: at_most_one_exec(c.x),
                    y: at_most_one_exec(c.y),
                    z: at_most_one_exec(c.z),
                };
            }
            verts.push(vertex);
            i = i + 1;
        }
        Mesh { verts }
    }
}

} // verus!
