//! The mesh that a reader hands out.

use vstd::prelude::*;
use crate::group::{group_views, Group};
use crate::index::Index;
use crate::material::{material_views, Material};
use crate::model::MeshView;
use crate::number::Decimal;

verus! {

/// A model as flat arrays. A mesh is made by reading a model and does not
/// change afterwards.
#[derive(Debug)]
pub struct Mesh {
    positions: Vec<Decimal>,
    texcoords: Vec<Decimal>,
    normals: Vec<Decimal>,
    face_vertices: Vec<u32>,
    face_materials: Vec<u32>,
    indices: Vec<Index>,
    triangles: Vec<u32>,
    materials: Vec<Material>,
    objects: Vec<Group>,
    groups: Vec<Group>,
}

impl View for Mesh {
    type V = MeshView;

    closed spec fn view(&self) -> MeshView {
        MeshView {
            positions: self.positions@,
            texcoords: self.texcoords@,
            normals: self.normals@,
            face_vertices: self.face_vertices@,
            face_materials: self.face_materials@,
            indices: self.indices@,
            triangles: self.triangles@,
            materials: material_views(self.materials@),
            objects: group_views(self.objects@),
            groups: group_views(self.groups@),
        }
    }
}

impl Mesh {
    /// Makes a mesh of its arrays.
    pub(crate) fn from_parts(
        positions: Vec<Decimal>,
        texcoords: Vec<Decimal>,
        normals: Vec<Decimal>,
        face_vertices: Vec<u32>,
        face_materials: Vec<u32>,
        indices: Vec<Index>,
        triangles: Vec<u32>,
        materials: Vec<Material>,
        objects: Vec<Group>,
        groups: Vec<Group>,
    ) -> (m: Mesh)
        ensures
            m@ == (MeshView {
                positions: positions@,
                texcoords: texcoords@,
                normals: normals@,
                face_vertices: face_vertices@,
                face_materials: face_materials@,
                indices: indices@,
                triangles: triangles@,
                materials: material_views(materials@),
                objects: group_views(objects@),
                groups: group_views(groups@),
            }),
    {
        Mesh {
            positions,
            texcoords,
            normals,
            face_vertices,
            face_materials,
            indices,
            triangles,
            materials,
            objects,
            groups,
        }
    }

    /// The number of positions.
    pub fn position_count(&self) -> (n: usize)
        ensures
            n == self@.position_count(),
    {
        self.positions.len() / 3
    }

    /// The number of texture coordinates.
    pub fn texcoord_count(&self) -> (n: usize)
        ensures
            n == self@.texcoord_count(),
    {
        self.texcoords.len() / 2
    }

    /// The number of normals.
    pub fn normal_count(&self) -> (n: usize)
        ensures
            n == self@.normal_count(),
    {
        self.normals.len() / 3
    }

    /// The positions, three numbers for each.
    pub fn positions(&self) -> (r: &[Decimal])
        ensures
            r@ == self@.positions,
    {
        self.positions.as_slice()
    }

    /// The texture coordinates, two numbers for each.
    pub fn texcoords(&self) -> (r: &[Decimal])
        ensures
            r@ == self@.texcoords,
    {
        self.texcoords.as_slice()
    }

    /// The normals, three numbers for each.
    pub fn normals(&self) -> (r: &[Decimal])
        ensures
            r@ == self@.normals,
    {
        self.normals.as_slice()
    }

    /// For each polygon, the number of its corners.
    pub fn face_vertices(&self) -> (r: &[u32])
        ensures
            r@ == self@.face_vertices,
    {
        self.face_vertices.as_slice()
    }

    /// For each polygon, the number of its material, or `NO_MATERIAL`.
    pub fn face_materials(&self) -> (r: &[u32])
        ensures
            r@ == self@.face_materials,
    {
        self.face_materials.as_slice()
    }

    /// The corners that the polygons use, each one once.
    pub fn indices(&self) -> (r: &[Index])
        ensures
            r@ == self@.indices,
    {
        self.indices.as_slice()
    }

    /// The triangles of all polygons: three places in `indices` for each
    /// triangle.
    pub fn triangles(&self) -> (r: &[u32])
        ensures
            r@ == self@.triangles,
    {
        self.triangles.as_slice()
    }

    /// The materials.
    pub fn materials(&self) -> (r: &[Material])
        ensures
            material_views(r@) == self@.materials,
    {
        self.materials.as_slice()
    }

    /// The runs of polygons under one object name.
    pub fn objects(&self) -> (r: &[Group])
        ensures
            group_views(r@) == self@.objects,
    {
        self.objects.as_slice()
    }

    /// The runs of polygons under one group name.
    pub fn groups(&self) -> (r: &[Group])
        ensures
            group_views(r@) == self@.groups,
    {
        self.groups.as_slice()
    }
}

} // verus!
