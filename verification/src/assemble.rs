//! The assembler: the arrays of a mesh while they grow, line by line.

use std::collections::HashMap;
use vstd::prelude::*;
use crate::error::ObjLoadError;
use crate::group::{group_views, stamp, Group};
use crate::index::{parse_corner, Index};
use crate::material::{lookup_material, material_views, Material, NO_MATERIAL};
use crate::mesh::Mesh;
use crate::model::{
    all_placed, corners_of, fan, interned, lemma_add_face_wf, lemma_add_materials_wf,
    lemma_add_normal_wf, lemma_add_position_wf, lemma_add_texcoord_wf, lemma_index_of,
    lemma_interned, lemma_start_wf, lemma_use_material_wf, offsets_in, MeshView, StateView, LIMIT,
};
use crate::number::Decimal;
use crate::scan::texts;
use crate::text::{decode, lossy_text};

verus! {

/// Whether `places` tells for each corner of `indices`, by its key, where it
/// stands, and holds nothing else.
pub open spec fn agrees(indices: Seq<Index>, places: Map<u128, u32>) -> bool {
    &&& forall|i: int|
        0 <= i < indices.len() ==> {
            &&& places.contains_key((#[trigger] indices[i]).key())
            &&& places[indices[i].key()] == i
        }
    &&& forall|k: u128| #[trigger]
        places.contains_key(k) ==> {
            &&& places[k] < indices.len()
            &&& indices[places[k] as int].key() == k
        }
}

/// A list whose corners all have their place in a map holds none twice.
proof fn lemma_agrees_distinct(indices: Seq<Index>, places: Map<u128, u32>)
    requires
        agrees(indices, places),
    ensures
        indices.no_duplicates(),
{
    assert forall|i: int, j: int|
        0 <= i < indices.len() && 0 <= j < indices.len() && i != j implies indices[i]
        != indices[j] by {
        assert(places[indices[i].key()] == i);
        assert(places[indices[j].key()] == j);
    }
}

/// Finds the place of the corner `c` in `indices`, where it is added at the
/// end unless it stands there already.
fn intern(indices: &mut Vec<Index>, places: &mut HashMap<u128, u32>, c: Index) -> (o: u32)
    requires
        agrees(old(indices)@, old(places)@),
        old(indices).len() < LIMIT,
    ensures
        final(indices)@ == (if old(indices)@.contains(c) {
            old(indices)@
        } else {
            old(indices)@.push(c)
        }),
        agrees(final(indices)@, final(places)@),
        o < final(indices).len(),
        final(indices)@[o as int] == c,
{
    broadcast use vstd::std_specs::hash::group_hash_axioms;

    let key: u128 = c.pack();
    let found: Option<u32> = match places.get(&key) {
        Some(o) => Some(*o),
        None => None,
    };
    match found {
        Some(o) => {
            proof {
                Index::lemma_key_injective(indices@[o as int], c);
            }
            o
        },
        None => {
            proof {
                if indices@.contains(c) {
                    let i = choose|i: int| 0 <= i < indices@.len() && indices@[i] == c;
                    assert(places@.contains_key(indices@[i].key()));
                }
            }
            let o: u32 = indices.len() as u32;
            let ghost before = indices@;
            let ghost map_before = places@;
            indices.push(c);
            places.insert(key, o);
            proof {
                assert forall|i: int| 0 <= i < indices@.len() implies {
                    &&& places@.contains_key((#[trigger] indices@[i]).key())
                    &&& places@[indices@[i].key()] == i
                } by {
                    if i < before.len() {
                        assert(map_before.contains_key(before[i].key()));
                        assert(before[i].key() != key);
                    }
                }
                assert forall|k: u128| #[trigger] places@.contains_key(k) implies {
                    &&& places@[k] < indices@.len()
                    &&& indices@[places@[k] as int].key() == k
                } by {
                    if k != key {
                        assert(map_before.contains_key(k));
                    }
                }
            }
            o
        },
    }
}

/// Finds the places of the corners `cs` in `indices`, adding those that
/// are new.
fn intern_all(
    indices: &mut Vec<Index>,
    places: &mut HashMap<u128, u32>,
    cs: &Vec<Index>,
) -> (offsets: Vec<u32>)
    requires
        agrees(old(indices)@, old(places)@),
        old(indices).len() + cs.len() <= LIMIT,
    ensures
        final(indices)@ == interned(old(indices)@, cs@),
        agrees(final(indices)@, final(places)@),
        offsets@ == offsets_in(final(indices)@, cs@),
{
    let mut offsets: Vec<u32> = Vec::with_capacity(cs.len());
    let mut k: usize = 0;
    let ghost start = indices@;
    proof {
        lemma_agrees_distinct(indices@, places@);
        assert(cs@.take(0) =~= Seq::<Index>::empty());
    }
    while k < cs.len()
        invariant
            k <= cs.len(),
            start.len() + cs.len() <= LIMIT,
            start.no_duplicates(),
            indices@ == interned(start, cs@.take(k as int)),
            agrees(indices@, places@),
            offsets.len() == k,
            forall|j: int|
                0 <= j < k ==> {
                    &&& (#[trigger] offsets[j]) < indices.len()
                    &&& indices@[offsets[j] as int] == cs[j]
                },
        decreases cs.len() - k,
    {
        proof {
            lemma_interned(start, cs@.take(k as int));
            assert(cs@.take(k + 1).drop_last() =~= cs@.take(k as int));
            assert(cs@.take(k + 1).last() == cs[k as int]);
        }
        let o: u32 = intern(indices, places, cs[k]);
        offsets.push(o);
        k += 1;
    }
    proof {
        assert(cs@.take(cs.len() as int) =~= cs@);
        lemma_interned(start, cs@);
        assert forall|j: int| 0 <= j < cs.len() implies offsets@[j] == offsets_in(
            indices@,
            cs@,
        )[j] by {
            assert(offsets[j] < indices.len());
            lemma_index_of(indices@, offsets[j] as int);
        }
        assert(offsets@ =~= offsets_in(indices@, cs@));
    }
    offsets
}

/// Adds the triangles of a polygon with the corners `o` to the stream.
fn push_fan(triangles: &mut Vec<u32>, o: &Vec<u32>)
    requires
        o.len() >= 3,
    ensures
        final(triangles)@ == old(triangles)@ + fan(o@),
{
    let ghost start = triangles@;
    let mut k: usize = 1;
    assert(triangles@ =~= start + fan(o@).take(0));
    while k + 1 < o.len()
        invariant
            1 <= k < o.len(),
            o.len() >= 3,
            triangles@ == start + fan(o@).take(3 * (k - 1)),
        decreases o.len() - k,
    {
        triangles.push(o[0]);
        triangles.push(o[k]);
        triangles.push(o[k + 1]);
        proof {
            let j = 3 * (k - 1);
            assert(j % 3 == 0 && (j + 1) % 3 == 1 && (j + 2) % 3 == 2);
            assert(j / 3 == k - 1 && (j + 1) / 3 == k - 1 && (j + 2) / 3 == k - 1);
            assert(fan(o@)[j] == o[0]);
            assert(fan(o@)[j + 1] == o[k as int]);
            assert(fan(o@)[j + 2] == o[k + 1]);
            assert(triangles@ =~= start + fan(o@).take(3 * k));
        }
        k += 1;
    }
    assert(fan(o@).take(3 * (k - 1)) =~= fan(o@));
}

/// Reads the corner words of a polygon. Returns `None` where a corner names
/// no position.
fn read_corners(words: &[&[u8]], positions: u32, texcoords: u32, normals: u32) -> (r: Option<
    Vec<Index>,
>)
    ensures
        match r {
            Some(cs) => cs@ == corners_of(texts(words@), positions, texcoords, normals)
                && all_placed(cs@),
            None => !all_placed(corners_of(texts(words@), positions, texcoords, normals)),
        },
{
    let ghost all = corners_of(texts(words@), positions, texcoords, normals);
    let mut cs: Vec<Index> = Vec::with_capacity(words.len());
    let mut k: usize = 0;
    while k < words.len()
        invariant
            k <= words.len(),
            all == corners_of(texts(words@), positions, texcoords, normals),
            cs@ == all.take(k as int),
            all_placed(cs@),
        decreases words.len() - k,
    {
        let c: Index = parse_corner(words[k], positions, texcoords, normals);
        assert(c == all[k as int]);
        if c.p == 0 {
            return None;
        }
        cs.push(c);
        k += 1;
        assert(cs@ =~= all.take(k as int));
    }
    assert(cs@ =~= all);
    Some(cs)
}

/// The arrays of a mesh while a model is read, with the object, the group
/// and the material under which the next polygon will be read.
pub struct Assembler {
    positions: Vec<Decimal>,
    texcoords: Vec<Decimal>,
    normals: Vec<Decimal>,
    face_vertices: Vec<u32>,
    face_materials: Vec<u32>,
    indices: Vec<Index>,
    triangles: Vec<u32>,
    materials: Vec<Material>,
    objects: Vec<Group>,
    groups: Vec<Group>,
    places: HashMap<u128, u32>,
    object: String,
    group: String,
    material: u32,
}

impl View for Assembler {
    type V = StateView;

    closed spec fn view(&self) -> StateView {
        StateView {
            mesh: MeshView {
                positions: self.positions@,
                texcoords: self.texcoords@,
                normals: self.normals@,
                face_vertices: self.face_vertices@,
                face_materials: self.face_materials@,
                indices: self.indices@,
                triangles: self.triangles@,
                materials: material_views(self.materials@),
                objects: group_views(self.objects@),
                groups: group_views(self.groups@),
            },
            object: self.object@,
            group: self.group@,
            material: self.material,
        }
    }
}

impl Assembler {
    /// What holds of an assembler between calls: its state is well formed,
    /// and it knows where each corner stands.
    pub closed spec fn inv(&self) -> bool {
        &&& self@.wf()
        &&& agrees(self.indices@, self.places@)
    }

    /// The state of an assembler that is in order is well formed.
    pub proof fn lemma_inv(&self)
        requires
            self.inv(),
        ensures
            self@.wf(),
    {
    }

    /// An assembler before the first line.
    pub fn new() -> (a: Assembler)
        ensures
            a.inv(),
            a@ == StateView::start(),
    {
        Assembler::sized(0)
    }

    /// An assembler before the first line of a model of `bytes` bytes. Its
    /// arrays start with room for what a model of that size is likely to
    /// hold, so that they seldom have to grow.
    pub fn sized(bytes: usize) -> (a: Assembler)
        ensures
            a.inv(),
            a@ == StateView::start(),
    {
        let a = Assembler {
            positions: Vec::with_capacity(bytes / 32),
            texcoords: Vec::with_capacity(bytes / 64),
            normals: Vec::with_capacity(bytes / 32),
            face_vertices: Vec::with_capacity(bytes / 64),
            face_materials: Vec::with_capacity(bytes / 64),
            indices: Vec::with_capacity(bytes / 64),
            triangles: Vec::with_capacity(bytes / 32),
            materials: Vec::new(),
            objects: Vec::new(),
            groups: Vec::new(),
            places: HashMap::with_capacity(bytes / 64),
            object: String::new(),
            group: String::new(),
            material: NO_MATERIAL,
        };
        proof {
            lemma_start_wf();
            assert(a@.mesh.materials =~= Seq::empty());
            assert(a@.mesh.objects =~= Seq::empty());
            assert(a@.mesh.groups =~= Seq::empty());
        }
        a
    }

    /// Adds a position.
    pub fn position(&mut self, x: Decimal, y: Decimal, z: Decimal) -> (r: Result<(), ObjLoadError>)
        requires
            old(self).inv(),
        ensures
            final(self).inv(),
            match old(self)@.add_position(x, y, z) {
                Some(s) => r is Ok && final(self)@ == s,
                None => r == Err::<(), ObjLoadError>(ObjLoadError::ParsingFailed) && final(self)@
                    == old(self)@,
            },
    {
        if self.positions.len() / 3 >= LIMIT {
            return Err(ObjLoadError::ParsingFailed);
        }
        let ghost before = self.positions@;
        self.positions.push(x);
        self.positions.push(y);
        self.positions.push(z);
        proof {
            assert(self.positions@ =~= before + seq![x, y, z]);
            lemma_add_position_wf(old(self)@, x, y, z);
        }
        Ok(())
    }

    /// Adds a texture coordinate.
    pub fn texcoord(&mut self, u: Decimal, v: Decimal) -> (r: Result<(), ObjLoadError>)
        requires
            old(self).inv(),
        ensures
            final(self).inv(),
            match old(self)@.add_texcoord(u, v) {
                Some(s) => r is Ok && final(self)@ == s,
                None => r == Err::<(), ObjLoadError>(ObjLoadError::ParsingFailed) && final(self)@
                    == old(self)@,
            },
    {
        if self.texcoords.len() / 2 >= LIMIT {
            return Err(ObjLoadError::ParsingFailed);
        }
        let ghost before = self.texcoords@;
        self.texcoords.push(u);
        self.texcoords.push(v);
        proof {
            assert(self.texcoords@ =~= before + seq![u, v]);
            lemma_add_texcoord_wf(old(self)@, u, v);
        }
        Ok(())
    }

    /// Adds a normal.
    pub fn normal(&mut self, x: Decimal, y: Decimal, z: Decimal) -> (r: Result<(), ObjLoadError>)
        requires
            old(self).inv(),
        ensures
            final(self).inv(),
            match old(self)@.add_normal(x, y, z) {
                Some(s) => r is Ok && final(self)@ == s,
                None => r == Err::<(), ObjLoadError>(ObjLoadError::ParsingFailed) && final(self)@
                    == old(self)@,
            },
    {
        if self.normals.len() / 3 >= LIMIT {
            return Err(ObjLoadError::ParsingFailed);
        }
        let ghost before = self.normals@;
        self.normals.push(x);
        self.normals.push(y);
        self.normals.push(z);
        proof {
            assert(self.normals@ =~= before + seq![x, y, z]);
            lemma_add_normal_wf(old(self)@, x, y, z);
        }
        Ok(())
    }

    /// Adds the polygon whose corners the words `words` write.
    pub fn face(&mut self, words: &[&[u8]]) -> (r: Result<(), ObjLoadError>)
        requires
            old(self).inv(),
        ensures
            final(self).inv(),
            match old(self)@.add_face(texts(words@)) {
                Some(s) => r is Ok && final(self)@ == s,
                None => r == Err::<(), ObjLoadError>(ObjLoadError::ParsingFailed) && final(self)@
                    == old(self)@,
            },
    {
        let n: usize = words.len();
        let positions: u32 = (self.positions.len() / 3) as u32;
        let texcoords: u32 = (self.texcoords.len() / 2) as u32;
        let normals: u32 = (self.normals.len() / 3) as u32;
        if n < 3 {
            return Ok(());
        }
        let cs: Vec<Index> = match read_corners(words, positions, texcoords, normals) {
            Some(cs) => cs,
            None => {
                return Ok(());
            },
        };
        if self.face_vertices.len() >= LIMIT || n > LIMIT - self.indices.len() || 3 * ((n
            - 2) as u64) > (LIMIT - self.triangles.len()) as u64 {
            return Err(ObjLoadError::ParsingFailed);
        }
        let faces: u32 = self.face_vertices.len() as u32;
        let triangles: u32 = self.triangles.len() as u32;
        let offsets: Vec<u32> = intern_all(&mut self.indices, &mut self.places, &cs);
        push_fan(&mut self.triangles, &offsets);
        self.face_vertices.push(n as u32);
        self.face_materials.push(self.material);
        stamp(&mut self.objects, &self.object, faces, triangles);
        stamp(&mut self.groups, &self.group, faces, triangles);
        proof {
            lemma_add_face_wf(old(self)@, texts(words@));
        }
        Ok(())
    }

    /// Sets the name of the object under which the next polygons are read.
    pub fn set_object(&mut self, name: &[u8])
        requires
            old(self).inv(),
        ensures
            final(self).inv(),
            final(self)@ == old(self)@.set_object(lossy_text(name@)),
    {
        self.object = decode(name);
    }

    /// Sets the name of the group under which the next polygons are read.
    pub fn set_group(&mut self, name: &[u8])
        requires
            old(self).inv(),
        ensures
            final(self).inv(),
            final(self)@ == old(self)@.set_group(lossy_text(name@)),
    {
        self.group = decode(name);
    }

    /// Chooses by name the material under which the next polygons are read.
    pub fn use_material(&mut self, name: &[u8])
        requires
            old(self).inv(),
        ensures
            final(self).inv(),
            final(self)@ == old(self)@.use_material(lossy_text(name@)),
    {
        let text: String = decode(name);
        self.material = lookup_material(&self.materials, &text);
        proof {
            lemma_use_material_wf(old(self)@, text@);
        }
    }

    /// Adds the materials of a library.
    pub fn add_materials(&mut self, library: Vec<Material>) -> (r: Result<(), ObjLoadError>)
        requires
            old(self).inv(),
        ensures
            final(self).inv(),
            match old(self)@.add_materials(material_views(library@)) {
                Some(s) => r is Ok && final(self)@ == s,
                None => r == Err::<(), ObjLoadError>(ObjLoadError::ParsingFailed) && final(self)@
                    == old(self)@,
            },
    {
        if library.len() > LIMIT - self.materials.len() {
            return Err(ObjLoadError::ParsingFailed);
        }
        let mut library = library;
        let ghost before = self.materials@;
        let ghost added = library@;
        self.materials.append(&mut library);
        proof {
            assert(material_views(self.materials@) =~= material_views(before) + material_views(
                added,
            ));
            lemma_add_materials_wf(old(self)@, material_views(added));
        }
        Ok(())
    }

    /// Hands out the mesh.
    pub fn finish(self) -> (m: Mesh)
        requires
            self.inv(),
        ensures
            m@ == self@.mesh,
            m@.wf(),
    {
        Mesh::from_parts(
            self.positions,
            self.texcoords,
            self.normals,
            self.face_vertices,
            self.face_materials,
            self.indices,
            self.triangles,
            self.materials,
            self.objects,
            self.groups,
        )
    }
}

} // verus!
