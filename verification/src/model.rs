//! The mesh as mathematics: what the arrays hold, how each line of a model
//! changes them, and what holds of them at every moment.

use vstd::prelude::*;
use crate::group::{stamped, GroupView};
use crate::index::{corner_of, lemma_resolve_bound, rest, head, Index};
use crate::material::{find_material, material_named, MaterialView, NO_MATERIAL};
use crate::number::Decimal;

verus! {

/// No list of a mesh grows beyond this many items.
pub const LIMIT: usize = 0xFFFF_FFFF;

/// What a mesh holds.
pub struct MeshView {
    /// Three numbers for each position.
    pub positions: Seq<Decimal>,
    /// Two numbers for each texture coordinate.
    pub texcoords: Seq<Decimal>,
    /// Three numbers for each normal.
    pub normals: Seq<Decimal>,
    /// For each polygon, the number of its corners.
    pub face_vertices: Seq<u32>,
    /// For each polygon, the number of its material, or `NO_MATERIAL`.
    pub face_materials: Seq<u32>,
    /// The corners that the polygons use, each one once, in the order in
    /// which they were first used.
    pub indices: Seq<Index>,
    /// The triangles of all polygons, three places in `indices` for each.
    pub triangles: Seq<u32>,
    /// The materials of all libraries that were read.
    pub materials: Seq<MaterialView>,
    /// The runs of polygons under one object name.
    pub objects: Seq<GroupView>,
    /// The runs of polygons under one group name.
    pub groups: Seq<GroupView>,
}

/// The number of entries that the polygons with these corner counts have in
/// the triangle stream: a polygon with `n` corners makes `n - 2` triangles.
pub open spec fn triangle_total(face_vertices: Seq<u32>) -> int
    decreases face_vertices.len(),
{
    if face_vertices.len() == 0 {
        0
    } else {
        triangle_total(face_vertices.drop_last()) + 3 * (face_vertices.last() - 2)
    }
}

/// Whether `runs` part the polygons into consecutive runs: the first run
/// starts at polygon 0, each run starts where the one before it ends, the
/// last one ends with the last polygon, no run is empty, neighbours differ
/// in their names, and each run knows where its triangles start.
pub open spec fn runs_cover(runs: Seq<GroupView>, face_vertices: Seq<u32>) -> bool {
    &&& runs.len() == 0 <==> face_vertices.len() == 0
    &&& forall|r: int|
        0 <= r < runs.len() ==> {
            &&& (#[trigger] runs[r]).face_count >= 1
            &&& runs[r].face_offset + runs[r].face_count <= face_vertices.len()
            &&& runs[r].index_offset == triangle_total(
                face_vertices.take(runs[r].face_offset as int),
            )
        }
    &&& runs.len() > 0 ==> runs[0].face_offset == 0
    &&& forall|r: int|
        0 < r < runs.len() ==> {
            &&& (#[trigger] runs[r]).face_offset == runs[r - 1].face_offset + runs[r
                - 1].face_count
            &&& runs[r].name != runs[r - 1].name
        }
    &&& runs.len() > 0 ==> runs.last().face_offset + runs.last().face_count
        == face_vertices.len()
}

/// `s` with those corners of `cs` added at its end that it lacks, each one
/// once, in the order in which `cs` has them first.
pub open spec fn interned(s: Seq<Index>, cs: Seq<Index>) -> Seq<Index>
    decreases cs.len(),
{
    if cs.len() == 0 {
        s
    } else {
        let t = interned(s, cs.drop_last());
        if t.contains(cs.last()) {
            t
        } else {
            t.push(cs.last())
        }
    }
}

/// The places in `s` of the corners `cs`.
pub open spec fn offsets_in(s: Seq<Index>, cs: Seq<Index>) -> Seq<u32> {
    Seq::new(cs.len(), |k: int| s.index_of(cs[k]) as u32)
}

/// The triangles of a polygon with the corners `o`, as a fan around its
/// first corner: corners 0, 1, 2, then 0, 2, 3, and so on up to the last
/// corner.
pub open spec fn fan(o: Seq<u32>) -> Seq<u32> {
    Seq::new(
        (3 * (o.len() - 2)) as nat,
        |j: int|
            if j % 3 == 0 {
                o[0]
            } else {
                o[j / 3 + j % 3]
            },
    )
}

/// The corners that the words of a polygon write, where so many positions,
/// texture coordinates and normals have been read.
pub open spec fn corners_of(
    words: Seq<Seq<u8>>,
    positions: u32,
    texcoords: u32,
    normals: u32,
) -> Seq<Index> {
    Seq::new(words.len(), |k: int| corner_of(words[k], positions, texcoords, normals))
}

/// Whether the triangle stream refers to place `i` of the corners.
pub open spec fn used(triangles: Seq<u32>, i: int) -> bool {
    exists|j: int| 0 <= j < triangles.len() && #[trigger] triangles[j] == i
}

/// Whether every corner names a position.
pub open spec fn all_placed(cs: Seq<Index>) -> bool {
    forall|k: int| 0 <= k < cs.len() ==> (#[trigger] cs[k]).p != 0
}

impl MeshView {
    /// A mesh that holds nothing.
    pub open spec fn empty() -> MeshView {
        MeshView {
            positions: Seq::empty(),
            texcoords: Seq::empty(),
            normals: Seq::empty(),
            face_vertices: Seq::empty(),
            face_materials: Seq::empty(),
            indices: Seq::empty(),
            triangles: Seq::empty(),
            materials: Seq::empty(),
            objects: Seq::empty(),
            groups: Seq::empty(),
        }
    }

    /// The number of positions.
    pub open spec fn position_count(self) -> int {
        self.positions.len() as int / 3
    }

    /// The number of texture coordinates.
    pub open spec fn texcoord_count(self) -> int {
        self.texcoords.len() as int / 2
    }

    /// The number of normals.
    pub open spec fn normal_count(self) -> int {
        self.normals.len() as int / 3
    }

    /// Whether the corner `c` refers to items that the mesh holds: a
    /// position in any case, and a texture coordinate and a normal or none.
    pub open spec fn holds_corner(self, c: Index) -> bool {
        &&& 1 <= c.p <= self.position_count()
        &&& c.t <= self.texcoord_count()
        &&& c.n <= self.normal_count()
    }

    /// What holds of every mesh that the reader makes.
    pub open spec fn wf(self) -> bool {
        &&& self.positions.len() % 3 == 0
        &&& self.texcoords.len() % 2 == 0
        &&& self.normals.len() % 3 == 0
        &&& self.position_count() <= LIMIT
        &&& self.texcoord_count() <= LIMIT
        &&& self.normal_count() <= LIMIT
        &&& self.face_vertices.len() <= LIMIT
        &&& self.face_materials.len() == self.face_vertices.len()
        &&& self.materials.len() <= LIMIT
        &&& self.indices.len() <= self.triangles.len() <= LIMIT
        &&& self.triangles.len() == triangle_total(self.face_vertices)
        &&& self.indices.no_duplicates()
        &&& forall|f: int|
            0 <= f < self.face_vertices.len() ==> #[trigger] self.face_vertices[f] >= 3
        &&& forall|f: int|
            0 <= f < self.face_materials.len() ==> {
                ||| #[trigger] self.face_materials[f] == NO_MATERIAL
                ||| self.face_materials[f] < self.materials.len()
            }
        &&& forall|i: int|
            0 <= i < self.indices.len() ==> self.holds_corner(#[trigger] self.indices[i])
        &&& forall|j: int|
            0 <= j < self.triangles.len() ==> #[trigger] self.triangles[j] < self.indices.len()
        &&& forall|i: int| 0 <= i < self.indices.len() ==> #[trigger] used(self.triangles, i)
        &&& runs_cover(self.objects, self.face_vertices)
        &&& runs_cover(self.groups, self.face_vertices)
    }
}

/// The state of a reader in the middle of a model: the mesh so far, and the
/// object, the group and the material under which the next polygon is read.
pub struct StateView {
    pub mesh: MeshView,
    pub object: Seq<char>,
    pub group: Seq<char>,
    pub material: u32,
}

impl StateView {
    /// The state before the first line: an empty mesh, empty names, no
    /// material.
    pub open spec fn start() -> StateView {
        StateView {
            mesh: MeshView::empty(),
            object: Seq::empty(),
            group: Seq::empty(),
            material: NO_MATERIAL,
        }
    }

    /// What holds of every state that the reader goes through.
    pub open spec fn wf(self) -> bool {
        &&& self.mesh.wf()
        &&& self.material == NO_MATERIAL || self.material < self.mesh.materials.len()
    }

    /// The state after a position was read; `None` where the mesh is full.
    pub open spec fn add_position(self, x: Decimal, y: Decimal, z: Decimal) -> Option<StateView> {
        if self.mesh.position_count() >= LIMIT {
            None
        } else {
            Some(
                StateView {
                    mesh: MeshView { positions: self.mesh.positions + seq![x, y, z], ..self.mesh },
                    ..self
                },
            )
        }
    }

    /// The state after a texture coordinate was read; `None` where the mesh
    /// is full.
    pub open spec fn add_texcoord(self, u: Decimal, v: Decimal) -> Option<StateView> {
        if self.mesh.texcoord_count() >= LIMIT {
            None
        } else {
            Some(
                StateView {
                    mesh: MeshView { texcoords: self.mesh.texcoords + seq![u, v], ..self.mesh },
                    ..self
                },
            )
        }
    }

    /// The state after a normal was read; `None` where the mesh is full.
    pub open spec fn add_normal(self, x: Decimal, y: Decimal, z: Decimal) -> Option<StateView> {
        if self.mesh.normal_count() >= LIMIT {
            None
        } else {
            Some(
                StateView {
                    mesh: MeshView { normals: self.mesh.normals + seq![x, y, z], ..self.mesh },
                    ..self
                },
            )
        }
    }

    /// The corners that the words of a polygon write, read against what the
    /// mesh holds at this moment.
    pub open spec fn corners(self, words: Seq<Seq<u8>>) -> Seq<Index> {
        corners_of(
            words,
            self.mesh.position_count() as u32,
            self.mesh.texcoord_count() as u32,
            self.mesh.normal_count() as u32,
        )
    }

    /// Whether the mesh has room for one more polygon with `n` corners.
    pub open spec fn has_room(self, n: int) -> bool {
        &&& self.mesh.face_vertices.len() < LIMIT
        &&& self.mesh.indices.len() + n <= LIMIT
        &&& self.mesh.triangles.len() + 3 * (n - 2) <= LIMIT
    }

    /// The state after a polygon with the corner words `words` was read. A
    /// polygon with fewer than three corners, or with a corner that names no
    /// position, is passed over and changes nothing. Otherwise the polygon
    /// is recorded with its corner count and the current material, its new
    /// corners join `indices`, its triangles join the stream, and it is
    /// counted in the runs of the current object and group. `None` where
    /// the mesh has no room for it.
    pub open spec fn add_face(self, words: Seq<Seq<u8>>) -> Option<StateView> {
        let cs = self.corners(words);
        let m = self.mesh;
        if cs.len() < 3 || !all_placed(cs) {
            Some(self)
        } else if !self.has_room(cs.len() as int) {
            None
        } else {
            let indices = interned(m.indices, cs);
            let faces = m.face_vertices.len() as u32;
            let triangles = m.triangles.len() as u32;
            Some(
                StateView {
                    mesh: MeshView {
                        face_vertices: m.face_vertices.push(cs.len() as u32),
                        face_materials: m.face_materials.push(self.material),
                        indices,
                        triangles: m.triangles + fan(offsets_in(indices, cs)),
                        objects: stamped(m.objects, self.object, faces, triangles),
                        groups: stamped(m.groups, self.group, faces, triangles),
                        ..m
                    },
                    ..self
                },
            )
        }
    }

    /// The state after the object name changed.
    pub open spec fn set_object(self, name: Seq<char>) -> StateView {
        StateView { object: name, ..self }
    }

    /// The state after the group name changed.
    pub open spec fn set_group(self, name: Seq<char>) -> StateView {
        StateView { group: name, ..self }
    }

    /// The state after a material was chosen by name: the first material of
    /// that name among those read so far, or none where no such material
    /// has been read.
    pub open spec fn use_material(self, name: Seq<char>) -> StateView {
        StateView { material: material_named(self.mesh.materials, name), ..self }
    }

    /// The state after the materials of a library were read; `None` where
    /// the mesh has no room for them.
    pub open spec fn add_materials(self, ms: Seq<MaterialView>) -> Option<StateView> {
        if self.mesh.materials.len() + ms.len() > LIMIT {
            None
        } else {
            Some(
                StateView {
                    mesh: MeshView { materials: self.mesh.materials + ms, ..self.mesh },
                    ..self
                },
            )
        }
    }
}

/// What `interned` keeps and adds: `s` stays in front, nothing occurs
/// twice, every corner of `cs` is there, and what was added comes from `cs`.
pub proof fn lemma_interned(s: Seq<Index>, cs: Seq<Index>)
    requires
        s.no_duplicates(),
    ensures
        interned(s, cs).no_duplicates(),
        s.len() <= interned(s, cs).len() <= s.len() + cs.len(),
        forall|i: int| 0 <= i < s.len() ==> interned(s, cs)[i] == s[i],
        forall|k: int| 0 <= k < cs.len() ==> interned(s, cs).contains(#[trigger] cs[k]),
        forall|i: int|
            s.len() <= i < interned(s, cs).len() ==> cs.contains(#[trigger] interned(s, cs)[i]),
    decreases cs.len(),
{
    if cs.len() > 0 {
        let front = cs.drop_last();
        let t = interned(s, front);
        lemma_interned(s, front);
        let r = interned(s, cs);
        assert forall|k: int| 0 <= k < cs.len() implies r.contains(#[trigger] cs[k]) by {
            if k < front.len() {
                assert(front[k] == cs[k]);
                let i = choose|i: int| 0 <= i < t.len() && t[i] == cs[k];
                assert(r[i] == cs[k]);
            } else {
                if t.contains(cs.last()) {
                } else {
                    assert(r[t.len() as int] == cs[k]);
                }
            }
        }
        assert forall|i: int| s.len() <= i < r.len() implies cs.contains(#[trigger] r[i]) by {
            if i < t.len() {
                let k = choose|k: int| 0 <= k < front.len() && front[k] == t[i];
                assert(cs[k] == r[i]);
            } else {
                assert(cs[cs.len() - 1] == r[i]);
            }
        }
    }
}

/// In a list without repetition, the place of an item is the place where it
/// stands.
pub proof fn lemma_index_of(s: Seq<Index>, i: int)
    requires
        s.no_duplicates(),
        0 <= i < s.len(),
    ensures
        s.index_of(s[i]) == i,
{
    let j = s.index_of(s[i]);
    assert(0 <= j < s.len() && s[j] == s[i]);
}

/// The triangle total grows with each polygon by its own triangles.
pub proof fn lemma_triangle_total_push(face_vertices: Seq<u32>, n: u32)
    ensures
        triangle_total(face_vertices.push(n)) == triangle_total(face_vertices) + 3 * (n - 2),
{
    assert(face_vertices.push(n).drop_last() =~= face_vertices);
}

/// Runs that part the polygons still do so after one more polygon was
/// counted in them.
pub proof fn lemma_stamped_covers(
    runs: Seq<GroupView>,
    face_vertices: Seq<u32>,
    name: Seq<char>,
    n: u32,
)
    requires
        runs_cover(runs, face_vertices),
        face_vertices.len() < LIMIT,
        0 <= triangle_total(face_vertices) <= LIMIT,
    ensures
        runs_cover(
            stamped(
                runs,
                name,
                face_vertices.len() as u32,
                triangle_total(face_vertices) as u32,
            ),
            face_vertices.push(n),
        ),
{
    let after = stamped(
        runs,
        name,
        face_vertices.len() as u32,
        triangle_total(face_vertices) as u32,
    );
    let more = face_vertices.push(n);
    assert forall|r: int| 0 <= r < after.len() implies {
        &&& (#[trigger] after[r]).face_count >= 1
        &&& after[r].face_offset + after[r].face_count <= more.len()
        &&& after[r].index_offset == triangle_total(more.take(after[r].face_offset as int))
    } by {
        if r < runs.len() {
            assert(runs[r].face_count >= 1);
            assert(more.take(runs[r].face_offset as int) =~= face_vertices.take(
                runs[r].face_offset as int,
            ));
        } else {
            assert(more.take(face_vertices.len() as int) =~= face_vertices);
        }
    }
    assert forall|r: int| 0 < r < after.len() implies {
        &&& (#[trigger] after[r]).face_offset == after[r - 1].face_offset + after[r
            - 1].face_count
        &&& after[r].name != after[r - 1].name
    } by {
        if r < runs.len() {
            assert(runs[r].face_offset == runs[r - 1].face_offset + runs[r - 1].face_count);
        } else {
            assert(runs.last() == runs[runs.len() - 1]);
        }
    }
    if runs.len() > 0 {
        assert(runs[0].face_count >= 1);
        assert(runs.last() == runs[runs.len() - 1]);
    }
}

/// The start state is well formed.
pub proof fn lemma_start_wf()
    ensures
        StateView::start().wf(),
{
    let m = MeshView::empty();
    assert(m.positions.len() == 0);
    assert(m.indices.len() == 0);
}

/// A position keeps the state well formed.
pub proof fn lemma_add_position_wf(st: StateView, x: Decimal, y: Decimal, z: Decimal)
    requires
        st.wf(),
    ensures
        st.add_position(x, y, z) matches Some(s) ==> s.wf(),
{
    if let Some(s) = st.add_position(x, y, z) {
        assert(s.mesh.positions.len() == st.mesh.positions.len() + 3);
        assert forall|i: int| 0 <= i < s.mesh.indices.len() implies s.mesh.holds_corner(
            #[trigger] s.mesh.indices[i],
        ) by {
            assert(st.mesh.holds_corner(st.mesh.indices[i]));
        }
    }
}

/// A texture coordinate keeps the state well formed.
pub proof fn lemma_add_texcoord_wf(st: StateView, u: Decimal, v: Decimal)
    requires
        st.wf(),
    ensures
        st.add_texcoord(u, v) matches Some(s) ==> s.wf(),
{
    if let Some(s) = st.add_texcoord(u, v) {
        assert(s.mesh.texcoords.len() == st.mesh.texcoords.len() + 2);
        assert forall|i: int| 0 <= i < s.mesh.indices.len() implies s.mesh.holds_corner(
            #[trigger] s.mesh.indices[i],
        ) by {
            assert(st.mesh.holds_corner(st.mesh.indices[i]));
        }
    }
}

/// A normal keeps the state well formed.
pub proof fn lemma_add_normal_wf(st: StateView, x: Decimal, y: Decimal, z: Decimal)
    requires
        st.wf(),
    ensures
        st.add_normal(x, y, z) matches Some(s) ==> s.wf(),
{
    if let Some(s) = st.add_normal(x, y, z) {
        assert(s.mesh.normals.len() == st.mesh.normals.len() + 3);
        assert forall|i: int| 0 <= i < s.mesh.indices.len() implies s.mesh.holds_corner(
            #[trigger] s.mesh.indices[i],
        ) by {
            assert(st.mesh.holds_corner(st.mesh.indices[i]));
        }
    }
}

/// The corners that a well-formed state reads refer to items that its
/// mesh holds, but for a position that may be missing.
pub proof fn lemma_corners_in_range(st: StateView, words: Seq<Seq<u8>>)
    requires
        st.wf(),
    ensures
        forall|k: int|
            0 <= k < words.len() ==> {
                &&& (#[trigger] st.corners(words)[k]).p <= st.mesh.position_count()
                &&& st.corners(words)[k].t <= st.mesh.texcoord_count()
                &&& st.corners(words)[k].n <= st.mesh.normal_count()
            },
{
    assert forall|k: int| 0 <= k < words.len() implies {
        &&& (#[trigger] st.corners(words)[k]).p <= st.mesh.position_count()
        &&& st.corners(words)[k].t <= st.mesh.texcoord_count()
        &&& st.corners(words)[k].n <= st.mesh.normal_count()
    } by {
        let w = words[k];
        lemma_resolve_bound(head(w), st.mesh.position_count() as u32);
        lemma_resolve_bound(head(rest(w)), st.mesh.texcoord_count() as u32);
        lemma_resolve_bound(head(rest(rest(w))), st.mesh.normal_count() as u32);
    }
}

/// Where every corner of `cs` stands in `s`, the places that `offsets_in`
/// gives are places of `s`, and the corners stand there.
pub proof fn lemma_offsets_in(s: Seq<Index>, cs: Seq<Index>)
    requires
        forall|k: int| 0 <= k < cs.len() ==> s.contains(#[trigger] cs[k]),
        s.len() <= LIMIT,
    ensures
        offsets_in(s, cs).len() == cs.len(),
        forall|k: int|
            0 <= k < cs.len() ==> {
                &&& (#[trigger] offsets_in(s, cs)[k]) < s.len()
                &&& s[offsets_in(s, cs)[k] as int] == cs[k]
            },
{
    assert forall|k: int| 0 <= k < cs.len() implies {
        &&& (#[trigger] offsets_in(s, cs)[k]) < s.len()
        &&& s[offsets_in(s, cs)[k] as int] == cs[k]
    } by {
        assert(s.contains(cs[k]));
        let i = s.index_of(cs[k]);
        assert(0 <= i < s.len() && s[i] == cs[k]);
    }
}

/// Every entry of a fan is one of the corners it was made of.
pub proof fn lemma_fan_entries(o: Seq<u32>, bound: int)
    requires
        o.len() >= 3,
        forall|k: int| 0 <= k < o.len() ==> (#[trigger] o[k]) < bound,
    ensures
        fan(o).len() == 3 * (o.len() - 2),
        forall|j: int| 0 <= j < fan(o).len() ==> (#[trigger] fan(o)[j]) < bound,
{
    assert forall|j: int| 0 <= j < fan(o).len() implies (#[trigger] fan(o)[j]) < bound by {
        if j % 3 == 0 {
            assert(o[0] < bound);
        } else {
            assert(0 <= j / 3 + j % 3 < o.len());
            assert(o[j / 3 + j % 3] < bound);
        }
    }
}

/// A fan refers to each of the corners it was made of.
pub proof fn lemma_fan_covers(o: Seq<u32>, k: int)
    requires
        o.len() >= 3,
        0 <= k < o.len(),
    ensures
        exists|j: int| 0 <= j < fan(o).len() && #[trigger] fan(o)[j] == o[k],
{
    let j = if k == 0 {
        0
    } else if k == o.len() - 1 {
        3 * (k - 2) + 2
    } else {
        3 * (k - 1) + 1
    };
    assert(0 <= j < fan(o).len());
    if k == 0 {
    } else if k == o.len() - 1 {
        assert(j % 3 == 2 && j / 3 == k - 2);
    } else {
        assert(j % 3 == 1 && j / 3 == k - 1);
    }
    assert(fan(o)[j] == o[k]);
}

/// A polygon keeps the state well formed.
pub proof fn lemma_add_face_wf(st: StateView, words: Seq<Seq<u8>>)
    requires
        st.wf(),
    ensures
        st.add_face(words) matches Some(s) ==> s.wf(),
{
    let cs = st.corners(words);
    let m = st.mesh;
    if cs.len() >= 3 && all_placed(cs) && st.has_room(cs.len() as int) {
        let s = st.add_face(words).unwrap();
        let indices = interned(m.indices, cs);
        let o = offsets_in(indices, cs);
        lemma_interned(m.indices, cs);
        lemma_corners_in_range(st, words);
        lemma_offsets_in(indices, cs);
        lemma_fan_entries(o, indices.len() as int);
        lemma_triangle_total_push(m.face_vertices, cs.len() as u32);
        lemma_stamped_covers(m.objects, m.face_vertices, st.object, cs.len() as u32);
        lemma_stamped_covers(m.groups, m.face_vertices, st.group, cs.len() as u32);
        assert forall|i: int| 0 <= i < indices.len() implies s.mesh.holds_corner(
            #[trigger] indices[i],
        ) by {
            if i < m.indices.len() {
                assert(m.holds_corner(m.indices[i]));
            } else {
                assert(cs.contains(indices[i]));
                let k = choose|k: int| 0 <= k < cs.len() && cs[k] == indices[i];
                assert(cs[k].p != 0);
            }
        }
        assert forall|j: int| 0 <= j < s.mesh.triangles.len() implies #[trigger] s.mesh.triangles[j]
            < indices.len() by {
            if j < m.triangles.len() {
                assert(m.triangles[j] < m.indices.len());
            } else {
                assert(s.mesh.triangles[j] == fan(o)[j - m.triangles.len()]);
            }
        }
        assert forall|i: int| 0 <= i < indices.len() implies #[trigger] used(
            s.mesh.triangles,
            i,
        ) by {
            if i < m.indices.len() {
                assert(used(m.triangles, i));
                let j = choose|j: int| 0 <= j < m.triangles.len() && #[trigger] m.triangles[j] == i;
                assert(s.mesh.triangles[j] == i);
            } else {
                assert(cs.contains(indices[i]));
                let k = choose|k: int| 0 <= k < cs.len() && cs[k] == indices[i];
                lemma_index_of(indices, i);
                assert(o[k] == i);
                lemma_fan_covers(o, k);
                let j = choose|j: int| 0 <= j < fan(o).len() && #[trigger] fan(o)[j] == o[k];
                assert(s.mesh.triangles[m.triangles.len() + j] == i);
            }
        }
        assert forall|f: int|
            0 <= f < s.mesh.face_vertices.len() implies #[trigger] s.mesh.face_vertices[f]
            >= 3 by {
            if f < m.face_vertices.len() {
                assert(m.face_vertices[f] >= 3);
            }
        }
        assert forall|f: int| 0 <= f < s.mesh.face_materials.len() implies {
            ||| #[trigger] s.mesh.face_materials[f] == NO_MATERIAL
            ||| s.mesh.face_materials[f] < s.mesh.materials.len()
        } by {
            if f < m.face_materials.len() {
                assert(m.face_materials[f] == NO_MATERIAL || m.face_materials[f]
                    < m.materials.len());
            }
        }
    }
}

/// What `find_material` returns lies between `from` and the length of the
/// list.
pub proof fn lemma_find_material(ms: Seq<MaterialView>, name: Seq<char>, from: int)
    requires
        0 <= from <= ms.len(),
    ensures
        from <= find_material(ms, name, from) <= ms.len(),
        find_material(ms, name, from) < ms.len() ==> ms[find_material(ms, name, from)].name == name,
        forall|i: int|
            from <= i < find_material(ms, name, from) ==> (#[trigger] ms[i]).name != name,
    decreases ms.len() - from,
{
    if from < ms.len() && ms[from].name != name {
        lemma_find_material(ms, name, from + 1);
    }
}

/// The choice of a material keeps the state well formed.
pub proof fn lemma_use_material_wf(st: StateView, name: Seq<char>)
    requires
        st.wf(),
    ensures
        st.use_material(name).wf(),
{
    lemma_find_material(st.mesh.materials, name, 0);
}

/// The materials of a library keep the state well formed.
pub proof fn lemma_add_materials_wf(st: StateView, ms: Seq<MaterialView>)
    requires
        st.wf(),
    ensures
        st.add_materials(ms) matches Some(s) ==> s.wf(),
{
    if let Some(s) = st.add_materials(ms) {
        assert forall|f: int| 0 <= f < s.mesh.face_materials.len() implies {
            ||| #[trigger] s.mesh.face_materials[f] == NO_MATERIAL
            ||| s.mesh.face_materials[f] < s.mesh.materials.len()
        } by {
            assert(st.mesh.face_materials[f] == NO_MATERIAL || st.mesh.face_materials[f]
                < st.mesh.materials.len());
        }
        assert forall|i: int| 0 <= i < s.mesh.indices.len() implies s.mesh.holds_corner(
            #[trigger] s.mesh.indices[i],
        ) by {
            assert(st.mesh.holds_corner(st.mesh.indices[i]));
        }
    }
}

} // verus!
