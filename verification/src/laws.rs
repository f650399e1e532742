//! What holds of every mesh that a reader makes, beyond what each function
//! says of its own result.

use vstd::prelude::*;
use crate::group::GroupView;
use crate::index::{resolve, Index};
use crate::loader::{keyword_of, obj_step, read_all, Keyword};
use crate::model::{
    all_placed, interned, lemma_add_face_wf, lemma_add_normal_wf, lemma_add_position_wf,
    lemma_add_texcoord_wf, lemma_index_of, lemma_interned, lemma_start_wf, lemma_use_material_wf,
    runs_cover, triangle_total, used, MeshView, StateView,
};
use crate::number::{after_sign, decimal_of, digits_value, MINUS};
use crate::scan::{lemma_find, line_next, line_tokens, unfold, Class};
use crate::text::{lossy_text, word};

verus! {

/// Every line keeps a well-formed state well formed.
pub proof fn lemma_step_wf(st: StateView, words: Seq<Seq<u8>>)
    requires
        st.wf(),
    ensures
        obj_step(st, words) matches Some(s) ==> s.wf(),
{
    if words.len() > 0 {
        match keyword_of(words[0]) {
            Keyword::Position => {
                lemma_add_position_wf(
                    st,
                    decimal_of(word(words, 1)),
                    decimal_of(word(words, 2)),
                    decimal_of(word(words, 3)),
                );
            },
            Keyword::TexCoord => {
                lemma_add_texcoord_wf(st, decimal_of(word(words, 1)), decimal_of(word(words, 2)));
            },
            Keyword::Normal => {
                lemma_add_normal_wf(
                    st,
                    decimal_of(word(words, 1)),
                    decimal_of(word(words, 2)),
                    decimal_of(word(words, 3)),
                );
            },
            Keyword::Face => {
                lemma_add_face_wf(st, words.skip(1));
            },
            Keyword::UseMaterial => {
                lemma_use_material_wf(st, lossy_text(word(words, 1)));
            },
            _ => {},
        }
    }
}

/// Whatever the text of a model, the state that reading all of it leads to
/// is well formed: the invariants of a mesh hold of every mesh read.
pub proof fn lemma_read_all_wf(st: StateView, text: Seq<u8>, from: int)
    requires
        st.wf(),
    ensures
        read_all(st, text, from) matches Some(s) ==> s.wf(),
    decreases text.len() - from,
{
    if 0 <= from < text.len() {
        lemma_find(text, from, text.len() as int, Class::Newline);
        lemma_step_wf(st, line_tokens(text, from));
        if let Some(after) = obj_step(st, line_tokens(text, from)) {
            lemma_read_all_wf(after, text, line_next(text, from));
        }
    }
}

/// Polygons that are all triangles have three stream entries each.
pub proof fn lemma_triangle_total_of_triangles(face_vertices: Seq<u32>)
    requires
        forall|f: int| 0 <= f < face_vertices.len() ==> face_vertices[f] == 3,
    ensures
        triangle_total(face_vertices) == 3 * face_vertices.len(),
    decreases face_vertices.len(),
{
    if face_vertices.len() > 0 {
        lemma_triangle_total_of_triangles(face_vertices.drop_last());
    }
}

/// In a mesh whose polygons are all triangles, the corners are at most
/// three times as many as the polygons: sharing corners only makes them
/// fewer.
pub proof fn lemma_triangle_mesh_corners(m: MeshView)
    requires
        m.wf(),
        forall|f: int| 0 <= f < m.face_vertices.len() ==> m.face_vertices[f] == 3,
    ensures
        m.indices.len() <= 3 * m.face_vertices.len(),
        m.triangles.len() == 3 * m.face_vertices.len(),
{
    lemma_triangle_total_of_triangles(m.face_vertices);
}

/// Whatever the text of a model: where all its polygons are triangles, the
/// mesh read from it has at most three corners for each polygon.
pub proof fn lemma_triangle_only_model(bytes: Seq<u8>)
    ensures
        read_all(StateView::start(), unfold(bytes), 0) matches Some(s) ==> s.mesh.wf() && ((forall|
            f: int,
        |
            0 <= f < s.mesh.face_vertices.len() ==> s.mesh.face_vertices[f] == 3)
            ==> s.mesh.indices.len() <= 3 * s.mesh.face_vertices.len()),
{
    lemma_start_wf();
    lemma_read_all_wf(StateView::start(), unfold(bytes), 0);
    if let Some(s) = read_all(StateView::start(), unfold(bytes), 0) {
        if forall|f: int| 0 <= f < s.mesh.face_vertices.len() ==> s.mesh.face_vertices[f] == 3 {
            lemma_triangle_mesh_corners(s.mesh);
        }
    }
}

/// Whether a triangle stream refers to three places that differ from one
/// another.
pub open spec fn refers_to_three(triangles: Seq<u32>) -> bool {
    exists|a: int, b: int, c: int|
        #![trigger triangles[a], triangles[b], triangles[c]]
        {
            &&& 0 <= a < triangles.len()
            &&& 0 <= b < triangles.len()
            &&& 0 <= c < triangles.len()
            &&& triangles[a] != triangles[b]
            &&& triangles[a] != triangles[c]
            &&& triangles[b] != triangles[c]
        }
}

/// A mesh has at least three corners exactly where its polygons write
/// three corners that differ from one another: a mesh of polygons that
/// write one or two corners over and over has fewer.
pub proof fn lemma_three_corners(m: MeshView)
    requires
        m.wf(),
    ensures
        m.indices.len() >= 3 <==> refers_to_three(m.triangles),
{
    if m.indices.len() >= 3 {
        assert(used(m.triangles, 0));
        assert(used(m.triangles, 1));
        assert(used(m.triangles, 2));
        let a = choose|j: int| 0 <= j < m.triangles.len() && #[trigger] m.triangles[j] == 0;
        let b = choose|j: int| 0 <= j < m.triangles.len() && #[trigger] m.triangles[j] == 1;
        let c = choose|j: int| 0 <= j < m.triangles.len() && #[trigger] m.triangles[j] == 2;
        assert(m.triangles[a] != m.triangles[b] && m.triangles[a] != m.triangles[c]
            && m.triangles[b] != m.triangles[c]);
    }
    if refers_to_three(m.triangles) {
        let t = m.triangles;
        let (a, b, c) = choose|a: int, b: int, c: int|
            #![trigger t[a], t[b], t[c]]
            {
                &&& 0 <= a < t.len()
                &&& 0 <= b < t.len()
                &&& 0 <= c < t.len()
                &&& t[a] != t[b]
                &&& t[a] != t[c]
                &&& t[b] != t[c]
            };
        assert(t[a] < m.indices.len());
        assert(t[b] < m.indices.len());
        assert(t[c] < m.indices.len());
    }
}

/// The runs of a well-formed mesh follow one another without a gap: run
/// `r` holds the polygons from its `face_offset` on, as many as its
/// `face_count`, and two runs share no polygon.
pub proof fn lemma_runs_are_disjoint(runs: Seq<GroupView>, face_vertices: Seq<u32>, a: int, b: int)
    requires
        runs_cover(runs, face_vertices),
        0 <= a < b < runs.len(),
    ensures
        runs[a].face_offset + runs[a].face_count <= runs[b].face_offset,
    decreases b - a,
{
    if a + 1 < b {
        lemma_runs_are_disjoint(runs, face_vertices, a, b - 1);
        assert(runs[b].face_offset == runs[b - 1].face_offset + runs[b - 1].face_count);
        assert(runs[b - 1].face_count >= 1);
    } else {
        assert(runs[b].face_offset == runs[b - 1].face_offset + runs[b - 1].face_count);
    }
}

/// A corner that is written twice has one place: adding the corners of a
/// polygon a second time adds nothing.
pub proof fn lemma_interned_twice(s: Seq<Index>, cs: Seq<Index>)
    requires
        s.no_duplicates(),
    ensures
        interned(interned(s, cs), cs) == interned(s, cs),
{
    let t = interned(s, cs);
    lemma_interned(s, cs);
    lemma_interned_present(t, cs);
}

/// Corners that all stand in `t` already add nothing to it.
pub proof fn lemma_interned_present(t: Seq<Index>, cs: Seq<Index>)
    requires
        forall|k: int| 0 <= k < cs.len() ==> t.contains(#[trigger] cs[k]),
    ensures
        interned(t, cs) == t,
    decreases cs.len(),
{
    if cs.len() > 0 {
        assert forall|k: int| 0 <= k < cs.drop_last().len() implies t.contains(
            #[trigger] cs.drop_last()[k],
        ) by {
            assert(cs.drop_last()[k] == cs[k]);
        }
        lemma_interned_present(t, cs.drop_last());
        assert(t.contains(cs[cs.len() - 1]));
    }
}

/// A field that counts back from the end refers to the item that many
/// steps back from the last of the `count` items read so far: `-1` to the
/// last, `-count` to the first. A field that counts forward gives the
/// number it writes.
pub proof fn lemma_resolve_directions(f: Seq<u8>, count: u32)
    requires
        resolve(f, count) != 0,
    ensures
        f.len() > 0,
        f[0] == MINUS ==> resolve(f, count) == count - digits_value(f.skip(1)) + 1,
        f[0] != MINUS ==> resolve(f, count) == digits_value(f.skip(after_sign(f, 0))),
{
    assert(f.skip(1) =~= f.subrange(1, f.len() as int));
    assert(f.skip(0) =~= f.subrange(0, f.len() as int));
}

/// A polygon with `n` corners that is not passed over is recorded with the
/// count `n` and adds `n - 2` triangles to the stream, three entries each,
/// all of which start at its first corner.
pub proof fn lemma_face_adds_fan(st: StateView, words: Seq<Seq<u8>>)
    requires
        st.wf(),
        words.len() >= 3,
        all_placed(st.corners(words)),
        st.add_face(words) is Some,
    ensures
        ({
            let s = st.add_face(words)->Some_0;
            let before = st.mesh.triangles.len() as int;
            let added = s.mesh.triangles.skip(before);
            &&& s.mesh.face_vertices == st.mesh.face_vertices.push(words.len() as u32)
            &&& s.mesh.triangles.take(before) == st.mesh.triangles
            &&& added.len() == 3 * (words.len() - 2)
            &&& forall|j: int|
                0 <= j < added.len() && j % 3 == 0 ==> #[trigger] added[j] == added[0]
        }),
{
    let s = st.add_face(words)->Some_0;
    let before = st.mesh.triangles.len() as int;
    assert(s.mesh.triangles.take(before) =~= st.mesh.triangles);
}

/// A corner keeps its place when the corners of later polygons are added:
/// polygons that write the same corner refer to the same place.
pub proof fn lemma_place_is_kept(s: Seq<Index>, cs: Seq<Index>, c: Index)
    requires
        s.no_duplicates(),
        s.contains(c),
    ensures
        interned(s, cs).index_of(c) == s.index_of(c),
{
    lemma_interned(s, cs);
    let i = s.index_of(c);
    assert(0 <= i < s.len() && s[i] == c);
    assert(interned(s, cs)[i] == c);
    lemma_index_of(interned(s, cs), i);
}

/// No line of a model changes the materials: they come from libraries
/// alone, so a model read with no library at hand keeps the materials it
/// started with.
pub proof fn lemma_read_all_materials(st: StateView, text: Seq<u8>, from: int)
    ensures
        read_all(st, text, from) matches Some(s) ==> s.mesh.materials == st.mesh.materials,
    decreases text.len() - from,
{
    if 0 <= from < text.len() {
        lemma_find(text, from, text.len() as int, Class::Newline);
        if let Some(after) = obj_step(st, line_tokens(text, from)) {
            assert(after.mesh.materials == st.mesh.materials);
            lemma_read_all_materials(after, text, line_next(text, from));
        }
    }
}

} // verus!
