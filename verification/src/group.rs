//! Runs of polygons under one name: the groups and the objects of a model.

use vstd::prelude::*;

verus! {

/// What a `Group` holds, with the name as a sequence of characters.
pub struct GroupView {
    pub name: Seq<char>,
    pub face_count: u32,
    pub face_offset: u32,
    pub index_offset: u32,
}

/// A run of consecutive polygons that were read under one name: a group, or
/// an object. `face_offset` is the number of polygons before the run,
/// `index_offset` the length of the triangle stream before it.
#[derive(Debug)]
pub struct Group {
    pub name: String,
    pub face_count: u32,
    pub face_offset: u32,
    pub index_offset: u32,
}

impl View for Group {
    type V = GroupView;

    open spec fn view(&self) -> GroupView {
        GroupView {
            name: self.name@,
            face_count: self.face_count,
            face_offset: self.face_offset,
            index_offset: self.index_offset,
        }
    }
}

impl Clone for Group {
    fn clone(&self) -> (r: Group)
        ensures
            r@ == self@,
    {
        Group {
            name: self.name.clone(),
            face_count: self.face_count,
            face_offset: self.face_offset,
            index_offset: self.index_offset,
        }
    }
}

impl Group {
    /// A run with the given name and numbers.
    pub fn new(name: String, face_count: u32, face_offset: u32, index_offset: u32) -> (g: Group)
        ensures
            g@ == (GroupView { name: name@, face_count, face_offset, index_offset }),
    {
        Group { name, face_count, face_offset, index_offset }
    }

    /// The name of the run.
    pub fn name(&self) -> (r: &str)
        ensures
            r@ == self@.name,
    {
        self.name.as_str()
    }

    /// Whether the run has the name `name`.
    pub fn is_named(&self, name: &String) -> (r: bool)
        ensures
            r == (self@.name == name@),
    {
        self.name.eq(name)
    }
}

/// What a list of runs holds.
pub open spec fn group_views(runs: Seq<Group>) -> Seq<GroupView> {
    runs.map_values(|g: Group| g@)
}

/// The runs after one more polygon was read under `name`, with `faces`
/// polygons and `triangles` entries of the triangle stream before it. The
/// polygon joins the last run where that run has the same name; otherwise it
/// starts a run of its own.
pub open spec fn stamped(runs: Seq<GroupView>, name: Seq<char>, faces: u32, triangles: u32) -> Seq<
    GroupView,
> {
    if runs.len() > 0 && runs.last().name == name {
        runs.update(
            runs.len() - 1,
            GroupView { face_count: (runs.last().face_count + 1) as u32, ..runs.last() },
        )
    } else {
        runs.push(GroupView { name, face_count: 1, face_offset: faces, index_offset: triangles })
    }
}

/// Counts one more polygon, read under `name`, in `runs`.
pub fn stamp(runs: &mut Vec<Group>, name: &String, faces: u32, triangles: u32)
    requires
        old(runs).len() > 0 ==> old(runs)@.last().face_count < u32::MAX,
    ensures
        group_views(final(runs)@) == stamped(group_views(old(runs)@), name@, faces, triangles),
{
    let n: usize = runs.len();
    if n > 0 && runs[n - 1].is_named(name) {
        let ghost before = runs@;
        let last = runs.pop().unwrap();
        let more = Group {
            name: last.name,
            face_count: last.face_count + 1,
            face_offset: last.face_offset,
            index_offset: last.index_offset,
        };
        runs.push(more);
        assert(group_views(runs@) =~= stamped(group_views(before), name@, faces, triangles));
    } else {
        let ghost before = runs@;
        runs.push(Group::new(name.clone(), 1, faces, triangles));
        assert(group_views(runs@) =~= stamped(group_views(before), name@, faces, triangles));
    }
}

} // verus!
