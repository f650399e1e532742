use fast_obj::{Group, Mesh};

fn read(text: &str) -> Mesh {
    Mesh::new_from_bytes(text.as_bytes()).unwrap()
}

fn runs(groups: &[Group]) -> Vec<(String, u32, u32, u32)> {
    groups
        .iter()
        .map(|g| (g.name().to_string(), g.face_offset, g.face_count, g.index_offset))
        .collect()
}

const CORNERS: &str = "v 0 0 0\nv 1 0 0\nv 0 1 0\nv 1 1 0\n";

#[test]
fn two_groups_part_five_faces() {
    let mesh = read(&format!(
        "{}g A\nf 1 2 3\nf 2 3 4\ng B\nf 1 2 4\nf 1 3 4\nf 3 2 1\n",
        CORNERS
    ));
    assert_eq!(mesh.groups().len(), 2);
    assert_eq!(mesh.groups()[0].name(), "A");
    assert_eq!(mesh.groups()[0].face_offset, 0);
    assert_eq!(mesh.groups()[0].face_count, 2);
    assert_eq!(mesh.groups()[1].name(), "B");
    assert_eq!(mesh.groups()[1].face_offset, 2);
    assert_eq!(mesh.groups()[1].face_count, 3);
    assert_eq!(mesh.groups()[1].index_offset, 6);
    assert_eq!(runs(mesh.objects()), vec![(String::new(), 0, 5, 0)]);
}

#[test]
fn faces_before_any_name_are_a_run_with_the_empty_name() {
    let mesh = read(&format!("{}f 1 2 3\ng A\nf 1 2 3 4\no B\nf 1 2 3\n", CORNERS));
    assert_eq!(
        runs(mesh.groups()),
        vec![(String::new(), 0, 1, 0), (String::from("A"), 1, 2, 3)]
    );
    assert_eq!(
        runs(mesh.objects()),
        vec![(String::new(), 0, 2, 0), (String::from("B"), 2, 1, 9)]
    );
}

#[test]
fn a_name_that_is_set_again_goes_on_with_its_run() {
    let mesh = read(&format!("{}g A\nf 1 2 3\ng A\nf 1 2 3\n", CORNERS));
    assert_eq!(runs(mesh.groups()), vec![(String::from("A"), 0, 2, 0)]);
}

#[test]
fn a_name_that_comes_back_starts_a_new_run() {
    let mesh = read(&format!("{}g A\nf 1 2 3\ng B\nf 1 2 3\ng A\nf 1 2 3\n", CORNERS));
    assert_eq!(
        runs(mesh.groups()),
        vec![
            (String::from("A"), 0, 1, 0),
            (String::from("B"), 1, 1, 3),
            (String::from("A"), 2, 1, 6)
        ]
    );
}

#[test]
fn a_name_without_faces_leaves_no_run() {
    let mesh = read(&format!("{}g A\ng B\nf 1 2 3\ng C\n", CORNERS));
    assert_eq!(runs(mesh.groups()), vec![(String::from("B"), 0, 1, 0)]);
    let mesh = read("g A\no B\n");
    assert!(mesh.groups().is_empty());
    assert!(mesh.objects().is_empty());
}

#[test]
fn the_first_word_is_the_name() {
    let mesh = read(&format!("{}g first second\no one two\nf 1 2 3\ng\nf 1 2 3\n", CORNERS));
    assert_eq!(
        runs(mesh.groups()),
        vec![(String::from("first"), 0, 1, 0), (String::new(), 1, 1, 3)]
    );
    assert_eq!(runs(mesh.objects()), vec![(String::from("one"), 0, 2, 0)]);
}

#[test]
fn faces_that_are_passed_over_are_not_counted() {
    let mesh = read(&format!("{}g A\nf 1 2\nf 1 2 9\nf 1 2 3\nf\n", CORNERS));
    assert_eq!(mesh.face_vertices(), &[3]);
    assert_eq!(runs(mesh.groups()), vec![(String::from("A"), 0, 1, 0)]);
    assert_eq!(mesh.indices().len(), 3);
}

#[test]
fn a_group_can_be_made_by_hand() {
    let g = Group::new(String::from("hand"), 2, 3, 9);
    assert_eq!(g.name(), "hand");
    assert!(g.is_named(&String::from("hand")));
    assert!(!g.is_named(&String::from("other")));
    assert_eq!((g.face_count, g.face_offset, g.index_offset), (2, 3, 9));
}
