use fast_obj::{Index, Mesh};

fn read(text: &str) -> Mesh {
    Mesh::new_from_bytes(text.as_bytes()).unwrap()
}

#[test]
fn triangles_share_corners_and_never_outnumber_the_stream() {
    let mesh = read("v 0 0 0\nv 1 0 0\nv 0 1 0\nv 1 1 0\nf 1 2 3\nf 2 4 3\n");
    assert_eq!(mesh.face_vertices(), &[3, 3]);
    assert_eq!(mesh.indices().len(), 4);
    assert!(mesh.indices().len() >= 3);
    assert!(mesh.indices().len() <= 3 * mesh.face_vertices().len());
    assert_eq!(mesh.triangles(), &[0, 1, 2, 1, 3, 2]);
}

#[test]
fn pentagon_becomes_three_triangles() {
    let mesh = read("v 0 0 0\nv 1 0 0\nv 2 1 0\nv 1 2 0\nv 0 1 0\nf 1 2 3 4 5\n");
    assert_eq!(mesh.face_vertices(), &[5]);
    assert_eq!(mesh.triangles().len(), 9);
    assert_eq!(mesh.triangles(), &[0, 1, 2, 0, 2, 3, 0, 3, 4]);
    assert_eq!(mesh.indices().len(), 5);
}

#[test]
fn negative_indices_count_back_from_the_last_position() {
    let mesh = read("v 0 0 0\nv 1 0 0\nv 0 1 0\nv 1 1 0\nf -1 -4 -2\n");
    assert_eq!(
        mesh.indices(),
        &[
            Index { p: 4, t: 0, n: 0 },
            Index { p: 1, t: 0, n: 0 },
            Index { p: 3, t: 0, n: 0 }
        ]
    );
}

#[test]
fn negative_indices_see_only_what_was_read_before_the_face() {
    let mesh = read("v 0 0 0\nv 1 0 0\nv 0 1 0\nf -1 -2 -3\nv 5 5 5\nf -1 -2 -3\n");
    assert_eq!(mesh.indices()[0], Index { p: 3, t: 0, n: 0 });
    assert_eq!(mesh.indices()[3], Index { p: 4, t: 0, n: 0 });
    assert_eq!(mesh.triangles(), &[0, 1, 2, 3, 0, 1]);
}

#[test]
fn equal_corners_of_two_faces_are_one_entry() {
    let mesh = read(
        "v 0 0 0\nv 1 0 0\nv 0 1 0\nv 1 1 0\nvt 0 0\nvt 1 1\nvn 0 0 1\nf 1/1/1 2/2/1 3/1/1\nf 1/1/1 4/2/1 2/1/1\n",
    );
    let shared = Index { p: 1, t: 1, n: 1 };
    assert_eq!(mesh.indices().iter().filter(|c| **c == shared).count(), 1);
    assert_eq!(mesh.indices()[0], shared);
    assert_eq!(mesh.triangles()[0], 0);
    assert_eq!(mesh.triangles()[3], 0);
    assert_eq!(mesh.indices().len(), 5);
}

#[test]
fn a_thousand_equal_faces_leave_three_corners() {
    let mut text = String::new();
    for i in 0..1000 {
        text.push_str(&format!("v {} 0 0\n", i));
    }
    for _ in 0..1000 {
        text.push_str("f 1 2 3\n");
    }
    let mesh = read(&text);
    assert_eq!(mesh.positions().len(), 3 * 1000);
    assert_eq!(mesh.face_vertices().len(), 1000);
    assert_eq!(mesh.indices().len(), 3);
    assert_eq!(mesh.triangles().len(), 3000);
}
