use fast_obj::loader::keyword;
use fast_obj::loader::Keyword;
use fast_obj::{Assembler, Decimal, Index, Mesh, ObjLoadError};

fn read(text: &str) -> Mesh {
    Mesh::new_from_bytes(text.as_bytes()).unwrap()
}

fn dec(mantissa: u64, exponent: i32) -> Decimal {
    Decimal { negative: false, mantissa, exponent }
}

#[test]
fn an_empty_model_is_an_empty_mesh() {
    let mesh = read("");
    assert!(mesh.positions().is_empty());
    assert!(mesh.texcoords().is_empty());
    assert!(mesh.normals().is_empty());
    assert!(mesh.face_vertices().is_empty());
    assert!(mesh.face_materials().is_empty());
    assert!(mesh.indices().is_empty());
    assert!(mesh.triangles().is_empty());
    assert!(mesh.materials().is_empty());
    assert!(mesh.objects().is_empty());
    assert!(mesh.groups().is_empty());
    let mesh = read("# nothing\n\n   \n\\");
    assert!(mesh.positions().is_empty());
}

#[test]
fn positions_take_three_numbers_and_pass_over_a_fourth() {
    let mesh = read("v 1 2.5 -3 1.0\nv 4 5\nv\n");
    assert_eq!(
        mesh.positions(),
        &[
            dec(1, 0),
            dec(25, -1),
            Decimal { negative: true, mantissa: 3, exponent: 0 },
            dec(4, 0),
            dec(5, 0),
            dec(0, 0),
            dec(0, 0),
            dec(0, 0),
            dec(0, 0)
        ]
    );
}

#[test]
fn texture_coordinates_take_two_numbers() {
    let mesh = read("vt 0.5 0.25 9\nvt 1\nvt\n");
    assert_eq!(
        mesh.texcoords(),
        &[dec(5, -1), dec(25, -2), dec(1, 0), dec(0, 0), dec(0, 0), dec(0, 0)]
    );
}

#[test]
fn normals_take_three_numbers() {
    let mesh = read("vn 0 0 1\nvn bad 1e0 0\n");
    assert_eq!(
        mesh.normals(),
        &[dec(0, 0), dec(0, 0), dec(1, 0), dec(0, 0), dec(1, 0), dec(0, 0)]
    );
}

#[test]
fn unknown_lines_are_passed_over() {
    let mesh = read("s off\nvp 1 2 3\nl 1 2\nV 1 2 3\nv 1 2 3\n");
    assert_eq!(mesh.positions().len(), 3);
}

#[test]
fn a_face_needs_three_corners_with_positions() {
    let mesh = read("v 0 0 0\nv 1 0 0\nv 0 1 0\nf 1 2\nf 1\nf\nf 1 2 0\nf 1 2 4\nf 1 2 -4\nf 1 2 x\nf 1 2 /1\n");
    assert!(mesh.face_vertices().is_empty());
    assert!(mesh.indices().is_empty());
    assert!(mesh.triangles().is_empty());
    assert!(mesh.groups().is_empty());
}

#[test]
fn a_face_cannot_name_a_position_that_follows_it() {
    let mesh = read("v 0 0 0\nv 1 0 0\nf 1 2 3\nv 0 1 0\nf 1 2 3\n");
    assert_eq!(mesh.face_vertices(), &[3]);
}

#[test]
fn texture_coordinates_and_normals_out_of_reach_are_left_out() {
    let mesh = read("v 0 0 0\nv 1 0 0\nv 0 1 0\nvt 0 0\nvn 0 0 1\nf 1/1/1 2/2/2 3/-2/-1 \n");
    assert_eq!(
        mesh.indices(),
        &[
            Index { p: 1, t: 1, n: 1 },
            Index { p: 2, t: 0, n: 0 },
            Index { p: 3, t: 0, n: 1 }
        ]
    );
}

#[test]
fn a_degenerate_triangle_has_one_corner() {
    let mesh = read("v 0 0 0\nf 1 1 1\n");
    assert_eq!(mesh.face_vertices(), &[3]);
    assert_eq!(mesh.indices().len(), 1);
    assert_eq!(mesh.triangles(), &[0, 0, 0]);
}

#[test]
fn a_quad_is_a_fan_of_two_triangles() {
    let mesh = read("v 0 0 0\nv 1 0 0\nv 1 1 0\nv 0 1 0\nf 1 2 3 4\nf 4 3 2 1\n");
    assert_eq!(mesh.face_vertices(), &[4, 4]);
    assert_eq!(mesh.indices().len(), 4);
    assert_eq!(mesh.triangles(), &[0, 1, 2, 0, 2, 3, 3, 2, 1, 3, 1, 0]);
}

#[test]
fn a_face_can_go_on_over_continued_lines() {
    let mesh = read("v 0 0 0\nv 1 0 0\nv 1 1 0\nv 0 1 0\nf 1 2 \\\n 3 \\\r\n 4\n");
    assert_eq!(mesh.face_vertices(), &[4]);
}

#[test]
fn windows_line_ends_and_tabs_are_read() {
    let mesh = read("v\t0 0 0\r\nv 1 0 0\r\nv 0 1 0\r\nf\t1\t2\t3\r\n");
    assert_eq!(mesh.positions().len(), 9);
    assert_eq!(mesh.face_vertices(), &[3]);
}

#[test]
fn a_comment_can_follow_a_line() {
    let mesh = read("v 1 2 3 # the first\n#v 4 5 6\nv 7 8 9#tight\n");
    assert_eq!(mesh.positions().len(), 6);
    assert_eq!(mesh.positions()[5], dec(9, 0));
}

#[test]
fn a_continued_comment_takes_the_next_line_with_it() {
    let mesh = read("# note \\\nv 1 2 3\nv 4 5 6\n");
    assert_eq!(mesh.positions(), &[dec(4, 0), dec(5, 0), dec(6, 0)]);
}

#[test]
fn counts_are_the_lengths_of_the_arrays_by_their_width() {
    let mesh = read("v 0 0 0\nv 1 1 1\nvt 0 0\nvt 1 1\nvt 2 2\nvn 0 0 1\n");
    assert_eq!(mesh.position_count(), 2);
    assert_eq!(mesh.texcoord_count(), 3);
    assert_eq!(mesh.normal_count(), 1);
}

#[test]
fn records_can_be_copied() {
    let mesh = read("v 0 0 0\ng part\nf 1 1 1\n");
    let copy = mesh.groups()[0].clone();
    assert_eq!(copy.name(), "part");
    assert_eq!(copy.face_count, 1);
    let m = fast_obj::material::read_materials(b"newmtl a\nmap_Kd x.png\nNs 3\n");
    let copy = m[0].clone();
    assert_eq!(copy.name(), "a");
    assert_eq!(copy.ns, dec(3, 0));
    assert_eq!(copy.map_kd.clone().path(), "x.png");
}

#[test]
fn keywords_are_told_apart() {
    assert!(matches!(keyword(b"v"), Keyword::Position));
    assert!(matches!(keyword(b"vt"), Keyword::TexCoord));
    assert!(matches!(keyword(b"vn"), Keyword::Normal));
    assert!(matches!(keyword(b"f"), Keyword::Face));
    assert!(matches!(keyword(b"o"), Keyword::Object));
    assert!(matches!(keyword(b"g"), Keyword::Group));
    assert!(matches!(keyword(b"usemtl"), Keyword::UseMaterial));
    assert!(matches!(keyword(b"mtllib"), Keyword::Library));
    assert!(matches!(keyword(b"vp"), Keyword::Other));
    assert!(matches!(keyword(b""), Keyword::Other));
}

#[test]
fn an_assembler_takes_lines_by_hand() {
    let mut a = Assembler::new();
    a.position(dec(0, 0), dec(0, 0), dec(0, 0)).unwrap();
    a.position(dec(1, 0), dec(0, 0), dec(0, 0)).unwrap();
    a.position(dec(0, 0), dec(1, 0), dec(0, 0)).unwrap();
    a.texcoord(dec(0, 0), dec(1, 0)).unwrap();
    a.normal(dec(0, 0), dec(0, 0), dec(1, 0)).unwrap();
    a.set_object(b"thing");
    a.set_group(b"part");
    a.add_materials(fast_obj::material::read_materials(b"newmtl skin\n")).unwrap();
    a.use_material(b"skin");
    let words = [&b"1/1/1"[..], &b"2/1/1"[..], &b"-1//-1"[..]];
    let r: Result<(), ObjLoadError> = a.face(&words);
    assert!(r.is_ok());
    let mesh = a.finish();
    assert_eq!(mesh.face_vertices(), &[3]);
    assert_eq!(mesh.face_materials(), &[0]);
    assert_eq!(mesh.indices()[2], Index { p: 3, t: 0, n: 1 });
    assert_eq!(mesh.objects()[0].name(), "thing");
    assert_eq!(mesh.groups()[0].name(), "part");
    assert_eq!(mesh.materials()[0].name(), "skin");
    assert_eq!(mesh.texcoords().len(), 2);
    assert_eq!(mesh.normals().len(), 3);
}
