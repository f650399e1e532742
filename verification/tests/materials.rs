use fast_obj::material::{classify, lookup_material, read_materials, Property, Statement, NO_MATERIAL};
use fast_obj::{Decimal, Material, Texture};

fn dec(mantissa: u64, exponent: i32) -> Decimal {
    Decimal { negative: false, mantissa, exponent }
}

const LIBRARY: &str = "# two materials\nnewmtl Red\nKa 0.1 0.2 0.3\nKd 1 0 0\nKs 0.5 0.5 0.5\nKe 0 0 1\nKt 2 2 2\nNs 96.5\nNi 1.45\nTf 0.9 0.8 0.7\nd 0.5\nillum 2\nmap_Ka a.png\nmap_Kd textures/red.png\nmap_Ks b.c.png\nmap_Ke e\nmap_Kt t.x\nmap_Ns n.x\nmap_Ni i.x\nmap_d d.x\nmap_bump up\\bump.tga\n\nnewmtl Blue\nKd 0 0 1\n";

#[test]
fn a_library_defines_its_materials_in_order() {
    let materials = read_materials(LIBRARY.as_bytes());
    assert_eq!(materials.len(), 2);
    assert_eq!(materials[0].name(), "Red");
    assert_eq!(materials[1].name(), "Blue");
}

#[test]
fn each_line_sets_its_property() {
    let materials = read_materials(LIBRARY.as_bytes());
    let red = &materials[0];
    assert_eq!(red.ka, [dec(1, -1), dec(2, -1), dec(3, -1)]);
    assert_eq!(red.kd, [dec(1, 0), dec(0, 0), dec(0, 0)]);
    assert_eq!(red.ks, [dec(5, -1), dec(5, -1), dec(5, -1)]);
    assert_eq!(red.ke, [dec(0, 0), dec(0, 0), dec(1, 0)]);
    assert_eq!(red.kt, [dec(2, 0), dec(2, 0), dec(2, 0)]);
    assert_eq!(red.ns, dec(965, -1));
    assert_eq!(red.ni, dec(145, -2));
    assert_eq!(red.tf, [dec(9, -1), dec(8, -1), dec(7, -1)]);
    assert_eq!(red.d, dec(5, -1));
    assert_eq!(red.illum, 2);
}

#[test]
fn a_texture_is_named_by_the_stem_of_its_path() {
    let materials = read_materials(LIBRARY.as_bytes());
    let red = &materials[0];
    assert_eq!(red.map_ka.name(), "a");
    assert_eq!(red.map_ka.path(), "a.png");
    assert_eq!(red.map_kd.name(), "red");
    assert_eq!(red.map_kd.path(), "textures/red.png");
    assert_eq!(red.map_ks.name(), "b.c");
    assert_eq!(red.map_ke.name(), "e");
    assert_eq!(red.map_ke.path(), "e");
    assert_eq!(red.map_kt.path(), "t.x");
    assert_eq!(red.map_ns.path(), "n.x");
    assert_eq!(red.map_ni.path(), "i.x");
    assert_eq!(red.map_d.path(), "d.x");
    assert_eq!(red.map_bump.name(), "bump");
    assert_eq!(red.map_bump.path(), "up\\bump.tga");
    let made = Texture::of(b"dir/file.ext");
    assert_eq!(made.name(), "file");
    assert_eq!(made.path(), "dir/file.ext");
}

#[test]
fn a_fresh_material_has_the_usual_coefficients() {
    let m = Material::fresh(String::from("plain"));
    assert_eq!(m.name(), "plain");
    assert_eq!(m.ka, [dec(0, 0); 3]);
    assert_eq!(m.kd, [dec(1, 0); 3]);
    assert_eq!(m.ks, [dec(0, 0); 3]);
    assert_eq!(m.ke, [dec(0, 0); 3]);
    assert_eq!(m.kt, [dec(0, 0); 3]);
    assert_eq!(m.ns, dec(1, 0));
    assert_eq!(m.ni, dec(1, 0));
    assert_eq!(m.tf, [dec(1, 0); 3]);
    assert_eq!(m.d, dec(1, 0));
    assert_eq!(m.illum, 1);
    assert_eq!(m.map_kd.name(), "");
    assert_eq!(m.map_kd.path(), "");
    assert_eq!(Texture::none().path(), "");
    let materials = read_materials(LIBRARY.as_bytes());
    let blue = &materials[1];
    assert_eq!(blue.kd, [dec(0, 0), dec(0, 0), dec(1, 0)]);
    assert_eq!(blue.ns, dec(1, 0));
    assert_eq!(blue.map_bump.path(), "");
}

#[test]
fn properties_before_the_first_material_are_passed_over() {
    let materials = read_materials(b"Kd 0 0 0\nillum 7\nnewmtl only\n");
    assert_eq!(materials.len(), 1);
    assert_eq!(materials[0].kd, [dec(1, 0); 3]);
    assert_eq!(materials[0].illum, 1);
    assert!(read_materials(b"Kd 0 0 0\n# nothing\n").is_empty());
    assert!(read_materials(b"").is_empty());
}

#[test]
fn numbers_that_are_missing_or_unreadable_are_zero() {
    let materials = read_materials(b"newmtl m\nKd 0.5\nNs\nillum two\nKa x 1 y\n");
    assert_eq!(materials[0].kd, [dec(5, -1), dec(0, 0), dec(0, 0)]);
    assert_eq!(materials[0].ns, dec(0, 0));
    assert_eq!(materials[0].illum, 0);
    assert_eq!(materials[0].ka, [dec(0, 0), dec(1, 0), dec(0, 0)]);
}

#[test]
fn unknown_lines_and_comments_change_nothing() {
    let materials = read_materials(b"newmtl m # the name\nPr 0.5\nKd 1 \\\n 0.5 \\\r\n 0.25\n\n");
    assert_eq!(materials.len(), 1);
    assert_eq!(materials[0].name(), "m");
    assert_eq!(materials[0].kd, [dec(1, 0), dec(5, -1), dec(25, -2)]);
}

#[test]
fn a_material_without_a_name_has_the_empty_name() {
    let materials = read_materials(b"newmtl\nnewmtl a b\n");
    assert_eq!(materials.len(), 2);
    assert_eq!(materials[0].name(), "");
    assert_eq!(materials[1].name(), "a");
}

#[test]
fn lines_are_told_apart_by_their_first_word() {
    assert!(matches!(classify(b"newmtl"), Statement::Start));
    assert!(matches!(classify(b"Ka"), Statement::Assign(Property::Ambient)));
    assert!(matches!(classify(b"d"), Statement::Assign(Property::Dissolve)));
    assert!(matches!(classify(b"map_bump"), Statement::Assign(Property::MapBump)));
    assert!(matches!(classify(b"map_Kd"), Statement::Assign(Property::MapDiffuse)));
    assert!(matches!(classify(b"ka"), Statement::Other));
    assert!(matches!(classify(b""), Statement::Other));
}

#[test]
fn a_material_is_looked_up_by_its_name_and_the_first_one_wins() {
    let materials = read_materials(b"newmtl a\nnewmtl b\nnewmtl a\n");
    assert_eq!(lookup_material(&materials, &String::from("a")), 0);
    assert_eq!(lookup_material(&materials, &String::from("b")), 1);
    assert_eq!(lookup_material(&materials, &String::from("c")), NO_MATERIAL);
    assert_eq!(lookup_material(&Vec::new(), &String::from("a")), NO_MATERIAL);
    assert_eq!(NO_MATERIAL, u32::MAX);
}

#[test]
fn a_property_can_be_set_by_hand() {
    let mut m = Material::fresh(String::from("m"));
    let words = [&b"Ns"[..], &b"12.5"[..]];
    m.set(Property::Shininess, &words);
    assert_eq!(m.ns, dec(125, -1));
    let words = [&b"map_d"[..], &b"x/y.z"[..]];
    m.set(Property::MapDissolve, &words);
    assert_eq!(m.map_d.name(), "y");
}

#[test]
fn names_that_are_not_utf8_are_read_with_replacements() {
    let materials = read_materials(b"newmtl a\xFFb\n");
    assert_eq!(materials[0].name(), "a\u{FFFD}b");
    let materials = read_materials("newmtl caf\u{e9}\n".as_bytes());
    assert_eq!(materials[0].name(), "caf\u{e9}");
}
