use fast_obj::loader::contains_nul;
use fast_obj::material::NO_MATERIAL;
use fast_obj::{Fetched, Loader, Mesh, ObjLoadError, Source, Step};

struct Table {
    files: Vec<(String, Option<Vec<u8>>)>,
    asked: Vec<String>,
}

impl Table {
    fn new(files: &[(&str, Option<&str>)]) -> Table {
        Table {
            files: files
                .iter()
                .map(|(path, content)| (path.to_string(), content.map(|c| c.as_bytes().to_vec())))
                .collect(),
            asked: Vec::new(),
        }
    }
}

impl Source for Table {
    fn fetch(&mut self, path: &str) -> Fetched {
        self.asked.push(path.to_string());
        for (name, content) in &self.files {
            if name == path {
                return match content {
                    Some(bytes) => Fetched::Content(bytes.clone()),
                    None => Fetched::Failed,
                };
            }
        }
        Fetched::Missing
    }
}

const TRIANGLE: &str = "v 0 0 0\nv 1 0 0\nv 0 1 0\n";

#[test]
fn a_missing_library_does_not_stop_the_model() {
    let text = format!("mtllib missing.mtl\n{}usemtl Red\nf 1 2 3\n", TRIANGLE);
    let mesh = Mesh::new_from_bytes(text.as_bytes()).unwrap();
    assert_eq!(mesh.materials().len(), 0);
    assert_eq!(mesh.positions().len(), 9);
    assert_eq!(mesh.face_vertices(), &[3]);
    assert_eq!(mesh.face_materials(), &[NO_MATERIAL]);

    let mut table = Table::new(&[("model.obj", Some(&text))]);
    let mesh = Mesh::new_with_callbacks("model.obj", &mut table).unwrap();
    assert_eq!(mesh.materials().len(), 0);
    assert_eq!(mesh.face_vertices(), &[3]);
    assert_eq!(table.asked, vec!["model.obj", "missing.mtl"]);
}

#[test]
fn a_library_that_cannot_be_read_is_passed_over() {
    let text = format!("mtllib broken.mtl\nmtllib good.mtl\n{}usemtl Red\nf 1 2 3\n", TRIANGLE);
    let mut table = Table::new(&[
        ("model.obj", Some(&text)),
        ("broken.mtl", None),
        ("good.mtl", Some("newmtl Red\n")),
    ]);
    let mesh = Mesh::new_with_callbacks("model.obj", &mut table).unwrap();
    assert_eq!(mesh.materials().len(), 1);
    assert_eq!(mesh.face_materials(), &[0]);
}

#[test]
fn a_material_is_known_from_its_library_on() {
    let library = "newmtl Unknown\nKd 1 0 0\n";
    let before = format!("{}usemtl Unknown\nf 1 2 3\nmtllib lib.mtl\nf 1 2 3\n", TRIANGLE);
    let mut table = Table::new(&[("m.obj", Some(&before)), ("lib.mtl", Some(library))]);
    let mesh = Mesh::new_with_callbacks("m.obj", &mut table).unwrap();
    assert_eq!(mesh.materials().len(), 1);
    assert_eq!(mesh.face_materials(), &[NO_MATERIAL, NO_MATERIAL]);

    let after = format!("{}mtllib lib.mtl\nusemtl Unknown\nf 1 2 3\n", TRIANGLE);
    let mut table = Table::new(&[("m.obj", Some(&after)), ("lib.mtl", Some(library))]);
    let mesh = Mesh::new_with_callbacks("m.obj", &mut table).unwrap();
    assert_eq!(mesh.materials().len(), 1);
    assert_eq!(mesh.materials()[0].name(), "Unknown");
    assert_eq!(mesh.face_materials(), &[0]);
}

#[test]
fn a_name_that_no_material_has_sets_the_material_back_to_none() {
    let text = format!(
        "mtllib lib.mtl\n{}usemtl a\nf 1 2 3\nusemtl nobody\nf 1 2 3\nusemtl b\nf 1 2 3\nusemtl\nf 1 2 3\n",
        TRIANGLE
    );
    let mut table = Table::new(&[("m.obj", Some(&text)), ("lib.mtl", Some("newmtl a\nnewmtl b\n"))]);
    let mesh = Mesh::new_with_callbacks("m.obj", &mut table).unwrap();
    assert_eq!(mesh.face_materials(), &[0, NO_MATERIAL, 1, NO_MATERIAL]);
}

#[test]
fn libraries_add_up_in_one_table() {
    let text = format!(
        "mtllib a.mtl\nmtllib b.mtl\n{}usemtl two\nf 1 2 3\nusemtl three\nf 1 2 3\nusemtl one\nf 1 2 3\n",
        TRIANGLE
    );
    let mut table = Table::new(&[
        ("m.obj", Some(&text)),
        ("a.mtl", Some("newmtl one\nnewmtl two\n")),
        ("b.mtl", Some("newmtl three\nnewmtl one\n")),
    ]);
    let mesh = Mesh::new_with_callbacks("m.obj", &mut table).unwrap();
    let names: Vec<&str> = mesh.materials().iter().map(|m| m.name()).collect();
    assert_eq!(names, vec!["one", "two", "three", "one"]);
    assert_eq!(mesh.face_materials(), &[1, 2, 0]);
}

#[test]
fn a_library_is_looked_for_in_the_folder_of_the_model() {
    let text = "mtllib cube.mtl\nmtllib sub/other.mtl more.mtl\nmtllib\n";
    let mut table = Table::new(&[("models/cube.obj", Some(text))]);
    let mesh = Mesh::new_with_callbacks("models/cube.obj", &mut table).unwrap();
    assert_eq!(mesh.materials().len(), 0);
    assert_eq!(
        table.asked,
        vec!["models/cube.obj", "models/cube.mtl", "models/sub/other.mtl"]
    );
    let mut table = Table::new(&[("c:\\m\\cube.obj", Some(text))]);
    Mesh::new_with_callbacks("c:\\m\\cube.obj", &mut table).unwrap();
    assert_eq!(table.asked[1], "c:\\m\\cube.mtl");
}

#[test]
fn a_path_with_a_zero_byte_is_invalid_and_nothing_is_fetched() {
    let mut table = Table::new(&[("a\0b.obj", Some("v 0 0 0\n"))]);
    let r = Mesh::new_with_callbacks("a\0b.obj", &mut table);
    assert_eq!(r.err(), Some(ObjLoadError::InvalidPath));
    assert!(table.asked.is_empty());
    assert!(contains_nul("\0"));
    assert!(!contains_nul("plain.obj"));
    assert!(!contains_nul(""));
}

#[test]
fn a_model_that_is_missing_is_an_invalid_path() {
    let mut table = Table::new(&[]);
    let r = Mesh::new_with_callbacks("nowhere.obj", &mut table);
    assert_eq!(r.err(), Some(ObjLoadError::InvalidPath));
    assert!(matches!(
        Loader::open("x", Fetched::Missing),
        Err(ObjLoadError::InvalidPath)
    ));
}

#[test]
fn a_model_that_cannot_be_read_fails_to_parse() {
    let mut table = Table::new(&[("broken.obj", None)]);
    let r = Mesh::new_with_callbacks("broken.obj", &mut table);
    assert_eq!(r.err(), Some(ObjLoadError::ParsingFailed));
    assert!(matches!(
        Loader::open("x", Fetched::Failed),
        Err(ObjLoadError::ParsingFailed)
    ));
}

#[test]
fn a_reader_pauses_at_each_library() {
    let text = format!("{}mtllib one.mtl\nusemtl m\nf 1 2 3\nmtllib two.mtl\nf 3 2 1\n", TRIANGLE);
    let mut loader = Loader::new(text.as_bytes(), "dir/model.obj");
    match loader.advance() {
        Ok(Step::Library(path)) => assert_eq!(path, "dir/one.mtl"),
        _ => panic!("the reader should stop for the first library"),
    }
    loader.supply(b"newmtl m\n").unwrap();
    match loader.advance() {
        Ok(Step::Library(path)) => assert_eq!(path, "dir/two.mtl"),
        _ => panic!("the reader should stop for the second library"),
    }
    loader.receive(Fetched::Missing).unwrap();
    assert!(matches!(loader.advance(), Ok(Step::Done)));
    assert!(matches!(loader.advance(), Ok(Step::Done)));
    let mesh = loader.finish();
    assert_eq!(mesh.face_materials(), &[0, 0]);
    assert_eq!(mesh.materials().len(), 1);
}

#[test]
fn a_reader_can_be_finished_early() {
    let text = format!("{}f 1 2 3\nmtllib one.mtl\nf 3 2 1\n", TRIANGLE);
    let mut loader = Loader::new(text.as_bytes(), "");
    assert!(matches!(loader.advance(), Ok(Step::Library(_))));
    let mesh = loader.finish();
    assert_eq!(mesh.face_vertices(), &[3]);
}

#[test]
fn errors_are_named_after_their_variants() {
    assert_eq!(ObjLoadError::InvalidPath.to_string(), "InvalidPath");
    assert_eq!(ObjLoadError::ParsingFailed.to_string(), "ParsingFailed");
    assert_ne!(ObjLoadError::InvalidPath, ObjLoadError::ParsingFailed);
}
