//! The reader of models: line by line through the text, with a pause at
//! each line that names a material library.

use vstd::prelude::*;
use vstd::string::StringSliceAdditionalSpecFns;
use crate::assemble::Assembler;
use crate::error::ObjLoadError;
use crate::laws::lemma_read_all_materials;
use crate::material::{library_of, read_materials};
use crate::mesh::Mesh;
use crate::model::StateView;
use crate::number::{decimal_of, parse_decimal};
use crate::scan::{
    lemma_find, line_next, line_tokens, read_line, seek, texts, unfold, unfolded, Class,
};
use crate::text::{decode, folder, folder_of, is_word, join, lossy_text, spells, word, word_at};

verus! {

/// What a line of a model does, as its first word tells.
#[derive(Clone, Copy, Debug)]
pub enum Keyword {
    /// `v`: a position.
    Position,
    /// `vt`: a texture coordinate.
    TexCoord,
    /// `vn`: a normal.
    Normal,
    /// `f`: a polygon.
    Face,
    /// `o`: the name of an object.
    Object,
    /// `g`: the name of a group.
    Group,
    /// `usemtl`: the choice of a material.
    UseMaterial,
    /// `mtllib`: the path of a material library.
    Library,
    /// Any other line: it is passed over.
    Other,
}

/// What a line does whose first word is `w`.
pub open spec fn keyword_of(w: Seq<u8>) -> Keyword {
    if spells(w, "v") {
        Keyword::Position
    } else if spells(w, "vt") {
        Keyword::TexCoord
    } else if spells(w, "vn") {
        Keyword::Normal
    } else if spells(w, "f") {
        Keyword::Face
    } else if spells(w, "o") {
        Keyword::Object
    } else if spells(w, "g") {
        Keyword::Group
    } else if spells(w, "usemtl") {
        Keyword::UseMaterial
    } else if spells(w, "mtllib") {
        Keyword::Library
    } else {
        Keyword::Other
    }
}

/// Tells what a line does whose first word is `w`.
pub fn keyword(w: &[u8]) -> (k: Keyword)
    ensures
        k == keyword_of(w@),
{
    proof {
        reveal_strlit("v");
        reveal_strlit("vt");
        reveal_strlit("vn");
        reveal_strlit("f");
        reveal_strlit("o");
        reveal_strlit("g");
        reveal_strlit("usemtl");
        reveal_strlit("mtllib");
    }
    if is_word(w, "v") {
        Keyword::Position
    } else if is_word(w, "vt") {
        Keyword::TexCoord
    } else if is_word(w, "vn") {
        Keyword::Normal
    } else if is_word(w, "f") {
        Keyword::Face
    } else if is_word(w, "o") {
        Keyword::Object
    } else if is_word(w, "g") {
        Keyword::Group
    } else if is_word(w, "usemtl") {
        Keyword::UseMaterial
    } else if is_word(w, "mtllib") {
        Keyword::Library
    } else {
        Keyword::Other
    }
}

/// The state after the line with the words `words`; `None` where the mesh
/// has no room for what the line adds. Numbers that a line leaves out are
/// 0, and numbers beyond those it needs are not read. A name is the first
/// word after the keyword, and is empty where there is none. A line that
/// names a library changes nothing by itself.
pub open spec fn obj_step(st: StateView, words: Seq<Seq<u8>>) -> Option<StateView> {
    if words.len() == 0 {
        Some(st)
    } else {
        match keyword_of(words[0]) {
            Keyword::Position => st.add_position(
                decimal_of(word(words, 1)),
                decimal_of(word(words, 2)),
                decimal_of(word(words, 3)),
            ),
            Keyword::TexCoord => st.add_texcoord(
                decimal_of(word(words, 1)),
                decimal_of(word(words, 2)),
            ),
            Keyword::Normal => st.add_normal(
                decimal_of(word(words, 1)),
                decimal_of(word(words, 2)),
                decimal_of(word(words, 3)),
            ),
            Keyword::Face => st.add_face(words.skip(1)),
            Keyword::Object => Some(st.set_object(lossy_text(word(words, 1)))),
            Keyword::Group => Some(st.set_group(lossy_text(word(words, 1)))),
            Keyword::UseMaterial => Some(st.use_material(lossy_text(word(words, 1)))),
            Keyword::Library => Some(st),
            Keyword::Other => Some(st),
        }
    }
}

/// The library that the line with the words `words` names: the first word
/// after `mtllib`.
pub open spec fn requested(words: Seq<Seq<u8>>) -> Option<Seq<u8>> {
    if words.len() >= 2 && keyword_of(words[0]) == Keyword::Library {
        Some(words[1])
    } else {
        None
    }
}

/// Where a reader stops: the state there, the start of the next line, and
/// the library that the last line named, if it stops for one.
pub struct Pause {
    pub state: StateView,
    pub cursor: int,
    pub request: Option<Seq<u8>>,
}

/// Reads the lines of `text` from `from` on, up to and including the first
/// line that names a library, or up to the end. `None` where the mesh ran
/// out of room on the way.
pub open spec fn run(st: StateView, text: Seq<u8>, from: int) -> Option<Pause>
    decreases text.len() - from,
{
    if 0 <= from < text.len() {
        let words = line_tokens(text, from);
        let next = line_next(text, from);
        proof {
            lemma_find(text, from, text.len() as int, Class::Newline);
        }
        match obj_step(st, words) {
            None => None,
            Some(after) => if requested(words) is Some {
                Some(Pause { state: after, cursor: next, request: requested(words) })
            } else {
                run(after, text, next)
            },
        }
    } else {
        Some(Pause { state: st, cursor: from, request: None })
    }
}

/// Reads all lines of `text` from `from` on, with no library at hand: a
/// line that names one is passed over. `None` where the mesh ran out of
/// room on the way.
pub open spec fn read_all(st: StateView, text: Seq<u8>, from: int) -> Option<StateView>
    decreases text.len() - from,
{
    if 0 <= from < text.len() {
        proof {
            lemma_find(text, from, text.len() as int, Class::Newline);
        }
        match obj_step(st, line_tokens(text, from)) {
            None => None,
            Some(after) => read_all(after, text, line_next(text, from)),
        }
    } else {
        Some(st)
    }
}

/// Whether `after` is what a reader may hold once it was answered for a
/// library that it stopped for in the state `before`: the same state, where
/// the library was passed over, or that state with the materials of some
/// library added.
pub open spec fn answered(before: StateView, after: StateView) -> bool {
    ||| after == before
    ||| exists|library: Seq<u8>|
        before.add_materials(#[trigger] library_of(library)) == Some(after)
}

/// A run stops behind where it started unless it started at the end, it
/// stops at the end unless it stops for a library, and reading all lines is
/// reading up to the pause and reading all lines from there.
pub proof fn lemma_run(st: StateView, text: Seq<u8>, from: int)
    requires
        0 <= from <= text.len(),
    ensures
        match run(st, text, from) {
            None => read_all(st, text, from) is None,
            Some(p) => {
                &&& read_all(st, text, from) == read_all(p.state, text, p.cursor)
                &&& from <= p.cursor <= text.len()
                &&& p.request is Some ==> from < p.cursor
                &&& p.request is None ==> p.cursor == text.len()
            },
        },
    decreases text.len() - from,
{
    if from < text.len() {
        let words = line_tokens(text, from);
        let next = line_next(text, from);
        lemma_find(text, from, text.len() as int, Class::Newline);
        match obj_step(st, words) {
            None => {},
            Some(after) => {
                if requested(words) is None {
                    lemma_run(after, text, next);
                }
            },
        }
    }
}

/// Takes one line of a model into account. Tells whether the line names a
/// library.
fn obj_line(assembler: &mut Assembler, words: &[&[u8]]) -> (r: Result<bool, ObjLoadError>)
    requires
        old(assembler).inv(),
    ensures
        final(assembler).inv(),
        match obj_step(old(assembler)@, texts(words@)) {
            Some(s) => final(assembler)@ == s && r == Ok::<bool, ObjLoadError>(
                requested(texts(words@)) is Some,
            ),
            None => r == Err::<bool, ObjLoadError>(ObjLoadError::ParsingFailed),
        },
{
    if words.len() == 0 {
        return Ok(false);
    }
    match keyword(words[0]) {
        Keyword::Position => {
            let x = parse_decimal(word_at(words, 1));
            let y = parse_decimal(word_at(words, 2));
            let z = parse_decimal(word_at(words, 3));
            match assembler.position(x, y, z) {
                Ok(()) => Ok(false),
                Err(e) => Err(e),
            }
        },
        Keyword::TexCoord => {
            let u = parse_decimal(word_at(words, 1));
            let v = parse_decimal(word_at(words, 2));
            match assembler.texcoord(u, v) {
                Ok(()) => Ok(false),
                Err(e) => Err(e),
            }
        },
        Keyword::Normal => {
            let x = parse_decimal(word_at(words, 1));
            let y = parse_decimal(word_at(words, 2));
            let z = parse_decimal(word_at(words, 3));
            match assembler.normal(x, y, z) {
                Ok(()) => Ok(false),
                Err(e) => Err(e),
            }
        },
        Keyword::Face => {
            let corners = vstd::slice::slice_subrange(words, 1, words.len());
            assert(texts(corners@) =~= texts(words@).skip(1));
            match assembler.face(corners) {
                Ok(()) => Ok(false),
                Err(e) => Err(e),
            }
        },
        Keyword::Object => {
            assembler.set_object(word_at(words, 1));
            Ok(false)
        },
        Keyword::Group => {
            assembler.set_group(word_at(words, 1));
            Ok(false)
        },
        Keyword::UseMaterial => {
            assembler.use_material(word_at(words, 1));
            Ok(false)
        },
        Keyword::Library => Ok(words.len() >= 2),
        Keyword::Other => Ok(false),
    }
}

/// What a reader needs next.
#[derive(Debug)]
pub enum Step {
    /// The material library at this path. The reader goes on when it was
    /// supplied, and also when it was not.
    Library(String),
    /// Nothing: the model was read to its end.
    Done,
}

/// What a source gave when it was asked for a file.
#[derive(Debug)]
pub enum Fetched {
    /// The whole content of the file.
    Content(Vec<u8>),
    /// There is no such file, or it cannot be opened.
    Missing,
    /// The file was opened and could not be read to its end.
    Failed,
}

/// Where models and their libraries come from: a folder on a disk, an
/// archive, a table in memory.
pub trait Source {
    /// Fetches the file at `path`.
    fn fetch(&mut self, path: &str) -> Fetched;
}

/// Whether a path holds a zero byte. Such a path names no file.
pub open spec fn has_nul(path: Seq<u8>) -> bool {
    path.contains(0u8)
}

/// Tests whether `path` holds a zero byte.
pub fn contains_nul(path: &str) -> (r: bool)
    ensures
        r == has_nul(path.spec_bytes()),
{
    let bytes = path.as_bytes();
    let at: usize = seek(bytes, 0, bytes.len(), Class::Byte(0));
    proof {
        lemma_find(bytes@, 0, bytes.len() as int, Class::Byte(0));
        if at < bytes.len() {
            assert(bytes@[at as int] == 0u8);
        } else {
            assert forall|j: int| 0 <= j < bytes@.len() implies bytes@[j] != 0u8 by {
                assert(!Class::Byte(0).holds(bytes@[j]));
            }
        }
    }
    at < bytes.len()
}

/// A reader in the middle of a model.
pub struct Loader {
    text: Vec<u8>,
    cursor: usize,
    folder: Vec<u8>,
    assembler: Assembler,
}

impl Loader {
    /// The text of the model, with its continued lines unfolded.
    pub closed spec fn text(&self) -> Seq<u8> {
        self.text@
    }

    /// Where the next line starts.
    pub closed spec fn cursor(&self) -> int {
        self.cursor as int
    }

    /// The folder of the model, in which its libraries are looked for.
    pub closed spec fn folder(&self) -> Seq<u8> {
        self.folder@
    }

    /// The state that the lines read so far have led to.
    pub closed spec fn state(&self) -> StateView {
        self.assembler@
    }

    /// What holds of a reader between calls.
    pub closed spec fn inv(&self) -> bool {
        &&& self.cursor <= self.text.len()
        &&& self.assembler.inv()
    }

    /// The state of a reader that is in order is well formed, and its
    /// cursor lies within its text.
    pub proof fn lemma_inv(&self)
        requires
            self.inv(),
        ensures
            self.state().wf(),
            0 <= self.cursor() <= self.text().len(),
    {
        self.assembler.lemma_inv();
    }

    /// A reader at the start of the model `source`, which was found at
    /// `path`.
    pub fn new(source: &[u8], path: &str) -> (l: Loader)
        ensures
            l.inv(),
            l.text() == unfold(source@),
            l.cursor() == 0,
            l.folder() == folder_of(path.spec_bytes()),
            l.state() == StateView::start(),
    {
        Loader {
            text: unfolded(source),
            cursor: 0,
            folder: vstd::slice::slice_to_vec(folder(path.as_bytes())),
            assembler: Assembler::sized(source.len()),
        }
    }

    /// A reader at the start of the model that a source gave for `path`. A
    /// model that is missing gives `InvalidPath`, one that could not be
    /// read gives `ParsingFailed`.
    pub fn open(path: &str, fetched: Fetched) -> (r: Result<Loader, ObjLoadError>)
        ensures
            match fetched {
                Fetched::Content(source) => r matches Ok(l) && {
                    &&& l.inv()
                    &&& l.text() == unfold(source@)
                    &&& l.cursor() == 0
                    &&& l.folder() == folder_of(path.spec_bytes())
                    &&& l.state() == StateView::start()
                },
                Fetched::Missing => r matches Err(e) && e == ObjLoadError::InvalidPath,
                Fetched::Failed => r matches Err(e) && e == ObjLoadError::ParsingFailed,
            },
    {
        match fetched {
            Fetched::Content(source) => Ok(Loader::new(source.as_slice(), path)),
            Fetched::Missing => Err(ObjLoadError::InvalidPath),
            Fetched::Failed => Err(ObjLoadError::ParsingFailed),
        }
    }

    /// Reads on, up to and including the next line that names a library,
    /// or to the end of the model.
    pub fn advance(&mut self) -> (r: Result<Step, ObjLoadError>)
        requires
            old(self).inv(),
        ensures
            final(self).inv(),
            final(self).text() == old(self).text(),
            final(self).folder() == old(self).folder(),
            match run(old(self).state(), old(self).text(), old(self).cursor()) {
                None => r == Err::<Step, ObjLoadError>(ObjLoadError::ParsingFailed),
                Some(p) => {
                    &&& final(self).state() == p.state
                    &&& final(self).cursor() == p.cursor
                    &&& match p.request {
                        Some(w) => r matches Ok(Step::Library(path)) && path@ == lossy_text(
                            old(self).folder() + w,
                        ),
                        None => r matches Ok(Step::Done),
                    }
                },
            },
    {
        while self.cursor < self.text.len()
            invariant
                self.inv(),
                self.text() == old(self).text(),
                self.folder() == old(self).folder(),
                run(old(self).state(), old(self).text(), old(self).cursor()) == run(
                    self.state(),
                    self.text(),
                    self.cursor(),
                ),
            decreases self.text.len() - self.cursor,
        {
            let (words, next) = read_line(self.text.as_slice(), self.cursor);
            let names_library: bool = match obj_line(&mut self.assembler, words.as_slice()) {
                Ok(b) => b,
                Err(e) => {
                    return Err(e);
                },
            };
            self.cursor = next;
            if names_library {
                let path: Vec<u8> = join(self.folder.as_slice(), words[1]);
                return Ok(Step::Library(decode(path.as_slice())));
            }
        }
        Ok(Step::Done)
    }

    /// Adds the materials of the library `library` to the mesh.
    pub fn supply(&mut self, library: &[u8]) -> (r: Result<(), ObjLoadError>)
        requires
            old(self).inv(),
        ensures
            final(self).inv(),
            final(self).text() == old(self).text(),
            final(self).folder() == old(self).folder(),
            final(self).cursor() == old(self).cursor(),
            match old(self).state().add_materials(library_of(library@)) {
                Some(s) => r is Ok && final(self).state() == s,
                None => {
                    &&& r == Err::<(), ObjLoadError>(ObjLoadError::ParsingFailed)
                    &&& final(self).state() == old(self).state()
                },
            },
    {
        self.assembler.add_materials(read_materials(library))
    }

    /// Takes what a source gave for a library: its materials are added to
    /// the mesh, and a library that is missing or could not be read is
    /// passed over.
    pub fn receive(&mut self, fetched: Fetched) -> (r: Result<(), ObjLoadError>)
        requires
            old(self).inv(),
        ensures
            final(self).inv(),
            final(self).text() == old(self).text(),
            final(self).folder() == old(self).folder(),
            final(self).cursor() == old(self).cursor(),
            match fetched {
                Fetched::Content(library) => match old(self).state().add_materials(
                    library_of(library@),
                ) {
                    Some(s) => r is Ok && final(self).state() == s,
                    None => {
                        &&& r == Err::<(), ObjLoadError>(ObjLoadError::ParsingFailed)
                        &&& final(self).state() == old(self).state()
                    },
                },
                _ => r is Ok && final(self).state() == old(self).state(),
            },
    {
        match fetched {
            Fetched::Content(library) => self.supply(library.as_slice()),
            _ => Ok(()),
        }
    }

    /// Hands out the mesh that the lines read so far have made.
    pub fn finish(self) -> (m: Mesh)
        requires
            self.inv(),
        ensures
            m@ == self.state().mesh,
            m@.wf(),
    {
        self.assembler.finish()
    }
}

impl Mesh {
    /// Reads a model from memory. No library is at hand, so the mesh has no
    /// materials. `ParsingFailed` where the mesh ran out of room.
    pub fn new_from_bytes(bytes: &[u8]) -> (r: Result<Mesh, ObjLoadError>)
        ensures
            match read_all(StateView::start(), unfold(bytes@), 0) {
                Some(s) => r matches Ok(m) && m@ == s.mesh && m@.wf() && m@.materials.len() == 0,
                None => r matches Err(e) && e == ObjLoadError::ParsingFailed,
            },
    {
        let mut loader = Loader::new(bytes, "");
        loop
            invariant
                loader.inv(),
                loader.text() == unfold(bytes@),
                read_all(StateView::start(), unfold(bytes@), 0) == read_all(
                    loader.state(),
                    loader.text(),
                    loader.cursor(),
                ),
            decreases loader.text().len() - loader.cursor(),
        {
            match pass(&mut loader) {
                Err(e) => {
                    return Err(e);
                },
                Ok(true) => {
                    proof {
                        lemma_read_all_materials(StateView::start(), unfold(bytes@), 0);
                    }
                    return Ok(loader.finish());
                },
                Ok(false) => {},
            }
        }
    }

    /// Reads the model at `path` from `source`, with the libraries that it
    /// names, which are looked for in the folder of the model. A path with
    /// a zero byte gives `InvalidPath` and the source is not asked. What
    /// comes of each answer of the source is what `Loader::open`,
    /// `Loader::advance` and `Loader::receive` say.
    pub fn new_with_callbacks<S: Source>(path: &str, source: &mut S) -> (r: Result<
        Mesh,
        ObjLoadError,
    >)
        ensures
            has_nul(path.spec_bytes()) ==> (r matches Err(e) && e == ObjLoadError::InvalidPath),
            r matches Ok(m) ==> m@.wf(),
    {
        if contains_nul(path) {
            return Err(ObjLoadError::InvalidPath);
        }
        let mut loader = match Loader::open(path, source.fetch(path)) {
            Ok(l) => l,
            Err(e) => {
                return Err(e);
            },
        };
        loop
            invariant
                loader.inv(),
                !has_nul(path.spec_bytes()),
            decreases loader.text().len() - loader.cursor(),
        {
            match round(&mut loader, source) {
                Err(e) => {
                    return Err(e);
                },
                Ok(true) => {
                    return Ok(loader.finish());
                },
                Ok(false) => {},
            }
        }
    }
}

/// Reads on, and passes over the library that the reader stopped for. Tells
/// whether the model was read to its end.
fn pass(loader: &mut Loader) -> (r: Result<bool, ObjLoadError>)
    requires
        old(loader).inv(),
    ensures
        final(loader).inv(),
        final(loader).text() == old(loader).text(),
        match r {
            Err(e) => e == ObjLoadError::ParsingFailed && read_all(
                old(loader).state(),
                old(loader).text(),
                old(loader).cursor(),
            ) is None,
            Ok(done) => {
                &&& read_all(old(loader).state(), old(loader).text(), old(loader).cursor())
                    == read_all(final(loader).state(), final(loader).text(), final(loader).cursor())
                &&& done ==> read_all(
                    final(loader).state(),
                    final(loader).text(),
                    final(loader).cursor(),
                ) == Some(final(loader).state())
                &&& !done ==> old(loader).cursor() < final(loader).cursor()
                &&& final(loader).cursor() <= final(loader).text().len()
            },
        },
{
    proof {
        loader.lemma_inv();
        lemma_run(loader.state(), loader.text(), loader.cursor());
    }
    match loader.advance() {
        Err(e) => Err(e),
        Ok(Step::Done) => Ok(true),
        Ok(Step::Library(_)) => Ok(false),
    }
}

/// Reads on, and asks `source` for the library that the reader stopped
/// for. Tells whether the model was read to its end.
///
/// Where the reader comes to the end of the model, the source is not asked
/// and the result is `Ok(true)`. Where the mesh runs out of room on the
/// way, the result is `ParsingFailed`. Where the reader stops for a
/// library, the source decides: the reader stands behind the line that
/// names the library, with the materials of what the source gave added or
/// with none, and the result is `Ok(false)`, or `ParsingFailed` where
/// there was no room for the materials.
fn round<S: Source>(loader: &mut Loader, source: &mut S) -> (r: Result<bool, ObjLoadError>)
    requires
        old(loader).inv(),
    ensures
        final(loader).inv(),
        final(loader).text() == old(loader).text(),
        final(loader).folder() == old(loader).folder(),
        match run(old(loader).state(), old(loader).text(), old(loader).cursor()) {
            None => r == Err::<bool, ObjLoadError>(ObjLoadError::ParsingFailed),
            Some(p) => {
                &&& final(loader).cursor() == p.cursor
                &&& match p.request {
                    None => r == Ok::<bool, ObjLoadError>(true) && final(loader).state()
                        == p.state,
                    Some(_) => {
                        &&& answered(p.state, final(loader).state())
                        &&& r matches Err(e) ==> e == ObjLoadError::ParsingFailed
                        &&& r matches Ok(done) ==> !done
                        &&& r is Err ==> final(loader).state() == p.state
                    },
                }
            },
        },
        r == Ok::<bool, ObjLoadError>(false) ==> old(loader).cursor() < final(loader).cursor()
            <= final(loader).text().len(),
{
    proof {
        loader.lemma_inv();
        lemma_run(loader.state(), loader.text(), loader.cursor());
    }
    match loader.advance() {
        Err(e) => Err(e),
        Ok(Step::Done) => Ok(true),
        Ok(Step::Library(library)) => {
            let ghost paused = loader.state();
            let fetched = source.fetch(library.as_str());
            let ghost answer = fetched;
            let r = loader.receive(fetched);
            proof {
                if let Fetched::Content(content) = answer {
                    if let Some(s) = paused.add_materials(library_of(content@)) {
                        assert(paused.add_materials(library_of(content@)) == Some(
                            loader.state(),
                        ));
                    }
                }
            }
            match r {
                Err(e) => Err(e),
                Ok(()) => Ok(false),
            }
        },
    }
}

} // verus!
