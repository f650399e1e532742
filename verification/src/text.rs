//! Names and paths: how the bytes of a word become text, and how a path is
//! taken apart.

use vstd::prelude::*;
use vstd::slice::slice_subrange;
use crate::number::POINT;
use crate::scan::{find_last, lemma_find_last, seek_last, Class};

verus! {

/// The text that `String::from_utf8_lossy` makes of `bytes`. For bytes that
/// are valid UTF-8 it is the text that they encode; otherwise each invalid
/// part is replaced by U+FFFD, in a way that is not spelled out here.
pub uninterp spec fn lossy_text(bytes: Seq<u8>) -> Seq<char>;

/// Turns the bytes of a word into text.
///
/// Calls `String::from_utf8_lossy` of the standard library. The contract
/// gives its result the name `lossy_text`, and claims what the
/// documentation of that function says of valid input: the text is the one
/// that the bytes encode.
#[verifier::external_body]
pub(crate) fn decode(bytes: &[u8]) -> (text: String)
    ensures
        text@ == lossy_text(bytes@),
        vstd::utf8::valid_utf8(bytes@) ==> text@ == vstd::utf8::decode_utf8(bytes@),
{
    String::from_utf8_lossy(bytes).into_owned()
}

/// The folder part of a path: all up to its last slash or backslash, that
/// separator included; nothing where the path has none.
pub open spec fn folder_of(path: Seq<u8>) -> Seq<u8> {
    path.take(find_last(path, path.len() as int, Class::Separator))
}

/// The file part of a path: what follows its last slash or backslash.
pub open spec fn file_of(path: Seq<u8>) -> Seq<u8> {
    path.skip(find_last(path, path.len() as int, Class::Separator))
}

/// The stem of a path: its file part without the extension. The extension
/// starts at the last point of the file part; a point that starts the file
/// part starts no extension.
pub open spec fn stem_of(path: Seq<u8>) -> Seq<u8> {
    let file = file_of(path);
    let cut = find_last(file, file.len() as int, Class::Byte(POINT));
    if cut > 1 {
        file.take(cut - 1)
    } else {
        file
    }
}

/// A path is its folder followed by its file, and the file holds no
/// separator.
pub proof fn lemma_folder_and_file(path: Seq<u8>)
    ensures
        folder_of(path) + file_of(path) == path,
        forall|i: int|
            0 <= i < file_of(path).len() ==> !Class::Separator.holds(#[trigger] file_of(path)[i]),
        folder_of(path).len() > 0 ==> Class::Separator.holds(folder_of(path).last()),
{
    lemma_find_last(path, path.len() as int, Class::Separator);
    let cut = find_last(path, path.len() as int, Class::Separator);
    assert(path.take(cut) + path.skip(cut) =~= path);
    assert forall|i: int| 0 <= i < file_of(path).len() implies !Class::Separator.holds(
        #[trigger] file_of(path)[i],
    ) by {
        assert(file_of(path)[i] == path[cut + i]);
    }
}

/// The stem of a path starts its file part, and is all of it unless a
/// point follows.
pub proof fn lemma_stem_starts_file(path: Seq<u8>)
    ensures
        stem_of(path).len() <= file_of(path).len(),
        stem_of(path) == file_of(path).take(stem_of(path).len() as int),
        stem_of(path).len() < file_of(path).len() ==> file_of(path)[stem_of(path).len() as int]
            == POINT,
{
    let file = file_of(path);
    lemma_find_last(file, file.len() as int, Class::Byte(POINT));
    assert(file.take(file.len() as int) =~= file);
}

/// The folder part of `path`.
pub fn folder(path: &[u8]) -> (r: &[u8])
    ensures
        r@ == folder_of(path@),
{
    let cut: usize = seek_last(path, Class::Separator);
    slice_subrange(path, 0, cut)
}

/// The stem of `path`.
pub fn stem(path: &[u8]) -> (r: &[u8])
    ensures
        r@ == stem_of(path@),
{
    let start: usize = seek_last(path, Class::Separator);
    let file = slice_subrange(path, start, path.len());
    let cut: usize = seek_last(file, Class::Byte(POINT));
    if cut > 1 {
        slice_subrange(file, 0, cut - 1)
    } else {
        file
    }
}

/// `a` followed by `b`.
pub fn join(a: &[u8], b: &[u8]) -> (r: Vec<u8>)
    ensures
        r@ == a@ + b@,
{
    let mut r: Vec<u8> = Vec::with_capacity(a.len());
    r.extend_from_slice(a);
    r.extend_from_slice(b);
    r
}

/// The bytes of a text of ASCII characters.
pub open spec fn ascii(text: Seq<char>) -> Seq<u8> {
    Seq::new(text.len(), |i: int| text[i] as u8)
}

/// Whether the word `w` is the keyword `text`.
pub open spec fn spells(w: Seq<u8>, text: &str) -> bool {
    w == ascii(text@)
}

/// Tests whether the word `w` is the keyword `text`.
pub fn is_word(w: &[u8], text: &str) -> (r: bool)
    requires
        text.is_ascii(),
    ensures
        r == spells(w@, text),
{
    broadcast use vstd::string::is_ascii_spec_bytes;

    same(w, text.as_bytes())
}

/// The word at place `k` of a line, or an empty word where the line has
/// fewer words.
pub open spec fn word(words: Seq<Seq<u8>>, k: int) -> Seq<u8> {
    if 0 <= k < words.len() {
        words[k]
    } else {
        Seq::empty()
    }
}

/// The word at place `k` of a line, or an empty word.
pub fn word_at<'a>(words: &[&'a [u8]], k: usize) -> (w: &'a [u8])
    ensures
        w@ == word(crate::scan::texts(words@), k as int),
{
    if k < words.len() {
        words[k]
    } else {
        let nothing: &'static [u8; 0] = &[];
        nothing.as_slice()
    }
}

/// Whether two words hold the same bytes.
pub fn same(a: &[u8], b: &[u8]) -> (r: bool)
    ensures
        r == (a@ == b@),
{
    if a.len() != b.len() {
        return false;
    }
    let mut i: usize = 0;
    while i < a.len()
        invariant
            a.len() == b.len(),
            i <= a.len(),
            forall|j: int| 0 <= j < i ==> a[j] == b[j],
        decreases a.len() - i,
    {
        if a[i] != b[i] {
            return false;
        }
        i += 1;
    }
    assert(a@ =~= b@);
    true
}

} // verus!
