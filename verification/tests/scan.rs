use fast_obj::scan::{read_line, seek, seek_last, split, unfolded};
use fast_obj::text::{folder, is_word, join, same, stem, word_at};
use fast_obj::Class;

#[test]
fn continued_lines_are_unfolded_into_spaces() {
    assert_eq!(unfolded(b"f 1 2 \\\n3\n"), b"f 1 2   3\n".to_vec());
    assert_eq!(unfolded(b"a\\\r\nb"), b"a   b".to_vec());
    assert_eq!(unfolded(b"a\\\rb"), b"a  b".to_vec());
    assert_eq!(unfolded(b"a\\\n\nb"), b"a  \nb".to_vec());
    assert_eq!(unfolded(b"a\\\r\rb"), b"a  \rb".to_vec());
}

#[test]
fn a_backslash_elsewhere_stays() {
    assert_eq!(unfolded(b"a\\b\n"), b"a\\b\n".to_vec());
    assert_eq!(unfolded(b"\\\\x"), b"\\\\x".to_vec());
    assert_eq!(unfolded(b""), Vec::<u8>::new());
    assert_eq!(unfolded(b"\n\r\n"), b"\n\r\n".to_vec());
}

#[test]
fn a_backslash_that_ends_the_text_is_dropped() {
    assert_eq!(unfolded(b"v 1 2 3 \\"), b"v 1 2 3  ".to_vec());
    assert_eq!(unfolded(b"\\"), b" ".to_vec());
}

#[test]
fn words_are_runs_between_blanks() {
    let line = b"  v  1.0\t2 ";
    let words = split(line, 0, line.len());
    assert_eq!(words, vec![&b"v"[..], &b"1.0"[..], &b"2"[..]]);
    assert!(split(b"   \t ", 0, 5).is_empty());
    assert!(split(b"", 0, 0).is_empty());
    assert_eq!(split(b"abc", 0, 3), vec![&b"abc"[..]]);
    assert_eq!(split(b"ab cd ef", 1, 7), vec![&b"b"[..], &b"cd"[..], &b"e"[..]]);
}

#[test]
fn a_line_ends_at_its_break_and_is_read_up_to_its_comment() {
    let text = b"v 1 2 3 # c\nf 1";
    let (words, next) = read_line(text, 0);
    assert_eq!(words, vec![&b"v"[..], &b"1"[..], &b"2"[..], &b"3"[..]]);
    assert_eq!(next, 12);
    let (words, next) = read_line(text, 12);
    assert_eq!(words, vec![&b"f"[..], &b"1"[..]]);
    assert_eq!(next, 15);
}

#[test]
fn there_is_no_line_at_the_end_of_the_text() {
    let text = b"a b";
    let (words, next) = read_line(text, 3);
    assert!(words.is_empty());
    assert_eq!(next, 3);
}

#[test]
fn carriage_returns_end_lines_too() {
    let text = b"a\r\nb\rc";
    let (words, next) = read_line(text, 0);
    assert_eq!(words, vec![&b"a"[..]]);
    assert_eq!(next, 2);
    let (words, next) = read_line(text, 2);
    assert!(words.is_empty());
    assert_eq!(next, 3);
    let (words, next) = read_line(text, 3);
    assert_eq!(words, vec![&b"b"[..]]);
    assert_eq!(next, 5);
    let (words, next) = read_line(text, 5);
    assert_eq!(words, vec![&b"c"[..]]);
    assert_eq!(next, 6);
}

#[test]
fn a_comment_takes_the_rest_of_its_line() {
    let text = b"# all of it\nusemtl a#b c\n";
    let (words, next) = read_line(text, 0);
    assert!(words.is_empty());
    assert_eq!(next, 12);
    let (words, _) = read_line(text, 12);
    assert_eq!(words, vec![&b"usemtl"[..], &b"a"[..]]);
}

#[test]
fn seeking_stops_at_the_first_byte_of_a_class() {
    let text = b"ab 12\tc/d\\e\n";
    assert_eq!(seek(text, 0, text.len(), Class::Blank), 2);
    assert_eq!(seek(text, 2, text.len(), Class::Visible), 3);
    assert_eq!(seek(text, 3, text.len(), Class::NonDigit), 5);
    assert_eq!(seek(text, 0, text.len(), Class::Newline), 11);
    assert_eq!(seek(text, 0, text.len(), Class::Separator), 7);
    assert_eq!(seek(text, 0, text.len(), Class::Byte(b'c')), 6);
    assert_eq!(seek(text, 0, 5, Class::Byte(b'c')), 5);
    assert_eq!(seek(text, 4, 4, Class::Blank), 4);
    assert_eq!(seek_last(text, Class::Separator), 10);
    assert_eq!(seek_last(text, Class::Byte(b'z')), 0);
    assert_eq!(seek_last(text, Class::Byte(b'a')), 1);
    assert!(Class::Newline.test(13));
    assert!(!Class::Newline.test(32));
    assert!(Class::Visible.test(b'#'));
    assert!(!Class::Visible.test(9));
}

#[test]
fn paths_part_into_folder_and_stem() {
    assert_eq!(folder(b"models/a.obj"), b"models/");
    assert_eq!(folder(b"a.obj"), b"");
    assert_eq!(folder(b"c:\\models\\a.obj"), b"c:\\models\\");
    assert_eq!(folder(b"a/b/"), b"a/b/");
    assert_eq!(stem(b"textures/wood.png"), b"wood");
    assert_eq!(stem(b"a\\b\\c.d.e"), b"c.d");
    assert_eq!(stem(b".hidden"), b".hidden");
    assert_eq!(stem(b"dir/.hidden.txt"), b".hidden");
    assert_eq!(stem(b"noext"), b"noext");
    assert_eq!(stem(b"dir.d/noext"), b"noext");
    assert_eq!(stem(b"a."), b"a");
    assert_eq!(stem(b""), b"");
}

#[test]
fn words_are_compared_byte_by_byte() {
    assert!(same(b"abc", b"abc"));
    assert!(!same(b"abc", b"abd"));
    assert!(!same(b"abc", b"ab"));
    assert!(same(b"", b""));
    assert!(is_word(b"usemtl", "usemtl"));
    assert!(!is_word(b"usemtl", "usemt"));
    assert!(!is_word(b"v", "vt"));
    assert_eq!(join(b"ab/", b"c.mtl"), b"ab/c.mtl".to_vec());
    let words = [&b"g"[..], &b"name"[..]];
    assert_eq!(word_at(&words, 1), b"name");
    assert_eq!(word_at(&words, 2), b"");
}
