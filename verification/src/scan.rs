//! Bytes, lines and words: the lowest layer of the reader.

use vstd::prelude::*;
use vstd::slice::slice_subrange;

verus! {

/// The horizontal tab.
pub const TAB: u8 = 9;

/// The line feed.
pub const LINE_FEED: u8 = 10;

/// The carriage return.
pub const CARRIAGE_RETURN: u8 = 13;

/// The space.
pub const SPACE: u8 = 32;

/// `#`, which starts a comment.
pub const HASH: u8 = 35;

/// `/`, which parts the fields of a corner and the folders of a path.
pub const SLASH: u8 = 47;

/// `\`, which continues a line and parts the folders of a path.
pub const BACKSLASH: u8 = 92;

/// A line feed or a carriage return: either one ends a line.
pub open spec fn is_newline(b: u8) -> bool {
    b == LINE_FEED || b == CARRIAGE_RETURN
}

/// A space or a tab: what separates the words of a line.
pub open spec fn is_blank(b: u8) -> bool {
    b == SPACE || b == TAB
}

/// A decimal digit.
pub open spec fn is_digit(b: u8) -> bool {
    48 <= b <= 57
}

/// A set of bytes that the scanner can be asked to stop at.
#[derive(Clone, Copy, Debug)]
pub enum Class {
    /// A line feed or a carriage return.
    Newline,
    /// A space or a tab.
    Blank,
    /// Any byte that is not a blank.
    Visible,
    /// Any byte that is not a decimal digit.
    NonDigit,
    /// A slash or a backslash, which part the folders of a path.
    Separator,
    /// The given byte and no other.
    Byte(u8),
}

impl Class {
    /// Whether `b` belongs to the class.
    pub open spec fn holds(self, b: u8) -> bool {
        match self {
            Class::Newline => is_newline(b),
            Class::Blank => is_blank(b),
            Class::Visible => !is_blank(b),
            Class::NonDigit => !is_digit(b),
            Class::Separator => b == SLASH || b == BACKSLASH,
            Class::Byte(x) => b == x,
        }
    }

    /// Tests whether `b` belongs to the class.
    pub fn test(&self, b: u8) -> (r: bool)
        ensures
            r == self.holds(b),
    {
        match self {
            Class::Newline => b == LINE_FEED || b == CARRIAGE_RETURN,
            Class::Blank => b == SPACE || b == TAB,
            Class::Visible => !(b == SPACE || b == TAB),
            Class::NonDigit => !(48 <= b && b <= 57),
            Class::Separator => b == SLASH || b == BACKSLASH,
            Class::Byte(x) => b == *x,
        }
    }
}

/// The first position in `from..to` whose byte belongs to `class`, or `to`
/// where there is none.
pub open spec fn find(s: Seq<u8>, from: int, to: int, class: Class) -> int
    decreases to - from,
{
    if from >= to {
        to
    } else if class.holds(s[from]) {
        from
    } else {
        find(s, from + 1, to, class)
    }
}

/// What `find` returns lies in `from..=to`, no byte before it belongs to the
/// class, and the byte at it does, unless it is `to`.
pub proof fn lemma_find(s: Seq<u8>, from: int, to: int, class: Class)
    requires
        0 <= from <= to <= s.len(),
    ensures
        from <= find(s, from, to, class) <= to,
        forall|j: int| from <= j < find(s, from, to, class) ==> !class.holds(#[trigger] s[j]),
        find(s, from, to, class) < to ==> class.holds(s[find(s, from, to, class)]),
    decreases to - from,
{
    if from < to && !class.holds(s[from]) {
        lemma_find(s, from + 1, to, class);
    }
}

/// A position that no byte of the class precedes, and that holds one or is
/// `to`, is the position that `find` returns.
pub proof fn lemma_find_is(s: Seq<u8>, from: int, to: int, class: Class, at: int)
    requires
        0 <= from <= at <= to <= s.len(),
        forall|j: int| from <= j < at ==> !class.holds(#[trigger] s[j]),
        at < to ==> class.holds(s[at]),
    ensures
        find(s, from, to, class) == at,
    decreases at - from,
{
    if from < at {
        lemma_find_is(s, from + 1, to, class, at);
    }
}

/// Looks in `s[from..to]` for the first byte of `class`.
pub fn seek(s: &[u8], from: usize, to: usize, class: Class) -> (at: usize)
    requires
        from <= to <= s.len(),
    ensures
        at == find(s@, from as int, to as int, class),
        from <= at <= to,
{
    let mut i: usize = from;
    while i < to && !class.test(s[i])
        invariant
            from <= i <= to <= s.len(),
            find(s@, from as int, to as int, class) == find(s@, i as int, to as int, class),
        decreases to - i,
    {
        i += 1;
    }
    i
}

/// One more than the last position below `to` whose byte belongs to
/// `class`, or 0 where there is none: the length of what ends with the last
/// such byte.
pub open spec fn find_last(s: Seq<u8>, to: int, class: Class) -> int
    decreases to,
{
    if to <= 0 {
        0
    } else if class.holds(s[to - 1]) {
        to
    } else {
        find_last(s, to - 1, class)
    }
}

/// What `find_last` returns lies in `0..=to`, no byte from it on belongs to
/// the class, and the byte before it does, unless it is 0.
pub proof fn lemma_find_last(s: Seq<u8>, to: int, class: Class)
    requires
        0 <= to <= s.len(),
    ensures
        0 <= find_last(s, to, class) <= to,
        forall|j: int| find_last(s, to, class) <= j < to ==> !class.holds(#[trigger] s[j]),
        find_last(s, to, class) > 0 ==> class.holds(s[find_last(s, to, class) - 1]),
    decreases to,
{
    if to > 0 && !class.holds(s[to - 1]) {
        lemma_find_last(s, to - 1, class);
    }
}

/// Looks in `s` for the last byte of `class` and returns the position
/// after it, or 0.
pub fn seek_last(s: &[u8], class: Class) -> (at: usize)
    ensures
        at == find_last(s@, s.len() as int, class),
        at <= s.len(),
{
    let mut i: usize = s.len();
    while i > 0 && !class.test(s[i - 1])
        invariant
            i <= s.len(),
            find_last(s@, s.len() as int, class) == find_last(s@, i as int, class),
        decreases i,
    {
        i -= 1;
    }
    i
}

/// The words of `s[from..to]`: its maximal runs of bytes that are not blank,
/// from left to right.
pub open spec fn tokens(s: Seq<u8>, from: int, to: int) -> Seq<Seq<u8>>
    decreases to - from,
{
    let start = find(s, from, to, Class::Visible);
    let end = find(s, start, to, Class::Blank);
    if 0 <= from && start < to && to <= s.len() {
        proof {
            lemma_find(s, from, to, Class::Visible);
            lemma_find(s, start, to, Class::Blank);
        }
        seq![s.subrange(start, end)] + tokens(s, end, to)
    } else {
        Seq::empty()
    }
}

/// The contents of a list of borrowed words.
pub open spec fn texts(words: Seq<&[u8]>) -> Seq<Seq<u8>> {
    words.map_values(|w: &[u8]| w@)
}

/// Leading blanks change nothing: the words from `from` are the words from
/// the first visible byte.
pub proof fn lemma_tokens_skip_blanks(s: Seq<u8>, from: int, to: int)
    requires
        0 <= from <= to <= s.len(),
    ensures
        tokens(s, from, to) == tokens(s, find(s, from, to, Class::Visible), to),
{
    let start = find(s, from, to, Class::Visible);
    lemma_find(s, from, to, Class::Visible);
    lemma_find_is(s, start, to, Class::Visible, start);
}

/// What a word is: at least one byte, and no blank among its bytes.
pub open spec fn is_visible(w: Seq<u8>) -> bool {
    &&& w.len() > 0
    &&& forall|i: int| 0 <= i < w.len() ==> !is_blank(#[trigger] w[i])
}

/// Every word of a line is a word: it is not empty and holds no blank.
pub proof fn lemma_tokens_visible(s: Seq<u8>, from: int, to: int)
    requires
        0 <= from <= to <= s.len(),
    ensures
        forall|k: int|
            0 <= k < tokens(s, from, to).len() ==> is_visible(#[trigger] tokens(s, from, to)[k]),
    decreases to - from,
{
    let start = find(s, from, to, Class::Visible);
    let end = find(s, start, to, Class::Blank);
    lemma_find(s, from, to, Class::Visible);
    if start < to {
        lemma_find(s, start, to, Class::Blank);
        lemma_tokens_visible(s, end, to);
        let rest = tokens(s, end, to);
        let first = s.subrange(start, end);
        assert(is_visible(first)) by {
            assert forall|i: int| 0 <= i < first.len() implies !is_blank(#[trigger] first[i]) by {
                assert(!Class::Blank.holds(s[start + i]));
            }
        }
        assert forall|k: int| 0 <= k < tokens(s, from, to).len() implies is_visible(
            #[trigger] tokens(s, from, to)[k],
        ) by {
            if k > 0 {
                assert(tokens(s, from, to)[k] == rest[k - 1]);
            } else {
                assert(tokens(s, from, to)[0] == first);
            }
        }
    }
}

/// The first word of `s[from..to]` is the run that starts at the first
/// visible byte and ends before the next blank, and the other words are
/// the words of what follows it.
pub proof fn lemma_tokens_first(s: Seq<u8>, from: int, to: int, start: int, end: int)
    requires
        0 <= from <= start < end <= to <= s.len(),
        forall|j: int| from <= j < start ==> is_blank(#[trigger] s[j]),
        forall|j: int| start <= j < end ==> !is_blank(#[trigger] s[j]),
        end < to ==> is_blank(s[end]),
    ensures
        tokens(s, from, to) == seq![s.subrange(start, end)] + tokens(s, end, to),
{
    assert forall|j: int| from <= j < start implies !Class::Visible.holds(#[trigger] s[j]) by {
        assert(is_blank(s[j]));
    }
    lemma_find_is(s, from, to, Class::Visible, start);
    assert forall|j: int| start <= j < end implies !Class::Blank.holds(#[trigger] s[j]) by {
        assert(!is_blank(s[j]));
    }
    lemma_find_is(s, start, to, Class::Blank, end);
}

/// A stretch of blanks holds no word.
pub proof fn lemma_tokens_of_blanks(s: Seq<u8>, from: int, to: int)
    requires
        0 <= from <= to <= s.len(),
        forall|j: int| from <= j < to ==> is_blank(#[trigger] s[j]),
    ensures
        tokens(s, from, to) == Seq::<Seq<u8>>::empty(),
{
    assert forall|j: int| from <= j < to implies !Class::Visible.holds(#[trigger] s[j]) by {
        assert(is_blank(s[j]));
    }
    lemma_find_is(s, from, to, Class::Visible, to);
}

/// Unfolding keeps every byte that belongs to no line continuation, and
/// leaves no line break where a line is continued.
pub proof fn lemma_unfold(s: Seq<u8>, i: int)
    requires
        0 <= i < s.len(),
    ensures
        unfold(s).len() == s.len(),
        !joined(s, i) ==> unfold(s)[i] == s[i],
        joined(s, i) ==> is_blank(unfold(s)[i]),
        is_newline(unfold(s)[i]) ==> is_newline(s[i]) && !(i >= 1 && s[i - 1] == BACKSLASH),
{
}

/// Splits `s[from..to]` into its words.
pub fn split<'a>(s: &'a [u8], from: usize, to: usize) -> (words: Vec<&'a [u8]>)
    requires
        from <= to <= s.len(),
    ensures
        texts(words@) == tokens(s@, from as int, to as int),
{
    let mut words: Vec<&'a [u8]> = Vec::new();
    let mut start: usize = seek(s, from, to, Class::Visible);
    proof {
        lemma_tokens_skip_blanks(s@, from as int, to as int);
        assert(texts(words@) + tokens(s@, start as int, to as int) =~= tokens(
            s@,
            start as int,
            to as int,
        ));
    }
    while start < to
        invariant
            from <= start <= to <= s.len(),
            start == find(s@, start as int, to as int, Class::Visible),
            texts(words@) + tokens(s@, start as int, to as int) == tokens(
                s@,
                from as int,
                to as int,
            ),
        decreases to - start,
    {
        let end: usize = seek(s, start, to, Class::Blank);
        let ghost before = words@;
        proof {
            lemma_find(s@, start as int, to as int, Class::Visible);
            lemma_find(s@, start as int, to as int, Class::Blank);
        }
        words.push(slice_subrange(s, start, end));
        let next: usize = seek(s, end, to, Class::Visible);
        proof {
            lemma_tokens_skip_blanks(s@, end as int, to as int);
            lemma_find(s@, end as int, to as int, Class::Visible);
            lemma_find_is(s@, next as int, to as int, Class::Visible, next as int);
            assert(texts(words@) =~= texts(before).push(s@.subrange(start as int, end as int)));
            assert(texts(words@) + tokens(s@, next as int, to as int) =~= texts(before) + (seq![
                s@.subrange(start as int, end as int),
            ] + tokens(s@, end as int, to as int)));
        }
        start = next;
    }
    proof {
        assert(texts(words@) + tokens(s@, start as int, to as int) =~= texts(words@));
    }
    words
}

/// Whether the byte at `i` belongs to a line continuation: a backslash that
/// a line break follows, that line break itself, or a backslash that ends
/// the text.
pub open spec fn joined(s: Seq<u8>, i: int) -> bool {
    ||| s[i] == BACKSLASH && (i + 1 == s.len() || is_newline(s[i + 1]))
    ||| is_newline(s[i]) && i >= 1 && s[i - 1] == BACKSLASH
    ||| s[i] == LINE_FEED && i >= 2 && s[i - 1] == CARRIAGE_RETURN && s[i - 2] == BACKSLASH
}

/// The text with every line continuation turned into spaces, so that a
/// continued line and the line after it form one line. The length stays.
pub open spec fn unfold(s: Seq<u8>) -> Seq<u8> {
    Seq::new(
        s.len(),
        |i: int|
            if joined(s, i) {
                SPACE
            } else {
                s[i]
            },
    )
}

/// Copies `s` with its line continuations turned into spaces.
pub fn unfolded(s: &[u8]) -> (text: Vec<u8>)
    ensures
        text@ == unfold(s@),
{
    let n: usize = s.len();
    let mut text: Vec<u8> = Vec::with_capacity(n);
    let mut i: usize = 0;
    while i < n
        invariant
            n == s.len(),
            i <= n,
            text.len() == i,
            forall|j: int| 0 <= j < i ==> text[j] == unfold(s@)[j],
        decreases n - i,
    {
        let b: u8 = s[i];
        let after_backslash: bool = i >= 1 && s[i - 1] == BACKSLASH;
        let after_pair: bool = i >= 2 && s[i - 1] == CARRIAGE_RETURN && s[i - 2] == BACKSLASH;
        let opens: bool = b == BACKSLASH && (i + 1 == n || s[i + 1] == LINE_FEED || s[i + 1]
            == CARRIAGE_RETURN);
        let closes: bool = (b == LINE_FEED || b == CARRIAGE_RETURN) && after_backslash;
        if opens || closes || (b == LINE_FEED && after_pair) {
            text.push(SPACE);
        } else {
            text.push(b);
        }
        i += 1;
    }
    assert(text@ =~= unfold(s@));
    text
}

/// Where the line that starts at `from` ends: at the next line break, or at
/// the end of the text.
pub open spec fn line_end(s: Seq<u8>, from: int) -> int {
    find(s, from, s.len() as int, Class::Newline)
}

/// Where the line after the one that starts at `from` starts.
pub open spec fn line_next(s: Seq<u8>, from: int) -> int {
    if line_end(s, from) < s.len() {
        line_end(s, from) + 1
    } else {
        s.len() as int
    }
}

/// The words of the line that starts at `from`, without its comment: what
/// follows the first `#` of a line is not read.
pub open spec fn line_tokens(s: Seq<u8>, from: int) -> Seq<Seq<u8>> {
    tokens(s, from, find(s, from, line_end(s, from), Class::Byte(HASH)))
}

/// Reads the line that starts at `from`: its words, and where the next line
/// starts.
pub fn read_line<'a>(s: &'a [u8], from: usize) -> (line: (Vec<&'a [u8]>, usize))
    requires
        from <= s.len(),
    ensures
        texts(line.0@) == line_tokens(s@, from as int),
        line.1 == line_next(s@, from as int),
        from <= line.1 <= s.len(),
        from < s.len() ==> from < line.1,
{
    let end: usize = seek(s, from, s.len(), Class::Newline);
    let code: usize = seek(s, from, end, Class::Byte(HASH));
    let words = split(s, from, code);
    let next: usize = if end < s.len() {
        end + 1
    } else {
        end
    };
    (words, next)
}

} // verus!
