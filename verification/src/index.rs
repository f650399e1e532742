//! Corners of polygons: the triple of indices that a corner word writes.

use vstd::prelude::*;
use vstd::slice::slice_subrange;
use crate::number::{after_sign, digits_end, digits_value, read_digits, MINUS, PLUS};
use crate::scan::{find, lemma_find, seek, Class, SLASH};

verus! {

/// One corner of a polygon: the numbers of its position, of its texture
/// coordinate and of its normal. Numbers count from 1, and 0 stands for
/// none.
#[derive(Clone, Copy, Debug, PartialEq, Eq, Structural)]
pub struct Index {
    pub p: u32,
    pub t: u32,
    pub n: u32,
}

/// The item that the field `f` of a corner refers to, among `count` items
/// read so far. Digits `k` with `1 <= k <= count` refer to item `k`, also
/// behind a `+`; behind a `-` they refer to the item `k` steps back from the
/// end, the last one being one step back. Anything else refers to no item
/// and gives 0.
pub open spec fn resolve(f: Seq<u8>, count: u32) -> u32 {
    let start = after_sign(f, 0);
    let k = digits_value(f.subrange(start, f.len() as int));
    if start < f.len() && digits_end(f, start) == f.len() && 1 <= k <= count {
        if f[0] == MINUS {
            (count - k + 1) as u32
        } else {
            k as u32
        }
    } else {
        0
    }
}

/// A field refers to one of the `count` items, or to none.
pub proof fn lemma_resolve_bound(f: Seq<u8>, count: u32)
    ensures
        resolve(f, count) <= count,
{
}

/// Reads the field `f` of a corner against `count` items.
pub fn resolve_field(f: &[u8], count: u32) -> (r: u32)
    ensures
        r == resolve(f@, count),
        r <= count,
{
    let n: usize = f.len();
    let start: usize = if n > 0 && (f[0] == PLUS || f[0] == MINUS) {
        1
    } else {
        0
    };
    if start >= n {
        return 0;
    }
    proof {
        lemma_find(f@, start as int, n as int, Class::NonDigit);
    }
    let end: usize = seek(f, start, n, Class::NonDigit);
    if end != n {
        return 0;
    }
    let k: u128 = read_digits(f, start, n, 0x1_0000_0000u128);
    if k < 1 || k > count as u128 {
        return 0;
    }
    if f[0] == MINUS {
        count - (k as u32) + 1
    } else {
        k as u32
    }
}

/// The first field of a corner word: what stands before its first slash.
pub open spec fn head(t: Seq<u8>) -> Seq<u8> {
    t.take(find(t, 0, t.len() as int, Class::Byte(SLASH)))
}

/// What follows the first slash of a corner word; nothing where it has no
/// slash.
pub open spec fn rest(t: Seq<u8>) -> Seq<u8> {
    let cut = find(t, 0, t.len() as int, Class::Byte(SLASH));
    if cut < t.len() {
        t.skip(cut + 1)
    } else {
        Seq::empty()
    }
}

/// Parts a corner word at its first slash.
pub fn cut(t: &[u8]) -> (r: (&[u8], &[u8]))
    ensures
        r.0@ == head(t@),
        r.1@ == rest(t@),
{
    let at: usize = seek(t, 0, t.len(), Class::Byte(SLASH));
    let first = slice_subrange(t, 0, at);
    if at < t.len() {
        (first, slice_subrange(t, at + 1, t.len()))
    } else {
        (first, slice_subrange(t, at, at))
    }
}

/// The corner that the word `t` writes, where so many positions, texture
/// coordinates and normals have been read. The word holds up to three
/// fields with slashes between them, for the position, the texture
/// coordinate and the normal; a field that is left out or empty gives 0, and
/// what follows a third slash is not read.
pub open spec fn corner_of(t: Seq<u8>, positions: u32, texcoords: u32, normals: u32) -> Index {
    Index {
        p: resolve(head(t), positions),
        t: resolve(head(rest(t)), texcoords),
        n: resolve(head(rest(rest(t))), normals),
    }
}

/// Reads the corner word `t`.
pub fn parse_corner(t: &[u8], positions: u32, texcoords: u32, normals: u32) -> (c: Index)
    ensures
        c == corner_of(t@, positions, texcoords, normals),
        c.p <= positions,
        c.t <= texcoords,
        c.n <= normals,
{
    let (first, after_first) = cut(t);
    let (second, after_second) = cut(after_first);
    let (third, _) = cut(after_second);
    Index {
        p: resolve_field(first, positions),
        t: resolve_field(second, texcoords),
        n: resolve_field(third, normals),
    }
}

impl Index {
    /// The three numbers of the corner as one number, which no other corner
    /// has.
    pub open spec fn key(self) -> u128 {
        (self.p as u128 * 0x1_0000_0000_0000_0000u128 + self.t as u128 * 0x1_0000_0000u128
            + self.n as u128) as u128
    }

    /// Packs the corner into one number.
    pub fn pack(&self) -> (k: u128)
        ensures
            k == self.key(),
    {
        (self.p as u128) * 0x1_0000_0000_0000_0000u128 + (self.t as u128) * 0x1_0000_0000u128 + (
        self.n as u128)
    }

    /// Corners with the same key are the same corner.
    pub proof fn lemma_key_injective(a: Index, b: Index)
        requires
            a.key() == b.key(),
        ensures
            a == b,
    {
        let low_a = a.t as int * 0x1_0000_0000 + a.n as int;
        let low_b = b.t as int * 0x1_0000_0000 + b.n as int;
        assert(0 <= low_a < 0x1_0000_0000_0000_0000);
        assert(0 <= low_b < 0x1_0000_0000_0000_0000);
        assert(a.key() == a.p as int * 0x1_0000_0000_0000_0000 + low_a);
        assert(b.key() == b.p as int * 0x1_0000_0000_0000_0000 + low_b);
        if a.p < b.p {
            assert(a.p as int * 0x1_0000_0000_0000_0000 + 0x1_0000_0000_0000_0000 <= b.p as int
                * 0x1_0000_0000_0000_0000);
        }
        if b.p < a.p {
            assert(b.p as int * 0x1_0000_0000_0000_0000 + 0x1_0000_0000_0000_0000 <= a.p as int
                * 0x1_0000_0000_0000_0000);
        }
        assert(a.p == b.p);
        assert(low_a == low_b);
        if a.t < b.t {
            assert(a.t as int * 0x1_0000_0000 + 0x1_0000_0000 <= b.t as int * 0x1_0000_0000);
        }
        if b.t < a.t {
            assert(b.t as int * 0x1_0000_0000 + 0x1_0000_0000 <= a.t as int * 0x1_0000_0000);
        }
    }
}

} // verus!
