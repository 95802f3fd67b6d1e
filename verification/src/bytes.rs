//! Byte-slice helpers: ASCII trimming and case folding, sub-slice search,
//! and splitting, each tied to the generic sequence specs in `text`.

use vstd::prelude::*;
use crate::text::{find, find_from, occurs_at, split_on, starts_with, ends_with};

verus! {

/// `u8::is_ascii_whitespace`.
pub open spec fn is_ascii_ws(b: u8) -> bool {
    b == 0x20 || b == 0x09 || b == 0x0a || b == 0x0c || b == 0x0d
}

pub open spec fn trim_ascii_start(s: Seq<u8>) -> Seq<u8>
    decreases s.len(),
{
    if s.len() > 0 && is_ascii_ws(s[0]) {
        trim_ascii_start(s.drop_first())
    } else {
        s
    }
}

pub open spec fn trim_ascii_end(s: Seq<u8>) -> Seq<u8>
    decreases s.len(),
{
    if s.len() > 0 && is_ascii_ws(s.last()) {
        trim_ascii_end(s.drop_last())
    } else {
        s
    }
}

/// `<[u8]>::trim_ascii`.
pub open spec fn trim_ascii(s: Seq<u8>) -> Seq<u8> {
    trim_ascii_end(trim_ascii_start(s))
}

pub fn is_ascii_whitespace(b: u8) -> (r: bool)
    ensures
        r == is_ascii_ws(b),
{
    b == 0x20 || b == 0x09 || b == 0x0a || b == 0x0c || b == 0x0d
}

/// Bounds `(a, b)` such that `s[a..b]` is `s[lo..hi]` with its leading
/// ASCII whitespace removed.
pub fn trim_ascii_start_range(s: &[u8], lo: usize, hi: usize) -> (r: usize)
    requires
        lo <= hi <= s@.len(),
    ensures
        lo <= r <= hi,
        s@.subrange(r as int, hi as int) == trim_ascii_start(s@.subrange(lo as int, hi as int)),
{
    let mut a = lo;
    while a < hi && is_ascii_whitespace(s[a])
        invariant
            lo <= a <= hi <= s@.len(),
            trim_ascii_start(s@.subrange(lo as int, hi as int)) == trim_ascii_start(
                s@.subrange(a as int, hi as int),
            ),
        decreases hi - a,
    {
        assert(s@.subrange(a as int, hi as int).drop_first() =~= s@.subrange(a + 1, hi as int));
        a = a + 1;
    }
    a
}

/// Bounds `(a, b)` such that `s[a..b]` is `s[lo..hi]` trimmed of ASCII
/// whitespace on both sides.
pub fn trim_ascii_range(s: &[u8], lo: usize, hi: usize) -> (r: (usize, usize))
    requires
        lo <= hi <= s@.len(),
    ensures
        lo <= r.0 <= r.1 <= hi,
        s@.subrange(r.0 as int, r.1 as int) == trim_ascii(s@.subrange(lo as int, hi as int)),
{
    let a = trim_ascii_start_range(s, lo, hi);
    let mut b = hi;
    while b > a && is_ascii_whitespace(s[b - 1])
        invariant
            lo <= a <= b <= hi <= s@.len(),
            trim_ascii(s@.subrange(lo as int, hi as int)) == trim_ascii_end(
                s@.subrange(a as int, b as int),
            ),
        decreases b - a,
    {
        assert(s@.subrange(a as int, b as int).drop_last() =~= s@.subrange(a as int, b - 1));
        b = b - 1;
    }
    (a, b)
}

pub open spec fn lower_byte(b: u8) -> u8 {
    if 0x41 <= b <= 0x5a {
        (b + 32) as u8
    } else {
        b
    }
}

/// `<[u8]>::to_ascii_lowercase`.
pub open spec fn lower_bytes(s: Seq<u8>) -> Seq<u8> {
    s.map_values(|b: u8| lower_byte(b))
}

pub fn to_lower_bytes(s: &[u8]) -> (r: Vec<u8>)
    ensures
        r@ == lower_bytes(s@),
{
    let mut out: Vec<u8> = Vec::new();
    let mut i: usize = 0;
    while i < s.len()
        invariant
            i <= s@.len(),
            out@ == lower_bytes(s@.subrange(0, i as int)),
        decreases s@.len() - i,
    {
        let b = s[i];
        let l = if 0x41 <= b && b <= 0x5a {
            b + 32
        } else {
            b
        };
        out.push(l);
        i = i + 1;
        assert(out@ =~= lower_bytes(s@.subrange(0, i as int)));
    }
    assert(s@.subrange(0, s@.len() as int) =~= s@);
    out
}

/// Whether `s[lo..hi]` equals `p`.
pub fn bytes_range_eq(s: &[u8], lo: usize, hi: usize, p: &[u8]) -> (r: bool)
    requires
        lo <= hi <= s@.len(),
    ensures
        r == (s@.subrange(lo as int, hi as int) == p@),
{
    if hi - lo != p.len() {
        return false;
    }
    let mut i: usize = 0;
    while i < p.len()
        invariant
            hi - lo == p@.len(),
            lo <= hi <= s@.len(),
            i <= p@.len(),
            forall|j: int| 0 <= j < i ==> s@[lo + j] == p@[j],
        decreases p@.len() - i,
    {
        if s[lo + i] != p[i] {
            return false;
        }
        i = i + 1;
    }
    assert(s@.subrange(lo as int, hi as int) =~= p@);
    true
}

/// `s.starts_with(p)`.
pub fn bytes_starts_with(s: &[u8], p: &[u8]) -> (r: bool)
    ensures
        r == starts_with(s@, p@),
{
    if p.len() > s.len() {
        return false;
    }
    bytes_range_eq(s, 0, p.len(), p)
}

/// `s.ends_with(p)`.
pub fn bytes_ends_with(s: &[u8], p: &[u8]) -> (r: bool)
    ensures
        r == ends_with(s@, p@),
{
    if p.len() > s.len() {
        return false;
    }
    bytes_range_eq(s, s.len() - p.len(), s.len(), p)
}

/// First position, relative to `lo`, at which `p` occurs in `s[lo..hi]`.
pub fn find_bytes(s: &[u8], lo: usize, hi: usize, p: &[u8]) -> (r: Option<usize>)
    requires
        lo <= hi <= s@.len(),
    ensures
        match r {
            Some(i) => find(s@.subrange(lo as int, hi as int), p@) == Some(i as int),
            None => find(s@.subrange(lo as int, hi as int), p@).is_none(),
        },
{
    let ghost t = s@.subrange(lo as int, hi as int);
    let mut i: usize = 0;
    while i <= hi - lo
        invariant
            lo <= hi <= s@.len(),
            t == s@.subrange(lo as int, hi as int),
            i <= hi - lo + 1,
            find(t, p@) == find_from(t, p@, i as int),
        decreases hi - lo + 1 - i,
    {
        if p.len() > hi - lo - i {
            assert(find_from(t, p@, i as int).is_none());
            return None;
        }
        let m = bytes_range_eq(s, lo + i, lo + i + p.len(), p);
        assert(t.subrange(i as int, i + p@.len()) =~= s@.subrange(lo + i, lo + i + p@.len()));
        if m {
            assert(occurs_at(t, p@, i as int));
            return Some(i);
        }
        assert(!occurs_at(t, p@, i as int));
        if i == hi - lo {
            assert(find_from(t, p@, i + 1 as int).is_none());
            return None;
        }
        i = i + 1;
    }
    None
}

/// Bounds of the pieces of `s.split(|&b| b == d)`.
pub fn split_bytes_bounds(s: &[u8], d: u8) -> (r: Vec<(usize, usize)>)
    ensures
        r@.len() == split_on(s@, d).len(),
        forall|k: int|
            0 <= k < r@.len() ==> (#[trigger] r@[k]).0 <= r@[k].1 <= s@.len() && s@.subrange(
                r@[k].0 as int,
                r@[k].1 as int,
            ) == split_on(s@, d)[k],
{
    let mut out: Vec<(usize, usize)> = Vec::new();
    let mut start: usize = 0;
    let mut i: usize = 0;
    assert(s@.subrange(0, 0) =~= Seq::<u8>::empty());
    while i < s.len()
        invariant
            start <= i <= s@.len(),
            out@.len() + 1 == split_on(s@.subrange(0, i as int), d).len(),
            s@.subrange(start as int, i as int) == split_on(s@.subrange(0, i as int), d).last(),
            forall|k: int|
                0 <= k < out@.len() ==> (#[trigger] out@[k]).0 <= out@[k].1 <= i && s@.subrange(
                    out@[k].0 as int,
                    out@[k].1 as int,
                ) == split_on(s@.subrange(0, i as int), d)[k],
        decreases s@.len() - i,
    {
        assert(s@.subrange(0, i + 1).drop_last() =~= s@.subrange(0, i as int));
        assert(s@.subrange(0, i + 1).last() == s@[i as int]);
        if s[i] == d {
            out.push((start, i));
            start = i + 1;
            assert(s@.subrange(start as int, i + 1) =~= Seq::<u8>::empty());
        } else {
            assert(s@.subrange(start as int, i + 1) =~= s@.subrange(start as int, i as int).push(
                s@[i as int],
            ));
        }
        i = i + 1;
    }
    out.push((start, s.len()));
    assert(s@.subrange(0, s@.len() as int) =~= s@);
    out
}

} // verus!
