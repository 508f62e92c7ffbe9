//! Byte-level helpers over ASCII text: whitespace, trimming and case.
use vstd::prelude::*;

verus! {

/// The bytes that `u8::is_ascii_whitespace` accepts.
pub open spec fn is_ws(b: u8) -> bool {
    b == 32u8 || b == 9u8 || b == 10u8 || b == 12u8 || b == 13u8
}

/// The first index in `lo..hi` whose byte is not whitespace, or `hi`.
pub open spec fn trim_lo(t: Seq<u8>, lo: int, hi: int) -> int
    decreases hi - lo,
{
    if lo < hi && is_ws(t[lo]) {
        trim_lo(t, lo + 1, hi)
    } else {
        lo
    }
}

/// The end of `lo..hi` once trailing whitespace is dropped.
pub open spec fn trim_hi(t: Seq<u8>, lo: int, hi: int) -> int
    decreases hi - lo,
{
    if lo < hi && is_ws(t[hi - 1]) {
        trim_hi(t, lo, hi - 1)
    } else {
        hi
    }
}

/// `t` without its leading whitespace.
pub open spec fn trim_start(t: Seq<u8>) -> Seq<u8> {
    t.subrange(trim_lo(t, 0, t.len() as int), t.len() as int)
}

/// `t` without its trailing whitespace.
pub open spec fn trim_end(t: Seq<u8>) -> Seq<u8> {
    t.subrange(0, trim_hi(t, 0, t.len() as int))
}

/// `t` without whitespace at either end.
pub open spec fn trim(t: Seq<u8>) -> Seq<u8> {
    trim_end(trim_start(t))
}

/// ASCII upper case of one byte; other bytes are left alone.
pub open spec fn upper(b: u8) -> u8 {
    if 97u8 <= b && b <= 122u8 {
        (b - 32) as u8
    } else {
        b
    }
}

/// The number of newline bytes in `t`.
pub open spec fn count_nl(t: Seq<u8>) -> nat
    decreases t.len(),
{
    if t.len() == 0 {
        0
    } else {
        count_nl(t.drop_last()) + if t.last() == 10u8 {
            1nat
        } else {
            0nat
        }
    }
}

pub proof fn lemma_trim_lo(t: Seq<u8>, lo: int, hi: int)
    requires
        0 <= lo <= hi <= t.len(),
    ensures
        lo <= trim_lo(t, lo, hi) <= hi,
        trim_lo(t, lo, hi) < hi ==> !is_ws(t[trim_lo(t, lo, hi)]),
    decreases hi - lo,
{
    if lo < hi && is_ws(t[lo]) {
        lemma_trim_lo(t, lo + 1, hi);
    }
}

pub proof fn lemma_trim_hi(t: Seq<u8>, lo: int, hi: int)
    requires
        0 <= lo <= hi <= t.len(),
    ensures
        lo <= trim_hi(t, lo, hi) <= hi,
        trim_hi(t, lo, hi) > lo ==> !is_ws(t[trim_hi(t, lo, hi) - 1]),
        lo < hi && !is_ws(t[lo]) ==> trim_hi(t, lo, hi) > lo,
    decreases hi - lo,
{
    if lo < hi && is_ws(t[hi - 1]) {
        lemma_trim_hi(t, lo, hi - 1);
    }
}

pub fn is_ws_byte(b: u8) -> (r: bool)
    ensures
        r == is_ws(b),
{
    b == 32u8 || b == 9u8 || b == 10u8 || b == 12u8 || b == 13u8
}

pub fn upper_byte(b: u8) -> (r: u8)
    ensures
        r == upper(b),
{
    if 97u8 <= b && b <= 122u8 {
        b - 32
    } else {
        b
    }
}

/// Skips the whitespace at the front of `s[lo..hi]`.
pub fn skip_ws(s: &[u8], lo: usize, hi: usize) -> (r: usize)
    requires
        lo <= hi <= s@.len(),
    ensures
        r == lo + trim_lo(s@.subrange(lo as int, hi as int), 0, hi - lo),
        lo <= r <= hi,
{
    let ghost t = s@.subrange(lo as int, hi as int);
    let mut i: usize = lo;
    while i < hi && is_ws_byte(s[i])
        invariant
            lo <= i <= hi,
            hi <= s@.len(),
            t == s@.subrange(lo as int, hi as int),
            trim_lo(t, i - lo, hi - lo) == trim_lo(t, 0, hi - lo),
        decreases hi - i,
    {
        i = i + 1;
    }
    proof {
        lemma_trim_lo(t, 0, hi - lo);
    }
    i
}

/// Skips the whitespace at the back of `s[lo..hi]`.
pub fn skip_ws_back(s: &[u8], lo: usize, hi: usize) -> (r: usize)
    requires
        lo <= hi <= s@.len(),
    ensures
        r == lo + trim_hi(s@.subrange(lo as int, hi as int), 0, hi - lo),
        lo <= r <= hi,
{
    let ghost t = s@.subrange(lo as int, hi as int);
    let mut i: usize = hi;
    while i > lo && is_ws_byte(s[i - 1])
        invariant
            lo <= i <= hi,
            hi <= s@.len(),
            t == s@.subrange(lo as int, hi as int),
            trim_hi(t, 0, i - lo) == trim_hi(t, 0, hi - lo),
        decreases i - lo,
    {
        i = i - 1;
    }
    proof {
        lemma_trim_hi(t, 0, hi - lo);
    }
    i
}

/// Counts the newlines in `s[lo..hi]`.
pub fn count_newlines(s: &[u8], lo: usize, hi: usize) -> (r: usize)
    requires
        lo <= hi <= s@.len(),
    ensures
        r == count_nl(s@.subrange(lo as int, hi as int)),
        r <= hi - lo,
{
    let mut i: usize = lo;
    let mut n: usize = 0;
    while i < hi
        invariant
            lo <= i <= hi,
            hi <= s@.len(),
            n == count_nl(s@.subrange(lo as int, i as int)),
            n <= i - lo,
        decreases hi - i,
    {
        assert(s@.subrange(lo as int, i + 1).drop_last() =~= s@.subrange(lo as int, i as int));
        if s[i] == 10u8 {
            n = n + 1;
        }
        i = i + 1;
    }
    n
}

/// Appends `s[lo..hi]` to `buf`.
pub fn append_span(buf: &mut Vec<u8>, s: &[u8], lo: usize, hi: usize)
    requires
        lo <= hi <= s@.len(),
    ensures
        final(buf)@ == old(buf)@ + s@.subrange(lo as int, hi as int),
{
    let ghost start = buf@;
    let mut i: usize = lo;
    while i < hi
        invariant
            lo <= i <= hi,
            hi <= s@.len(),
            buf@ == start + s@.subrange(lo as int, i as int),
        decreases hi - i,
    {
        buf.push(s[i]);
        assert(buf@ =~= start + s@.subrange(lo as int, i + 1));
        i = i + 1;
    }
}

} // verus!
