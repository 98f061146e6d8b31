//! Byte-sequence utilities shared by the classifiers and stage
//! decoders: substring search, prefix/suffix tests, ASCII whitespace,
//! UTF-8 boundary tests and trimming, all specified over `Seq<u8>`.

use vstd::prelude::*;

verus! {

use vstd::slice::{slice_subrange, slice_to_vec};

/// True when `p` occurs in `h` starting at offset `i`.
pub open spec fn matches_at(h: Seq<u8>, p: Seq<u8>, i: int) -> bool {
    &&& 0 <= i
    &&& i + p.len() <= h.len()
    &&& h.subrange(i, i + p.len()) == p
}

/// The first offset at or after `from` where `p` occurs in `h`.
pub open spec fn spec_find(h: Seq<u8>, p: Seq<u8>, from: int) -> Option<int>
    decreases h.len() - from + 1,
{
    if from < 0 || from + p.len() > h.len() {
        None
    } else if matches_at(h, p, from) {
        Some(from)
    } else {
        spec_find(h, p, from + 1)
    }
}

/// Tests whether `p` occurs in `h` at offset `i`.
fn check_match_at(h: &[u8], p: &[u8], i: usize) -> (r: bool)
    requires
        i + p@.len() <= h@.len(),
    ensures
        r == matches_at(h@, p@, i as int),
{
    let _n: usize = h.len();
    let mut k: usize = 0;
    while k < p.len()
        invariant
            0 <= k <= p@.len(),
            i + p@.len() <= h@.len(),
            h@.len() <= usize::MAX,
            forall|j: int| 0 <= j < k ==> h@[i + j] == p@[j],
        decreases p@.len() - k,
    {
        if h[i + k] != p[k] {
            assert(h@.subrange(i as int, i + p@.len())[k as int] != p@[k as int]);
            return false;
        }
        k = k + 1;
    }
    assert(h@.subrange(i as int, i + p@.len()) =~= p@);
    true
}

/// Finds the first occurrence of `p` in `h` at or after `from`.
#[verifier::loop_isolation(false)]
pub fn find_sub_from(h: &[u8], p: &[u8], from: usize) -> (r: Option<usize>)
    ensures
        match r {
            Some(i) => Some(i as int) == spec_find(h@, p@, from as int),
            None => spec_find(h@, p@, from as int) is None,
        },
{
    if p.len() > h.len() {
        return None;
    }
    if p.len() == 0 {
        if from <= h.len() {
            assert(h@.subrange(from as int, from as int) =~= p@);
            return Some(from);
        }
        return None;
    }
    let last: usize = h.len() - p.len();
    let mut i: usize = from;
    while i <= last
        invariant
            from <= i,
            spec_find(h@, p@, from as int) == spec_find(h@, p@, i as int),
        decreases h@.len() - i,
    {
        if check_match_at(h, p, i) {
            return Some(i);
        }
        i = i + 1;
    }
    None
}

/// Tests whether `p` occurs in `h` at offset `i`, which may lie
/// anywhere up to the end of `h`.
pub fn starts_with_at(h: &[u8], p: &[u8], i: usize) -> (r: bool)
    requires
        i <= h@.len(),
    ensures
        r == matches_at(h@, p@, i as int),
{
    if p.len() > h.len() - i {
        return false;
    }
    check_match_at(h, p, i)
}

/// True when `p` occurs somewhere in `h`.
pub open spec fn spec_contains(h: Seq<u8>, p: Seq<u8>) -> bool {
    spec_find(h, p, 0) is Some
}

/// Tests whether `p` occurs anywhere in `h`.
pub fn contains_sub(h: &[u8], p: &[u8]) -> (r: bool)
    ensures
        r == spec_contains(h@, p@),
{
    find_sub_from(h, p, 0).is_some()
}

/// True when `h` begins with `p`.
pub open spec fn spec_starts_with(h: Seq<u8>, p: Seq<u8>) -> bool {
    matches_at(h, p, 0)
}

/// Tests whether `h` begins with `p`.
pub fn starts_with_bytes(h: &[u8], p: &[u8]) -> (r: bool)
    ensures
        r == spec_starts_with(h@, p@),
{
    if p.len() > h.len() {
        return false;
    }
    check_match_at(h, p, 0)
}

/// True when `h` ends with `p`.
pub open spec fn spec_ends_with(h: Seq<u8>, p: Seq<u8>) -> bool {
    matches_at(h, p, h.len() - p.len())
}

/// Tests whether `h` ends with `p`.
pub fn ends_with_bytes(h: &[u8], p: &[u8]) -> (r: bool)
    ensures
        r == spec_ends_with(h@, p@),
{
    if p.len() > h.len() {
        return false;
    }
    check_match_at(h, p, h.len() - p.len())
}

/// The ASCII whitespace bytes. The classifiers and extractors work on
/// raw bytes, so whitespace is deliberately the ASCII subset of the
/// Unicode class: a sample whose markers are delimited by exotic
/// Unicode spaces falls outside the recognized shapes.
pub open spec fn spec_is_ws(b: u8) -> bool {
    b == 0x20 || b == 0x09 || b == 0x0a || b == 0x0b || b == 0x0c || b == 0x0d
}

/// Tests whether `b` is an ASCII whitespace byte.
pub fn is_ws(b: u8) -> (r: bool)
    ensures
        r == spec_is_ws(b),
{
    b == 0x20 || b == 0x09 || b == 0x0a || b == 0x0b || b == 0x0c || b == 0x0d
}

/// The first offset at or after `from` whose byte satisfies ASCII
/// whitespace.
pub open spec fn spec_find_ws(h: Seq<u8>, from: int) -> Option<int>
    decreases h.len() - from,
{
    if from < 0 || from >= h.len() {
        None
    } else if spec_is_ws(h[from]) {
        Some(from)
    } else {
        spec_find_ws(h, from + 1)
    }
}

/// Finds the first ASCII whitespace byte at or after `from`.
#[verifier::loop_isolation(false)]
pub fn find_ws_from(h: &[u8], from: usize) -> (r: Option<usize>)
    ensures
        match r {
            Some(i) => Some(i as int) == spec_find_ws(h@, from as int),
            None => spec_find_ws(h@, from as int) is None,
        },
{
    let mut i: usize = from;
    while i < h.len()
        invariant
            from <= i,
            spec_find_ws(h@, from as int) == spec_find_ws(h@, i as int),
        decreases h@.len() - i,
    {
        if is_ws(h[i]) {
            return Some(i);
        }
        i = i + 1;
    }
    None
}

/// The first offset at or after `from` whose byte differs from `c`.
pub open spec fn spec_find_not_byte(h: Seq<u8>, c: u8, from: int) -> Option<int>
    decreases h.len() - from,
{
    if from < 0 || from >= h.len() {
        None
    } else if h[from] != c {
        Some(from)
    } else {
        spec_find_not_byte(h, c, from + 1)
    }
}

/// Finds the first byte at or after `from` that differs from `c`.
#[verifier::loop_isolation(false)]
pub fn find_not_byte_from(h: &[u8], c: u8, from: usize) -> (r: Option<usize>)
    ensures
        match r {
            Some(i) => Some(i as int) == spec_find_not_byte(h@, c, from as int),
            None => spec_find_not_byte(h@, c, from as int) is None,
        },
{
    let mut i: usize = from;
    while i < h.len()
        invariant
            from <= i,
            spec_find_not_byte(h@, c, from as int) == spec_find_not_byte(h@, c, i as int),
        decreases h@.len() - i,
    {
        if h[i] != c {
            return Some(i);
        }
        i = i + 1;
    }
    None
}

/// The first offset at or after `from` holding the byte `c`.
pub open spec fn spec_find_byte(h: Seq<u8>, c: u8, from: int) -> Option<int>
    decreases h.len() - from,
{
    if from < 0 || from >= h.len() {
        None
    } else if h[from] == c {
        Some(from)
    } else {
        spec_find_byte(h, c, from + 1)
    }
}

/// Finds the first occurrence of the byte `c` at or after `from`.
#[verifier::loop_isolation(false)]
pub fn find_byte_from(h: &[u8], c: u8, from: usize) -> (r: Option<usize>)
    ensures
        match r {
            Some(i) => Some(i as int) == spec_find_byte(h@, c, from as int),
            None => spec_find_byte(h@, c, from as int) is None,
        },
{
    let mut i: usize = from;
    while i < h.len()
        invariant
            from <= i,
            spec_find_byte(h@, c, from as int) == spec_find_byte(h@, c, i as int),
        decreases h@.len() - i,
    {
        if h[i] == c {
            return Some(i);
        }
        i = i + 1;
    }
    None
}

/// What a successful substring search guarantees: the match lies at or
/// after the start and fits the haystack.
pub proof fn lemma_spec_find_props(h: Seq<u8>, p: Seq<u8>, from: int)
    requires
        spec_find(h, p, from) is Some,
    ensures
        ({
            let i = spec_find(h, p, from).unwrap();
            &&& from <= i
            &&& i + p.len() <= h.len()
            &&& matches_at(h, p, i)
        }),
    decreases h.len() - from + 1,
{
    if from < 0 || from + p.len() > h.len() {
    } else if matches_at(h, p, from) {
    } else {
        lemma_spec_find_props(h, p, from + 1);
    }
}

/// What a successful whitespace search guarantees.
pub proof fn lemma_spec_find_ws_props(h: Seq<u8>, from: int)
    requires
        spec_find_ws(h, from) is Some,
    ensures
        ({
            let i = spec_find_ws(h, from).unwrap();
            &&& from <= i < h.len()
            &&& spec_is_ws(h[i])
        }),
    decreases h.len() - from,
{
    if from < 0 || from >= h.len() {
    } else if spec_is_ws(h[from]) {
    } else {
        lemma_spec_find_ws_props(h, from + 1);
    }
}

/// What a successful byte search guarantees.
pub proof fn lemma_spec_find_byte_props(h: Seq<u8>, c: u8, from: int)
    requires
        spec_find_byte(h, c, from) is Some,
    ensures
        ({
            let i = spec_find_byte(h, c, from).unwrap();
            &&& from <= i < h.len()
            &&& h[i] == c
        }),
    decreases h.len() - from,
{
    if from < 0 || from >= h.len() {
    } else if h[from] == c {
    } else {
        lemma_spec_find_byte_props(h, c, from + 1);
    }
}

/// What a successful not-this-byte search guarantees.
pub proof fn lemma_spec_find_not_byte_props(h: Seq<u8>, c: u8, from: int)
    requires
        spec_find_not_byte(h, c, from) is Some,
    ensures
        ({
            let i = spec_find_not_byte(h, c, from).unwrap();
            &&& from <= i < h.len()
            &&& h[i] != c
        }),
    decreases h.len() - from,
{
    if from < 0 || from >= h.len() {
    } else if h[from] != c {
    } else {
        lemma_spec_find_not_byte_props(h, c, from + 1);
    }
}

/// UTF-8 character-boundary test on raw bytes, as `str` defines it: the
/// ends of the buffer are boundaries, a continuation byte is not, and
/// an offset past the end is no boundary at all.
pub open spec fn spec_is_char_boundary(s: Seq<u8>, i: int) -> bool {
    if i == 0 || i == s.len() {
        true
    } else if 0 < i < s.len() {
        s[i] < 0x80 || s[i] >= 0xc0
    } else {
        false
    }
}

/// Tests whether offset `i` is a UTF-8 character boundary of `s`.
pub fn is_char_boundary_at(s: &[u8], i: usize) -> (r: bool)
    ensures
        r == spec_is_char_boundary(s@, i as int),
{
    if i == 0 || i == s.len() {
        true
    } else if i < s.len() {
        s[i] < 0x80 || s[i] >= 0xc0
    } else {
        false
    }
}

/// `s` with ASCII whitespace removed from both ends; Unicode-only
/// spaces are deliberately left in place, as the byte-level scanners
/// throughout work on the ASCII subset.
pub open spec fn spec_trim(s: Seq<u8>) -> Seq<u8>
    decreases s.len(),
{
    if s.len() == 0 {
        s
    } else if spec_is_ws(s[0]) {
        spec_trim(s.drop_first())
    } else if spec_is_ws(s.last()) {
        spec_trim(s.drop_last())
    } else {
        s
    }
}

/// Copies the subrange `[start, stop)` of `s` into an owned buffer.
pub fn copy_range(s: &[u8], start: usize, stop: usize) -> (r: Vec<u8>)
    requires
        start <= stop <= s@.len(),
    ensures
        r@ == s@.subrange(start as int, stop as int),
{
    slice_to_vec(slice_subrange(s, start, stop))
}

/// Trims ASCII whitespace from both ends of `s`.
pub fn trim_bytes(s: &[u8]) -> (r: Vec<u8>)
    ensures
        r@ == spec_trim(s@),
{
    let mut start: usize = 0;
    let mut stop: usize = s.len();
    assert(s@.subrange(0, s@.len() as int) =~= s@);
    loop
        invariant
            0 <= start <= stop <= s@.len(),
            spec_trim(s@) == spec_trim(s@.subrange(start as int, stop as int)),
        ensures
            start <= stop,
            spec_trim(s@) == s@.subrange(start as int, stop as int),
        decreases stop - start,
    {
        let ghost cur = s@.subrange(start as int, stop as int);
        if start == stop {
            break;
        }
        if is_ws(s[start]) {
            assert(cur.drop_first() =~= s@.subrange(start + 1, stop as int));
            start = start + 1;
        } else if is_ws(s[stop - 1]) {
            assert(cur.drop_last() =~= s@.subrange(start as int, stop - 1));
            stop = stop - 1;
        } else {
            break;
        }
    }
    copy_range(s, start, stop)
}

} // verus!
