//! The text-decoding heuristic: a sample's bytes are read as UTF-16LE
//! when more than 98% of its odd-offset bytes are null, and as UTF-8
//! otherwise, both lossily. The decoded text is kept as UTF-8 bytes.

use vstd::prelude::*;

verus! {

use vstd::utf8::valid_utf8;

/// The UTF-8 bytes of the lossy UTF-8 reading of `b`. Depends on the
/// input bytes alone.
pub uninterp spec fn utf8_lossy_of(b: Seq<u8>) -> Seq<u8>;

/// The UTF-8 bytes of the lossy UTF-16 reading of `w`. Depends on the
/// input units alone.
pub uninterp spec fn utf16_lossy_of(w: Seq<u16>) -> Seq<u8>;

/// Relies on `String::from_utf8_lossy`: valid UTF-8 input is returned
/// unchanged; invalid sequences are replaced.
#[verifier::external_body]
fn utf8_lossy_bytes(b: &[u8]) -> (r: Vec<u8>)
    ensures
        r@ == utf8_lossy_of(b@),
        valid_utf8(b@) ==> r@ == b@,
{
    String::from_utf8_lossy(b).into_owned().into_bytes()
}

/// Relies on `String::from_utf16_lossy`: the decoded text as UTF-8
/// bytes, unpaired surrogates replaced.
#[verifier::external_body]
fn utf16_lossy_bytes(w: &[u16]) -> (r: Vec<u8>)
    ensures
        r@ == utf16_lossy_of(w@),
{
    String::from_utf16_lossy(w).into_bytes()
}

/// How many of the first `n` bytes stand at odd offsets and are null.
pub open spec fn count_odd_nulls(s: Seq<u8>, n: int) -> int
    decreases n,
{
    if n <= 0 {
        0
    } else {
        count_odd_nulls(s, n - 1) + if (n - 1) % 2 == 1 && s[n - 1] == 0 {
            1int
        } else {
            0int
        }
    }
}

/// The heuristic: text is UTF-16LE when strictly more than 98% of the
/// bytes, counted twice per odd-offset null, are nulls at odd offsets.
pub open spec fn spec_is_utf16(s: Seq<u8>) -> bool {
    200 * count_odd_nulls(s, s.len() as int) > 98 * s.len()
}

/// The 16-bit little-endian units formed from consecutive byte pairs.
pub open spec fn spec_u16s_of(s: Seq<u8>) -> Seq<u16> {
    Seq::new((s.len() / 2) as nat, |i: int| (s[2 * i] + s[2 * i + 1] * 0x100) as u16)
}

/// The decoded text of a sample: UTF-16LE when the null-byte heuristic
/// says so, UTF-8 otherwise, lossily either way.
pub open spec fn spec_text_of(s: Seq<u8>) -> Seq<u8> {
    if spec_is_utf16(s) {
        utf16_lossy_of(spec_u16s_of(s))
    } else {
        utf8_lossy_of(s)
    }
}

/// Decodes a sample's bytes to text (as UTF-8 bytes), choosing UTF-16LE
/// when more than 98% of odd-offset bytes are null and UTF-8 otherwise.
#[verifier::loop_isolation(false)]
pub fn get_string_from_binary(sample_data: &[u8]) -> (r: Vec<u8>)
    ensures
        r@ == spec_text_of(sample_data@),
        !spec_is_utf16(sample_data@) && valid_utf8(sample_data@) ==> r@ == sample_data@,
{
    let n: usize = sample_data.len();
    let mut count: usize = 0;
    let mut i: usize = 0;
    while i < n
        invariant
            0 <= i <= n,
            count == count_odd_nulls(sample_data@, i as int),
            count <= i,
        decreases n - i,
    {
        if i % 2 == 1 && sample_data[i] == 0 {
            count = count + 1;
        }
        i = i + 1;
    }

    let is_utf16 = 200 * (count as u128) > 98 * (n as u128);
    assert(is_utf16 == spec_is_utf16(sample_data@)) by {
        assert(200 * (count as int) == 200 * (count as u128) && 98 * (n as int) == 98 * (
        n as u128));
    }

    if is_utf16 {
        let mut units: Vec<u16> = Vec::new();
        let half: usize = n / 2;
        let mut j: usize = 0;
        while j < half
            invariant
                0 <= j <= half,
                units@.len() == j,
                forall|k: int| 0 <= k < j ==> units@[k] == spec_u16s_of(sample_data@)[k],
            decreases half - j,
        {
            let lo = sample_data[2 * j];
            let hi = sample_data[2 * j + 1];
            units.push(lo as u16 + (hi as u16) * 0x100);
            j = j + 1;
        }
        assert(units@ =~= spec_u16s_of(sample_data@));
        utf16_lossy_bytes(units.as_slice())
    } else {
        utf8_lossy_bytes(sample_data)
    }
}

} // verus!
