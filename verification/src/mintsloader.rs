//! The Mintsloader family: the fixed text patterns that recover the XOR
//! key and base64 blob from a PowerShell stage, the obfuscated-string
//! recovery with arithmetic character deobfuscation, stage
//! classification, and the pipeline recording the stages.

use vstd::prelude::*;

verus! {

use vstd::string::StringSliceAdditionalSpecFns;
use vstd::slice::slice_to_vec;

use crate::bytesutil::{
    contains_sub, copy_range, find_sub_from, is_char_boundary_at, lemma_spec_find_props, spec_find,
    spec_is_char_boundary, spec_is_ws, spec_trim, trim_bytes, is_ws,
};
use crate::codec::{
    base64_decode, base64_decode_of, decode_base64_with_xor_key, sha256_hex, sha256_hex_of,
    spec_decode_base64_with_xor_key, DecodeError,
};
use crate::bytesutil::spec_contains;
use crate::coper::{
    lemma_node_index_prefix_stable, lemma_prefix_preserved_trans, nodes_prefix_preserved,
};
use crate::nodes::{Mintsloader, MintsloaderJava, MintsloaderPs, MintsloaderPsKind,
    MintsloaderX509Cert};
use crate::store::{
    lemma_node_index_after_push, lemma_node_index_found, spec_node_index, spec_upsert_edge,
    EdgeCollection, NodeCollection, NodeData, Store, StoreEdge, StoreNode,
};
use crate::textenc::{get_string_from_binary, spec_text_of};

/// The wide alphanumeric class `[A-z0-9]` of the extraction patterns:
/// every byte from `A` to `z` (which spans the brackets and underscore
/// between the cases) or a digit.
pub open spec fn class_alnum_wide(b: u8) -> bool {
    (0x41 <= b <= 0x7a) || (0x30 <= b <= 0x39)
}

/// The base64-blob class `[A-z0-9+/=]` of the extraction patterns.
pub open spec fn class_b64(b: u8) -> bool {
    class_alnum_wide(b) || b == 0x2b || b == 0x2f || b == 0x3d
}

/// The first offset at or after `j` whose byte is not ASCII whitespace.
pub open spec fn run_end_ws(s: Seq<u8>, j: int) -> int
    decreases s.len() - j,
{
    if j < 0 || j >= s.len() || !spec_is_ws(s[j]) {
        j
    } else {
        run_end_ws(s, j + 1)
    }
}

/// The first offset at or after `j` whose byte leaves `[A-z0-9]`.
pub open spec fn run_end_alnum(s: Seq<u8>, j: int) -> int
    decreases s.len() - j,
{
    if j < 0 || j >= s.len() || !class_alnum_wide(s[j]) {
        j
    } else {
        run_end_alnum(s, j + 1)
    }
}

/// The first offset at or after `j` whose byte leaves `[A-z0-9+/=]`.
pub open spec fn run_end_b64(s: Seq<u8>, j: int) -> int
    decreases s.len() - j,
{
    if j < 0 || j >= s.len() || !class_b64(s[j]) {
        j
    } else {
        run_end_b64(s, j + 1)
    }
}

/// The first offset at or after `j` whose byte is a closing
/// parenthesis, or the end.
pub open spec fn run_end_nonparen(s: Seq<u8>, j: int) -> int
    decreases s.len() - j,
{
    if j < 0 || j >= s.len() || s[j] == 0x29 {
        j
    } else {
        run_end_nonparen(s, j + 1)
    }
}

/// Walks past ASCII whitespace from `j`.
#[verifier::loop_isolation(false)]
fn scan_ws(s: &[u8], j: usize) -> (r: usize)
    requires
        j <= s@.len(),
    ensures
        r == run_end_ws(s@, j as int),
        j <= r <= s@.len(),
{
    let mut i: usize = j;
    while i < s.len() && is_ws(s[i])
        invariant
            j <= i <= s@.len(),
            run_end_ws(s@, j as int) == run_end_ws(s@, i as int),
        decreases s@.len() - i,
    {
        i = i + 1;
    }
    i
}

/// Walks past `[A-z0-9]` bytes from `j`.
#[verifier::loop_isolation(false)]
fn scan_alnum(s: &[u8], j: usize) -> (r: usize)
    requires
        j <= s@.len(),
    ensures
        r == run_end_alnum(s@, j as int),
        j <= r <= s@.len(),
{
    let mut i: usize = j;
    while i < s.len() && ((0x41 <= s[i] && s[i] <= 0x7a) || (0x30 <= s[i] && s[i] <= 0x39))
        invariant
            j <= i <= s@.len(),
            run_end_alnum(s@, j as int) == run_end_alnum(s@, i as int),
        decreases s@.len() - i,
    {
        i = i + 1;
    }
    i
}

/// Walks past `[A-z0-9+/=]` bytes from `j`.
#[verifier::loop_isolation(false)]
fn scan_b64(s: &[u8], j: usize) -> (r: usize)
    requires
        j <= s@.len(),
    ensures
        r == run_end_b64(s@, j as int),
        j <= r <= s@.len(),
{
    let mut i: usize = j;
    while i < s.len() && ((0x41 <= s[i] && s[i] <= 0x7a) || (0x30 <= s[i] && s[i] <= 0x39) || s[i]
        == 0x2b || s[i] == 0x2f || s[i] == 0x3d)
        invariant
            j <= i <= s@.len(),
            run_end_b64(s@, j as int) == run_end_b64(s@, i as int),
        decreases s@.len() - i,
    {
        i = i + 1;
    }
    i
}

/// Walks to the next closing parenthesis from `j`, or the end.
#[verifier::loop_isolation(false)]
fn scan_nonparen(s: &[u8], j: usize) -> (r: usize)
    requires
        j <= s@.len(),
    ensures
        r == run_end_nonparen(s@, j as int),
        j <= r <= s@.len(),
        r < s@.len() ==> s@[r as int] == 0x29,
{
    let mut i: usize = j;
    while i < s.len() && s[i] != 0x29
        invariant
            j <= i <= s@.len(),
            run_end_nonparen(s@, j as int) == run_end_nonparen(s@, i as int),
        decreases s@.len() - i,
    {
        i = i + 1;
    }
    i
}

/// The literal that opens the key-defining function.
pub open spec fn function_lit() -> Seq<u8> {
    "function".spec_bytes()
}

/// The literal that opens the function's parameter block.
pub open spec fn param_lit() -> Seq<u8> {
    "{param(".spec_bytes()
}

/// The bounds of the function-name capture when the key-function
/// pattern matches at offset `i`: the literal `function`, whitespace,
/// the name, whitespace, then `{param(` and a non-empty run up to a
/// closing parenthesis.
pub open spec fn function_match_at(s: Seq<u8>, i: int) -> Option<(int, int)> {
    if !crate::bytesutil::matches_at(s, function_lit(), i) {
        None
    } else {
        let j1 = i + function_lit().len();
        let j2 = run_end_ws(s, j1);
        if j2 == j1 {
            None
        } else {
            let j3 = run_end_alnum(s, j2);
            if j3 == j2 {
                None
            } else {
                let j4 = run_end_ws(s, j3);
                if j4 == j3 {
                    None
                } else if !crate::bytesutil::matches_at(s, param_lit(), j4) {
                    None
                } else {
                    let j5 = j4 + param_lit().len();
                    let j6 = run_end_nonparen(s, j5);
                    if j6 == j5 {
                        None
                    } else if j6 < s.len() && s[j6] == 0x29 {
                        Some((j2, j3))
                    } else {
                        None
                    }
                }
            }
        }
    }
}

/// The leftmost function-name capture at or after `from`.
pub open spec fn spec_find_function(s: Seq<u8>, from: int) -> Option<(int, int)>
    decreases s.len() - from + 1,
{
    if from < 0 || from > s.len() {
        None
    } else {
        match function_match_at(s, from) {
            Some(c) => Some(c),
            None => {
                if from == s.len() {
                    None
                } else {
                    spec_find_function(s, from + 1)
                }
            },
        }
    }
}

/// Tests the key-function pattern at one offset and hands back the
/// capture bounds.
fn function_match_at_exec(s: &[u8], i: usize) -> (r: Option<(usize, usize)>)
    requires
        i <= s@.len(),
    ensures
        match r {
            Some((a, b)) => function_match_at(s@, i as int) == Some((a as int, b as int)),
            None => function_match_at(s@, i as int) is None,
        },
{
    let _n: usize = s.len();
    let flit = slice_to_vec("function".as_bytes());
    let plit = slice_to_vec("{param(".as_bytes());
    if !crate::bytesutil::starts_with_at(s, flit.as_slice(), i) {
        return None;
    }
    let j1: usize = i + flit.len();
    let j2 = scan_ws(s, j1);
    if j2 == j1 {
        return None;
    }
    let j3 = scan_alnum(s, j2);
    if j3 == j2 {
        return None;
    }
    let j4 = scan_ws(s, j3);
    if j4 == j3 {
        return None;
    }
    if !crate::bytesutil::starts_with_at(s, plit.as_slice(), j4) {
        return None;
    }
    let j5: usize = j4 + plit.len();
    let j6 = scan_nonparen(s, j5);
    if j6 == j5 {
        return None;
    }
    if j6 < s.len() {
        assert(s@[j6 as int] == 0x29);
        Some((j2, j3))
    } else {
        None
    }
}

/// Finds the leftmost function-name capture.
#[verifier::loop_isolation(false)]
pub fn find_function_name(s: &[u8]) -> (r: Option<(usize, usize)>)
    ensures
        match r {
            Some((a, b)) => spec_find_function(s@, 0) == Some((a as int, b as int)),
            None => spec_find_function(s@, 0) is None,
        },
{
    let mut i: usize = 0;
    loop
        invariant
            0 <= i <= s@.len(),
            spec_find_function(s@, 0) == spec_find_function(s@, i as int),
        decreases s@.len() - i,
    {
        match function_match_at_exec(s, i) {
            Some(c) => {
                return Some(c);
            },
            None => {},
        }
        if i == s.len() {
            return None;
        }
        i = i + 1;
    }
}

/// The bounds of the key capture when the quoted-key pattern matches at
/// offset `i`: `("`, exactly twelve `[A-z0-9]` bytes, then `")`.
pub open spec fn key_match_at(s: Seq<u8>, i: int) -> bool {
    &&& 0 <= i
    &&& i + 16 <= s.len()
    &&& s[i] == 0x28
    &&& s[i + 1] == 0x22
    &&& (forall|k: int| 0 <= k < 12 ==> class_alnum_wide(#[trigger] s[i + 2 + k]))
    &&& s[i + 14] == 0x22
    &&& s[i + 15] == 0x29
}

/// The leftmost key-pattern match at or after `from`.
pub open spec fn spec_find_key(s: Seq<u8>, from: int) -> Option<int>
    decreases s.len() - from + 1,
{
    if from < 0 || from + 16 > s.len() {
        None
    } else if key_match_at(s, from) {
        Some(from)
    } else {
        spec_find_key(s, from + 1)
    }
}

/// Tests the quoted-key pattern at one offset.
#[verifier::loop_isolation(false)]
fn key_match_at_exec(s: &[u8], i: usize) -> (r: bool)
    requires
        i + 16 <= s@.len(),
    ensures
        r == key_match_at(s@, i as int),
{
    let _n: usize = s.len();
    if !(s[i] == 0x28 && s[i + 1] == 0x22 && s[i + 14] == 0x22 && s[i + 15] == 0x29) {
        return false;
    }
    let mut k: usize = 0;
    while k < 12
        invariant
            0 <= k <= 12,
            forall|t: int| 0 <= t < k ==> class_alnum_wide(#[trigger] s@[i + 2 + t]),
        decreases 12 - k,
    {
        let b = s[i + 2 + k];
        if !((0x41 <= b && b <= 0x7a) || (0x30 <= b && b <= 0x39)) {
            assert(!class_alnum_wide(s@[i + 2 + k]));
            return false;
        }
        k = k + 1;
    }
    true
}

/// Finds the leftmost quoted twelve-character key.
#[verifier::loop_isolation(false)]
pub fn find_key(s: &[u8]) -> (r: Option<usize>)
    ensures
        match r {
            Some(i) => Some(i as int) == spec_find_key(s@, 0),
            None => spec_find_key(s@, 0) is None,
        },
{
    if s.len() < 16 {
        return None;
    }
    let last: usize = s.len() - 16;
    let mut i: usize = 0;
    loop
        invariant
            0 <= i <= last,
            spec_find_key(s@, 0) == spec_find_key(s@, i as int),
        decreases last - i,
    {
        if key_match_at_exec(s, i) {
            return Some(i);
        }
        if i == last {
            return None;
        }
        i = i + 1;
    }
}

/// The bounds of the base64-blob capture when the quoted-blob pattern
/// matches at offset `i` for the given function name: the name,
/// whitespace, a quote, a non-empty `[A-z0-9+/=]` run, and a closing
/// quote.
pub open spec fn blob_match_at(s: Seq<u8>, name: Seq<u8>, i: int) -> Option<(int, int)> {
    if !crate::bytesutil::matches_at(s, name, i) {
        None
    } else {
        let j1 = i + name.len();
        let j2 = run_end_ws(s, j1);
        if j2 == j1 {
            None
        } else if !(j2 < s.len() && s[j2] == 0x22) {
            None
        } else {
            let j3 = j2 + 1;
            let j4 = run_end_b64(s, j3);
            if j4 == j3 {
                None
            } else if j4 < s.len() && s[j4] == 0x22 {
                Some((j3, j4))
            } else {
                None
            }
        }
    }
}

/// The leftmost base64-blob capture at or after `from`.
pub open spec fn spec_find_blob(s: Seq<u8>, name: Seq<u8>, from: int) -> Option<(int, int)>
    decreases s.len() - from + 1,
{
    if from < 0 || from > s.len() {
        None
    } else {
        match blob_match_at(s, name, from) {
            Some(c) => Some(c),
            None => {
                if from == s.len() {
                    None
                } else {
                    spec_find_blob(s, name, from + 1)
                }
            },
        }
    }
}

/// Tests the quoted-blob pattern at one offset.
fn blob_match_at_exec(s: &[u8], name: &[u8], i: usize) -> (r: Option<(usize, usize)>)
    requires
        i <= s@.len(),
    ensures
        match r {
            Some((a, b)) => blob_match_at(s@, name@, i as int) == Some((a as int, b as int)),
            None => blob_match_at(s@, name@, i as int) is None,
        },
{
    let _n: usize = s.len();
    if !crate::bytesutil::starts_with_at(s, name, i) {
        return None;
    }
    let j1: usize = i + name.len();
    let j2 = scan_ws(s, j1);
    if j2 == j1 {
        return None;
    }
    if !(j2 < s.len() && s[j2] == 0x22) {
        return None;
    }
    let j3: usize = j2 + 1;
    let j4 = scan_b64(s, j3);
    if j4 == j3 {
        return None;
    }
    if j4 < s.len() && s[j4] == 0x22 {
        Some((j3, j4))
    } else {
        None
    }
}

/// Finds the leftmost quoted base64 blob that follows the function
/// name.
#[verifier::loop_isolation(false)]
pub fn find_blob(s: &[u8], name: &[u8]) -> (r: Option<(usize, usize)>)
    ensures
        match r {
            Some((a, b)) => spec_find_blob(s@, name@, 0) == Some((a as int, b as int)),
            None => spec_find_blob(s@, name@, 0) is None,
        },
{
    let mut i: usize = 0;
    loop
        invariant
            0 <= i <= s@.len(),
            spec_find_blob(s@, name@, 0) == spec_find_blob(s@, name@, i as int),
        decreases s@.len() - i,
    {
        match blob_match_at_exec(s, name, i) {
            Some(c) => {
                return Some(c);
            },
            None => {},
        }
        if i == s.len() {
            return None;
        }
        i = i + 1;
    }
}

/// What key-and-blob extraction yields on the decoded text: the twelve
/// quoted key characters and the quoted base64 blob that follows the
/// name of the key-defining function.
pub open spec fn spec_extract_key_and_base64(s: Seq<u8>) -> Result<
    (Seq<u8>, Seq<u8>),
    DecodeError,
> {
    match spec_find_function(s, 0) {
        None => Err(DecodeError::MarkerNotFound),
        Some((ns, ne)) => {
            let name = s.subrange(ns, ne);
            match spec_find_key(s, 0) {
                None => Err(DecodeError::MarkerNotFound),
                Some(k) => match spec_find_blob(s, name, 0) {
                    None => Err(DecodeError::MarkerNotFound),
                    Some((bs, be)) => Ok((s.subrange(k + 2, k + 14), s.subrange(bs, be))),
                },
            }
        },
    }
}

/// Extracts the XOR key and base64 blob from a PowerShell stage's
/// decoded text by the family's three fixed patterns.
pub fn extract_key_and_base64_from_ps_xor_base64(sample_str: &[u8]) -> (r: Result<
    (Vec<u8>, Vec<u8>),
    DecodeError,
>)
    ensures
        match (r, spec_extract_key_and_base64(sample_str@)) {
            (Ok(v), Ok(s)) => v.0@ == s.0 && v.1@ == s.1,
            (Err(e), Err(s)) => e == s,
            _ => false,
        },
{
    let _n: usize = sample_str.len();
    let (ns, ne) = match find_function_name(sample_str) {
        Some(c) => c,
        None => {
            return Err(DecodeError::MarkerNotFound);
        },
    };
    proof {
        lemma_find_function_props(sample_str@, 0);
    }
    let name = copy_range(sample_str, ns, ne);

    let k = match find_key(sample_str) {
        Some(k) => k,
        None => {
            return Err(DecodeError::MarkerNotFound);
        },
    };
    proof {
        lemma_find_key_props(sample_str@, 0);
    }

    let (bs, be) = match find_blob(sample_str, name.as_slice()) {
        Some(c) => c,
        None => {
            return Err(DecodeError::MarkerNotFound);
        },
    };
    proof {
        lemma_find_blob_props(sample_str@, name@, 0);
    }

    let key = copy_range(sample_str, k + 2, k + 14);
    let blob = copy_range(sample_str, bs, be);
    Ok((key, blob))
}

/// What a found function capture guarantees: bounds within the text.
proof fn lemma_find_function_props(s: Seq<u8>, from: int)
    requires
        spec_find_function(s, from) is Some,
    ensures
        ({
            let (a, b) = spec_find_function(s, from).unwrap();
            0 <= a <= b <= s.len()
        }),
    decreases s.len() - from + 1,
{
    if from < 0 || from > s.len() {
    } else {
        match function_match_at(s, from) {
            Some(c) => {
                lemma_run_end_alnum_props(s, run_end_ws(s, from + function_lit().len()));
                lemma_run_end_ws_props(s, from + function_lit().len());
            },
            None => {
                if from < s.len() {
                    lemma_find_function_props(s, from + 1);
                }
            },
        }
    }
}

/// The whitespace run never leaves the text.
proof fn lemma_run_end_ws_props(s: Seq<u8>, j: int)
    requires
        0 <= j <= s.len(),
    ensures
        j <= run_end_ws(s, j) <= s.len(),
    decreases s.len() - j,
{
    if j < s.len() && spec_is_ws(s[j]) {
        lemma_run_end_ws_props(s, j + 1);
    }
}

/// The alphanumeric run never leaves the text.
proof fn lemma_run_end_alnum_props(s: Seq<u8>, j: int)
    requires
        0 <= j <= s.len(),
    ensures
        j <= run_end_alnum(s, j) <= s.len(),
    decreases s.len() - j,
{
    if j < s.len() && class_alnum_wide(s[j]) {
        lemma_run_end_alnum_props(s, j + 1);
    }
}

/// What a found key match guarantees: room for all sixteen bytes.
proof fn lemma_find_key_props(s: Seq<u8>, from: int)
    requires
        spec_find_key(s, from) is Some,
    ensures
        ({
            let k = spec_find_key(s, from).unwrap();
            from <= k && k + 16 <= s.len()
        }),
    decreases s.len() - from + 1,
{
    if from < 0 || from + 16 > s.len() {
    } else if key_match_at(s, from) {
    } else {
        lemma_find_key_props(s, from + 1);
    }
}

/// What a found blob capture guarantees: bounds within the text.
proof fn lemma_find_blob_props(s: Seq<u8>, name: Seq<u8>, from: int)
    requires
        spec_find_blob(s, name, from) is Some,
    ensures
        ({
            let (a, b) = spec_find_blob(s, name, from).unwrap();
            0 <= a <= b <= s.len()
        }),
    decreases s.len() - from + 1,
{
    if from < 0 || from > s.len() {
    } else {
        match blob_match_at(s, name, from) {
            Some(c) => {
                lemma_run_end_b64_props(s, run_end_ws(s, from + name.len()) + 1);
            },
            None => {
                if from < s.len() {
                    lemma_find_blob_props(s, name, from + 1);
                }
            },
        }
    }
}

/// The base64 run never leaves the text.
proof fn lemma_run_end_b64_props(s: Seq<u8>, j: int)
    requires
        0 <= j <= s.len(),
    ensures
        j <= run_end_b64(s, j) <= s.len(),
    decreases s.len() - j,
{
    if j < s.len() && class_b64(s[j]) {
        lemma_run_end_b64_props(s, j + 1);
    }
}

/// The bytes of the numeric expression sub-grammar: digits, the
/// arithmetic operators, parentheses, the decimal point and ASCII
/// whitespace. No alphabetic byte stands here, so the evaluator can
/// reach no named function or variable.
pub open spec fn spec_numeric_expr_byte(b: u8) -> bool {
    (0x30 <= b <= 0x39) || b == 0x2b || b == 0x2d || b == 0x2a || b == 0x2f || b == 0x25 || b
        == 0x21 || b == 0x28 || b == 0x29 || b == 0x2e || b == 0x20 || b == 0x09 || b == 0x0a || b
        == 0x0d
}

/// An expression the evaluator is trusted on: only sub-grammar bytes,
/// and no adjacent `**` (whose power operator is not precision-stable
/// across platforms).
pub open spec fn spec_is_numeric_expr(e: Seq<u8>) -> bool {
    &&& forall|i: int| 0 <= i < e.len() ==> spec_numeric_expr_byte(#[trigger] e[i])
    &&& forall|i: int| 0 <= i < e.len() - 1 ==> !(#[trigger] e[i] == 0x2a && e[i + 1] == 0x2a)
}

/// The identifier-opening bytes of the evaluator's lexer: letters and
/// the underscore.
pub open spec fn spec_ident_start_byte(b: u8) -> bool {
    (0x41 <= b <= 0x5a) || (0x61 <= b <= 0x7a) || b == 0x5f
}

/// The call `normal(` of the evaluator's distribution constructors.
pub open spec fn normal_call() -> Seq<u8> {
    seq![0x6eu8, 0x6fu8, 0x72u8, 0x6du8, 0x61u8, 0x6cu8, 0x28u8]
}

/// The call `uniform(`.
pub open spec fn uniform_call() -> Seq<u8> {
    seq![0x75u8, 0x6eu8, 0x69u8, 0x66u8, 0x6fu8, 0x72u8, 0x6du8, 0x28u8]
}

/// The call `lognormal(`.
pub open spec fn lognormal_call() -> Seq<u8> {
    seq![0x6cu8, 0x6fu8, 0x67u8, 0x6eu8, 0x6fu8, 0x72u8, 0x6du8, 0x61u8, 0x6cu8, 0x28u8]
}

/// True when one of the evaluator's distribution constructors is called
/// at offset `i`: its name stands there, followed directly by the
/// opening parenthesis, and no identifier byte before it absorbs the
/// name into a longer, harmless one.
pub open spec fn spec_random_call_at(e: Seq<u8>, i: int) -> bool {
    &&& (crate::bytesutil::matches_at(e, normal_call(), i) || crate::bytesutil::matches_at(
        e,
        uniform_call(),
        i,
    ) || crate::bytesutil::matches_at(e, lognormal_call(), i))
    &&& (i == 0 || !spec_ident_start_byte(e[i - 1]))
}

/// An expression the evaluator is trusted not to abort on: it calls
/// none of the distribution constructors, whose argument checks abort,
/// and no digit stands directly before an `i`, which would make the
/// lexer read a number token its float parser then rejects fatally.
pub open spec fn spec_eval_safe_expr(e: Seq<u8>) -> bool {
    &&& (forall|i: int| 0 <= i < e.len() ==> !spec_random_call_at(e, i))
    &&& (forall|i: int| 0 < i < e.len() ==> !(#[trigger] e[i] == 0x69 && 0x30 <= e[i - 1] <= 0x39))
}

/// Tests whether `e` avoids the evaluator's aborting constructs.
#[verifier::loop_isolation(false)]
pub fn is_eval_safe_expr(e: &[u8]) -> (r: bool)
    ensures
        r == spec_eval_safe_expr(e@),
{
    let normal_pat: Vec<u8> = vec![0x6eu8, 0x6fu8, 0x72u8, 0x6du8, 0x61u8, 0x6cu8, 0x28u8];
    let uniform_pat: Vec<u8> = vec![
        0x75u8, 0x6eu8, 0x69u8, 0x66u8, 0x6fu8, 0x72u8, 0x6du8, 0x28u8,
    ];
    let lognormal_pat: Vec<u8> = vec![
        0x6cu8, 0x6fu8, 0x67u8, 0x6eu8, 0x6fu8, 0x72u8, 0x6du8, 0x61u8, 0x6cu8, 0x28u8,
    ];
    assert(normal_pat@ =~= normal_call());
    assert(uniform_pat@ =~= uniform_call());
    assert(lognormal_pat@ =~= lognormal_call());

    let mut i: usize = 0;
    while i < e.len()
        invariant
            0 <= i <= e@.len(),
            forall|j: int| 0 <= j < i ==> !spec_random_call_at(e@, j),
            forall|j: int| 0 < j < i ==> !(#[trigger] e@[j] == 0x69 && 0x30 <= e@[j - 1] <= 0x39),
        decreases e@.len() - i,
    {
        let shielded = if i == 0 {
            false
        } else {
            let p = e[i - 1];
            (0x41 <= p && p <= 0x5a) || (0x61 <= p && p <= 0x7a) || p == 0x5f
        };
        if !shielded && (crate::bytesutil::starts_with_at(e, normal_pat.as_slice(), i)
            || crate::bytesutil::starts_with_at(e, uniform_pat.as_slice(), i)
            || crate::bytesutil::starts_with_at(e, lognormal_pat.as_slice(), i)) {
            assert(spec_random_call_at(e@, i as int));
            return false;
        }
        if i > 0 && e[i] == 0x69 && 0x30 <= e[i - 1] && e[i - 1] <= 0x39 {
            return false;
        }
        i = i + 1;
    }
    true
}

/// Every piece of the numeric sub-grammar avoids the aborting
/// constructs: it holds no letter at all.
pub proof fn lemma_numeric_expr_is_eval_safe(e: Seq<u8>)
    requires
        spec_is_numeric_expr(e),
    ensures
        spec_eval_safe_expr(e),
{
    assert forall|i: int| 0 <= i < e.len() implies !spec_random_call_at(e, i) by {
        if crate::bytesutil::matches_at(e, normal_call(), i) {
            assert(e.subrange(i, i + 7)[0] == 0x6eu8);
            assert(!spec_numeric_expr_byte(e[i]));
        }
        if crate::bytesutil::matches_at(e, uniform_call(), i) {
            assert(e.subrange(i, i + 8)[0] == 0x75u8);
            assert(!spec_numeric_expr_byte(e[i]));
        }
        if crate::bytesutil::matches_at(e, lognormal_call(), i) {
            assert(e.subrange(i, i + 10)[0] == 0x6cu8);
            assert(!spec_numeric_expr_byte(e[i]));
        }
    }
    assert forall|i: int| 0 < i < e.len() implies !(#[trigger] e[i] == 0x69 && 0x30 <= e[i - 1]
        <= 0x39) by {
        assert(!spec_numeric_expr_byte(0x69u8));
    }
}

/// What evaluating an expression of the numeric sub-grammar yields,
/// truncated to eight bits; `None` when it does not parse or evaluate.
/// On that sub-grammar the evaluation depends on the expression alone.
pub uninterp spec fn eval_expr_of(e: Seq<u8>) -> Option<u8>;

/// Relies on shunting's `ShuntingParser::parse_str` and
/// `MathContext::eval`: parses and evaluates one arithmetic expression;
/// the numeric result is converted to eight bits. The expression must
/// avoid the evaluator's aborting constructs (the distribution
/// constructors, which assert on their arguments, and the lexer's fatal
/// digit-`i` number form); everything else — including the random
/// `rand`, the named constants, and the platform-dependent power and
/// trigonometric functions — evaluates as the crate defines it, with
/// nothing claimed of the value. Only on the numeric sub-grammar, where
/// no identifier can form and only IEEE arithmetic and the pure-Rust
/// gamma function remain, is the result named as a function of the
/// expression alone.
#[verifier::external_body]
fn eval_expr_u8(expr: &[u8]) -> (r: Option<u8>)
    requires
        spec_eval_safe_expr(expr@),
    ensures
        spec_is_numeric_expr(expr@) ==> match r {
            Some(v) => eval_expr_of(expr@) == Some(v),
            None => eval_expr_of(expr@) is None,
        },
{
    let s = match core::str::from_utf8(expr) {
        Ok(s) => s,
        Err(_) => return None,
    };
    let parsed = match shunting::ShuntingParser::parse_str(s) {
        Ok(p) => p,
        Err(_) => return None,
    };
    match shunting::MathContext::new().eval(&parsed) {
        Ok(v) => Some(v as u8),
        Err(_) => None,
    }
}

/// The UTF-8 encoding of the character whose codepoint is the byte `b`,
/// as `String::push` of that character would store it.
pub open spec fn latin1_utf8(b: u8) -> Seq<u8> {
    if b < 0x80 {
        seq![b]
    } else {
        seq![(0xc0u8 | (b >> 6)) as u8, (0x80u8 | (b & 0x3f)) as u8]
    }
}

/// Whether a byte continues a UTF-8 character rather than opening one.
pub open spec fn spec_is_cont_byte(b: u8) -> bool {
    0x80 <= b < 0xc0
}

/// How many characters the first `n` bytes of UTF-8 text open: one per
/// non-continuation byte.
pub open spec fn spec_char_count(s: Seq<u8>, n: int) -> int
    decreases n,
{
    if n <= 0 {
        0
    } else {
        spec_char_count(s, n - 1) + if spec_is_cont_byte(s[n - 1]) {
            0int
        } else {
            1int
        }
    }
}

/// Counting reads only the first `n` bytes, so equal prefixes count
/// equally.
proof fn lemma_char_count_congruent(s1: Seq<u8>, s2: Seq<u8>, n: int)
    requires
        forall|i: int| 0 <= i < n ==> s1[i] == s2[i],
    ensures
        spec_char_count(s1, n) == spec_char_count(s2, n),
    decreases n,
{
    if n > 0 {
        lemma_char_count_congruent(s1, s2, n - 1);
    }
}

/// The comma-separated pieces of `s` from `from` on, empty pieces
/// included.
pub open spec fn spec_split_commas(s: Seq<u8>, from: int) -> Seq<Seq<u8>>
    decreases s.len() - from + 1,
    via spec_split_commas_dec
{
    if from < 0 || from > s.len() {
        Seq::<Seq<u8>>::empty()
    } else {
        match crate::bytesutil::spec_find_byte(s, 0x2c, from) {
            None => seq![s.subrange(from, s.len() as int)],
            Some(i) => seq![s.subrange(from, i)] + spec_split_commas(s, i + 1),
        }
    }
}

#[via_fn]
proof fn spec_split_commas_dec(s: Seq<u8>, from: int) {
    if 0 <= from <= s.len() {
        match crate::bytesutil::spec_find_byte(s, 0x2c, from) {
            None => {},
            Some(i) => {
                crate::bytesutil::lemma_spec_find_byte_props(s, 0x2c, from);
            },
        }
    }
}

/// The deterministic model of deobfuscation, exact when every piece
/// lies in the numeric sub-grammar: each piece evaluates to a byte and
/// is pushed as one character, stopping at the first failure.
pub open spec fn spec_deobf_pieces(ps: Seq<Seq<u8>>, i: int) -> Result<Seq<u8>, DecodeError>
    decreases ps.len() - i,
{
    if i < 0 || i >= ps.len() {
        Ok(Seq::<u8>::empty())
    } else if !spec_is_numeric_expr(ps[i]) {
        Err(DecodeError::ExprEval)
    } else {
        match eval_expr_of(ps[i]) {
            None => Err(DecodeError::ExprEval),
            Some(b) => match spec_deobf_pieces(ps, i + 1) {
                Err(e) => Err(e),
                Ok(rest) => Ok(latin1_utf8(b) + rest),
            },
        }
    }
}

/// What deobfuscating one obfuscated string yields: split it on commas
/// and evaluate each piece to one character.
pub open spec fn spec_deobfuscate(obf: Seq<u8>) -> Result<Seq<u8>, DecodeError> {
    spec_deobf_pieces(spec_split_commas(obf, 0), 0)
}

/// Splits `s` on commas.
#[verifier::loop_isolation(false)]
fn split_commas(s: &[u8]) -> (r: Vec<Vec<u8>>)
    ensures
        r.deep_view() == spec_split_commas(s@, 0),
{
    let _n: usize = s.len();
    let mut pieces: Vec<Vec<u8>> = Vec::new();
    let mut from: usize = 0;
    loop
        invariant
            0 <= from <= s@.len(),
            spec_split_commas(s@, 0) == pieces.deep_view() + spec_split_commas(s@, from as int),
        decreases s@.len() - from,
    {
        let ghost prev = pieces.deep_view();
        match crate::bytesutil::find_byte_from(s, 0x2c, from) {
            None => {
                let piece = copy_range(s, from, s.len());
                pieces.push(piece);
                proof {
                    assert(pieces.deep_view() =~~= prev.push(s@.subrange(from as int, s@.len() as int)));
                    assert(prev.push(s@.subrange(from as int, s@.len() as int)) =~~= prev
                        + spec_split_commas(s@, from as int));
                }
                return pieces;
            },
            Some(i) => {
                proof {
                    crate::bytesutil::lemma_spec_find_byte_props(s@, 0x2c, from as int);
                }
                let piece = copy_range(s, from, i);
                pieces.push(piece);
                proof {
                    assert(pieces.deep_view() =~~= prev.push(s@.subrange(from as int, i as int)));
                    assert(prev + (seq![s@.subrange(from as int, i as int)] + spec_split_commas(
                        s@,
                        i + 1,
                    )) =~~= pieces.deep_view() + spec_split_commas(s@, i + 1));
                }
                from = i + 1;
            },
        }
    }
}

/// Evaluates each comma-separated arithmetic expression of an
/// obfuscated string and concatenates the resulting characters in
/// order, stopping at the first piece that fails to parse or evaluate.
/// A piece that would abort the evaluator — a distribution-constructor
/// call, or the lexer's fatal digit-`i` number form — is refused as an
/// evaluation failure instead. The characters are pinned exactly when
/// every piece lies in the numeric sub-grammar; for any other input the
/// shape is stated: one character per piece on success, the evaluation
/// error on failure.
#[verifier::loop_isolation(false)]
pub fn deobfuscate_string(obfuscated_string: &[u8]) -> (r: Result<Vec<u8>, DecodeError>)
    ensures
        (forall|k: int|
            0 <= k < spec_split_commas(obfuscated_string@, 0).len() ==> spec_is_numeric_expr(
                #[trigger] spec_split_commas(obfuscated_string@, 0)[k],
            )) ==> match (r, spec_deobfuscate(obfuscated_string@)) {
            (Ok(v), Ok(s)) => v@ == s,
            (Err(e), Err(s)) => e == s,
            _ => false,
        },
        r matches Err(e) ==> e == DecodeError::ExprEval,
        r matches Ok(v) ==> spec_char_count(v@, v@.len() as int) == spec_split_commas(
            obfuscated_string@,
            0,
        ).len(),
{
    let pieces = split_commas(obfuscated_string);
    let ghost ps = pieces.deep_view();
    let _np: usize = pieces.len();
    let mut res: Vec<u8> = Vec::new();
    let mut i: usize = 0;
    while i < pieces.len()
        invariant
            0 <= i <= ps.len(),
            ps == pieces.deep_view(),
            pieces@.len() == ps.len(),
            spec_char_count(res@, res@.len() as int) == i,
            (forall|k: int| 0 <= k < ps.len() ==> spec_is_numeric_expr(#[trigger] ps[k]))
                ==> (forall|rest: Seq<u8>|
                spec_deobf_pieces(ps, i as int) == Ok::<Seq<u8>, DecodeError>(rest)
                    ==> spec_deobf_pieces(ps, 0) == Ok::<Seq<u8>, DecodeError>(res@ + rest)),
            (forall|k: int| 0 <= k < ps.len() ==> spec_is_numeric_expr(#[trigger] ps[k]))
                ==> (forall|e: DecodeError|
                spec_deobf_pieces(ps, i as int) == Err::<Seq<u8>, DecodeError>(e)
                    ==> spec_deobf_pieces(ps, 0) == Err::<Seq<u8>, DecodeError>(e)),
        decreases ps.len() - i,
    {
        let ghost prev = res@;
        let ghost allnum = forall|k: int|
            0 <= k < ps.len() ==> spec_is_numeric_expr(#[trigger] ps[k]);
        assert(pieces@[i as int].deep_view() == ps[i as int]);
        assert(pieces@[i as int]@ =~= ps[i as int]);
        if !is_eval_safe_expr(pieces[i].as_slice()) {
            proof {
                if allnum {
                    lemma_numeric_expr_is_eval_safe(ps[i as int]);
                }
            }
            return Err(DecodeError::ExprEval);
        }
        let b = match eval_expr_u8(pieces[i].as_slice()) {
            Some(b) => b,
            None => {
                proof {
                    if allnum {
                        assert(spec_deobf_pieces(ps, i as int) == Err::<Seq<u8>, DecodeError>(
                            DecodeError::ExprEval,
                        ));
                    }
                }
                return Err(DecodeError::ExprEval);
            },
        };
        if b < 0x80 {
            res.push(b);
        } else {
            res.push(0xc0u8 | (b >> 6));
            res.push(0x80u8 | (b & 0x3f));
        }
        proof {
            assert(res@ =~= prev + latin1_utf8(b));
            if b < 0x80 {
                lemma_char_count_congruent(res@, prev, prev.len() as int);
                assert(!spec_is_cont_byte(res@[prev.len() as int]));
                assert(spec_char_count(res@, prev.len() as int + 1) == spec_char_count(
                    res@,
                    prev.len() as int,
                ) + 1);
            } else {
                assert(0xc0u8 | (b >> 6) >= 0xc0) by (bit_vector);
                assert(0x80u8 <= (0x80u8 | (b & 0x3f)) && (0x80u8 | (b & 0x3f)) < 0xc0u8)
                    by (bit_vector);
                lemma_char_count_congruent(res@, prev, prev.len() as int);
                assert(!spec_is_cont_byte(res@[prev.len() as int]));
                assert(spec_is_cont_byte(res@[prev.len() as int + 1]));
                assert(spec_char_count(res@, prev.len() as int + 1) == spec_char_count(
                    res@,
                    prev.len() as int,
                ) + 1);
                assert(spec_char_count(res@, prev.len() as int + 2) == spec_char_count(
                    res@,
                    prev.len() as int + 1,
                ));
            }
            if allnum {
                assert(eval_expr_of(ps[i as int]) == Some(b));
                assert forall|rest: Seq<u8>|
                    spec_deobf_pieces(ps, i + 1) == Ok::<Seq<u8>, DecodeError>(rest) implies
                    spec_deobf_pieces(ps, 0) == Ok::<Seq<u8>, DecodeError>(res@ + rest) by {
                    assert(spec_deobf_pieces(ps, i as int) == Ok::<Seq<u8>, DecodeError>(
                        latin1_utf8(b) + rest,
                    ));
                    assert(prev + (latin1_utf8(b) + rest) =~= (prev + latin1_utf8(b)) + rest);
                }
            }
        }
        i = i + 1;
    }
    proof {
        assert(res@ + Seq::<u8>::empty() =~= res@);
    }
    Ok(res)
}

/// The parenthesis scan of an obfuscated block: from depth one at `i`,
/// walk forward counting `(` and `)` until the depth returns to zero or
/// the text ends, failing on a split codepoint.
pub open spec fn spec_scan_parens(s: Seq<u8>, i: int, pos: int) -> Result<int, ()>
    decreases s.len() - i,
{
    if pos == 0 || i < 0 || i >= s.len() {
        Ok(i)
    } else if !(spec_is_char_boundary(s, i) && spec_is_char_boundary(s, i + 1)) {
        Err(())
    } else {
        let pos2 = if s[i] == 0x28 {
            pos + 1
        } else if s[i] == 0x29 {
            pos - 1
        } else {
            pos
        };
        spec_scan_parens(s, i + 1, pos2)
    }
}

/// The opening marker of an obfuscated block.
pub open spec fn obf_open() -> Seq<u8> {
    "@(".spec_bytes()
}

/// The obfuscated strings of the text from `from` on: for each `@(`,
/// the trimmed text up to its balancing parenthesis, kept when the
/// scan stays on character boundaries and the trimmed text is
/// non-empty.
pub open spec fn spec_obf_strings(s: Seq<u8>, from: int) -> Seq<Seq<u8>>
    decreases s.len() - from + 1,
    via spec_obf_strings_dec
{
    match spec_find(s, obf_open(), from) {
        None => Seq::<Seq<u8>>::empty(),
        Some(j) => {
            let rest = spec_obf_strings(s, j + 2);
            match spec_scan_parens(s, j + 2, 1) {
                Err(_) => rest,
                Ok(i) => {
                    if i - 1 < j + 2 {
                        rest
                    } else {
                        let tmp = spec_trim(s.subrange(j + 2, i - 1));
                        if tmp.len() > 0 {
                            seq![tmp] + rest
                        } else {
                            rest
                        }
                    }
                },
            }
        },
    }
}

#[via_fn]
proof fn spec_obf_strings_dec(s: Seq<u8>, from: int) {
    match spec_find(s, obf_open(), from) {
        None => {},
        Some(j) => {
            lemma_spec_find_props(s, obf_open(), from);
            reveal_strlit("@(");
        },
    }
}

/// Recovers the obfuscated strings of a text: the trimmed contents of
/// every balanced `@( ... )` block.
pub fn get_obfuscated_strings_from_sample(sample_str: &[u8]) -> (r: Vec<Vec<u8>>)
    ensures
        r.deep_view() == spec_obf_strings(sample_str@, 0),
{
    let _n: usize = sample_str.len();
    let marker = slice_to_vec("@(".as_bytes());
    proof {
        reveal_strlit("@(");
        assert(vstd::string::is_ascii("@("));
        vstd::string::is_ascii_spec_bytes("@(");
    }
    assert(marker@.len() == 2);
    let mut out: Vec<Vec<u8>> = Vec::new();
    let mut from: usize = 0;
    loop
        invariant
            0 <= from,
            sample_str@.len() <= usize::MAX,
            marker@ == obf_open(),
            marker@.len() == 2,
            spec_obf_strings(sample_str@, 0) == out.deep_view() + spec_obf_strings(
                sample_str@,
                from as int,
            ),
        decreases sample_str@.len() - from + 1,
    {
        let ghost prev = out.deep_view();
        let j = match find_sub_from(sample_str, marker.as_slice(), from) {
            None => {
                proof {
                    assert(prev + Seq::<Seq<u8>>::empty() =~~= prev);
                }
                return out;
            },
            Some(j) => j,
        };
        proof {
            lemma_spec_find_props(sample_str@, marker@, from as int);
        }

        let start: usize = j + 2;
        let mut pos: usize = 1;
        let mut i: usize = start;
        let mut failed: bool = false;
        loop
            invariant_except_break
                !failed,
            invariant
                start <= i <= sample_str@.len(),
                1 <= start,
                sample_str@.len() <= usize::MAX,
                pos <= 1 + i - start,
                spec_scan_parens(sample_str@, start as int, 1) == spec_scan_parens(
                    sample_str@,
                    i as int,
                    pos as int,
                ),
            ensures
                pos == 0 || i >= sample_str@.len() || failed,
                failed ==> spec_scan_parens(sample_str@, start as int, 1) is Err,
                !failed ==> spec_scan_parens(sample_str@, start as int, 1) == Ok::<int, ()>(
                    i as int,
                ),
            decreases sample_str@.len() - i,
        {
            if pos == 0 || i >= sample_str.len() {
                break;
            }
            if !(is_char_boundary_at(sample_str, i) && is_char_boundary_at(sample_str, i + 1)) {
                failed = true;
                break;
            }
            if sample_str[i] == 0x28 {
                pos = pos + 1;
            } else if sample_str[i] == 0x29 {
                pos = pos - 1;
            }
            i = i + 1;
        }

        if !failed {
            if i >= 1 && i - 1 >= start {
                let tmp = trim_bytes(crate::bytesutil::copy_range(sample_str, start, i - 1).as_slice());
                if tmp.len() > 0 {
                    let ghost t = tmp@;
                    out.push(tmp);
                    proof {
                        assert(out.deep_view() =~~= prev.push(t));
                        assert(prev + (seq![t] + spec_obf_strings(sample_str@, start as int))
                            =~~= out.deep_view() + spec_obf_strings(sample_str@, start as int));
                    }
                }
            }
        }
        from = start;
    }
}

/// A list of strings in descending length order.
pub open spec fn spec_sorted_desc(s: Seq<Seq<u8>>) -> bool {
    forall|i: int, j: int| 0 <= i < j < s.len() ==> (#[trigger] s[i]).len() >= (#[trigger] s[j]).len()
}

/// Every comma piece of the string lies in the numeric sub-grammar.
pub open spec fn spec_pieces_numeric(s: Seq<u8>) -> bool {
    forall|k: int|
        0 <= k < spec_split_commas(s, 0).len() ==> spec_is_numeric_expr(
            #[trigger] spec_split_commas(s, 0)[k],
        )
}

/// Every obfuscated string of the text deobfuscates within the numeric
/// sub-grammar: the domain on which the whole deobfuscation is a
/// function of the text alone.
pub open spec fn spec_obf_all_numeric(text: Seq<u8>) -> bool {
    forall|k: int|
        0 <= k < spec_obf_strings(text, 0).len() ==> spec_pieces_numeric(
            #[trigger] spec_obf_strings(text, 0)[k],
        )
}

/// Inserting one string into a list already sorted by descending
/// length: it goes before the first strictly shorter entry, after any
/// of equal length.
pub open spec fn spec_insert_desc(v: Seq<u8>, s: Seq<Seq<u8>>) -> Seq<Seq<u8>>
    decreases s.len(),
{
    if s.len() == 0 {
        seq![v]
    } else if v.len() > s[0].len() {
        seq![v] + s
    } else {
        seq![s[0]] + spec_insert_desc(v, s.drop_first())
    }
}

/// The first `i` items inserted one by one: a stable sort by
/// descending length.
pub open spec fn spec_sorted_prefix(items: Seq<Seq<u8>>, i: int) -> Seq<Seq<u8>>
    decreases i,
{
    if i <= 0 {
        Seq::<Seq<u8>>::empty()
    } else {
        spec_insert_desc(items[i - 1], spec_sorted_prefix(items, i - 1))
    }
}

/// The deobfuscated strings of the pieces from index `i` on, keeping
/// those that evaluate.
pub open spec fn spec_deobf_ok_list(items: Seq<Seq<u8>>, i: int) -> Seq<Seq<u8>>
    decreases items.len() - i,
{
    if i < 0 || i >= items.len() {
        Seq::<Seq<u8>>::empty()
    } else {
        match spec_deobfuscate(items[i]) {
            Ok(v) => seq![v] + spec_deobf_ok_list(items, i + 1),
            Err(_) => spec_deobf_ok_list(items, i + 1),
        }
    }
}

/// What the sorted deobfuscation yields: every obfuscated string that
/// deobfuscates, stably sorted by descending length.
pub open spec fn spec_deobf_sorted(s: Seq<u8>) -> Seq<Seq<u8>> {
    let obf = spec_obf_strings(s, 0);
    let oks = spec_deobf_ok_list(obf, 0);
    spec_sorted_prefix(oks, oks.len() as int)
}

/// Inserts `v` into a vector sorted by descending length, before the
/// first strictly shorter entry.
#[verifier::loop_isolation(false)]
fn insert_desc(out: &mut Vec<Vec<u8>>, v: Vec<u8>)
    ensures
        final(out).deep_view() == spec_insert_desc(v@, old(out).deep_view()),
        spec_sorted_desc(old(out).deep_view()) ==> spec_sorted_desc(final(out).deep_view()),
{
    let ghost s = out.deep_view();
    let mut k: usize = 0;
    while k < out.len() && v.len() <= out[k].len()
        invariant
            0 <= k <= s.len(),
            s == out.deep_view(),
            out@.len() == s.len(),
            forall|t: int| 0 <= t < k ==> v@.len() <= (#[trigger] s[t]).len(),
        decreases s.len() - k,
    {
        k = k + 1;
    }
    let ghost vk = v@;
    out.insert(k, v);
    proof {
        assert(out.deep_view() =~~= s.subrange(0, k as int) + seq![vk] + s.subrange(
            k as int,
            s.len() as int,
        ));
        lemma_insert_desc_at(vk, s, k as int);
        if spec_sorted_desc(s) {
            let outv = out.deep_view();
            assert forall|a: int, b2: int| 0 <= a < b2 < outv.len() implies (
            #[trigger] outv[a]).len() >= (#[trigger] outv[b2]).len() by {
                if a < k && b2 < k {
                    assert(outv[a] == s[a] && outv[b2] == s[b2]);
                } else if a < k && b2 == k {
                    assert(outv[a] == s[a] && outv[b2] == vk);
                } else if a < k && b2 > k {
                    assert(outv[a] == s[a] && outv[b2] == s[b2 - 1]);
                } else if a == k && b2 > k {
                    assert(outv[a] == vk && outv[b2] == s[b2 - 1]);
                    assert(vk.len() > s[k as int].len());
                    assert(s[k as int].len() >= s[b2 - 1].len());
                } else {
                    assert(outv[a] == s[a - 1] && outv[b2] == s[b2 - 1]);
                }
            }
        }
    }
}

/// Where the insertion lands: after the entries at least as long,
/// before the rest.
proof fn lemma_insert_desc_at(v: Seq<u8>, s: Seq<Seq<u8>>, k: int)
    requires
        0 <= k <= s.len(),
        forall|t: int| 0 <= t < k ==> v.len() <= (#[trigger] s[t]).len(),
        k < s.len() ==> v.len() > s[k].len(),
    ensures
        spec_insert_desc(v, s) == s.subrange(0, k) + seq![v] + s.subrange(k, s.len() as int),
    decreases s.len(),
{
    if s.len() == 0 {
        assert(spec_insert_desc(v, s) =~~= s.subrange(0, k) + seq![v] + s.subrange(
            k,
            s.len() as int,
        ));
    } else if v.len() > s[0].len() {
        assert(k == 0);
        assert(s.subrange(0, s.len() as int) =~~= s);
        assert(spec_insert_desc(v, s) =~~= s.subrange(0, 0) + seq![v] + s.subrange(
            0,
            s.len() as int,
        ));
    } else {
        assert(k >= 1);
        let d = s.drop_first();
        assert(forall|t: int| 0 <= t < k - 1 ==> v.len() <= (#[trigger] d[t]).len()) by {
            assert(forall|t: int| 0 <= t < k - 1 ==> d[t] == s[t + 1]);
        }
        lemma_insert_desc_at(v, d, k - 1);
        assert(seq![s[0]] + (d.subrange(0, k - 1) + seq![v] + d.subrange(k - 1, d.len() as int))
            =~~= s.subrange(0, k) + seq![v] + s.subrange(k, s.len() as int));
    }
}

/// Recovers every obfuscated string of the text that deobfuscates, and
/// hands them back stably sorted by descending length.
#[verifier::loop_isolation(false)]
pub fn get_deobfuscated_strings_from_sample_sorted(sample_str: &[u8]) -> (r: Vec<Vec<u8>>)
    ensures
        spec_obf_all_numeric(sample_str@) ==> r.deep_view() == spec_deobf_sorted(sample_str@),
        spec_sorted_desc(r.deep_view()),
{
    let obf = get_obfuscated_strings_from_sample(sample_str);
    let ghost items = obf.deep_view();
    let ghost allnum = spec_obf_all_numeric(sample_str@);

    let mut oks: Vec<Vec<u8>> = Vec::new();
    let mut i: usize = 0;
    while i < obf.len()
        invariant
            0 <= i <= items.len(),
            items == obf.deep_view(),
            obf@.len() == items.len(),
            allnum == spec_obf_all_numeric(sample_str@),
            items == spec_obf_strings(sample_str@, 0),
            allnum ==> spec_deobf_ok_list(items, 0) == oks.deep_view() + spec_deobf_ok_list(
                items,
                i as int,
            ),
        decreases items.len() - i,
    {
        let ghost prev = oks.deep_view();
        assert(obf@[i as int].deep_view() == items[i as int]);
        assert(obf@[i as int]@ =~= items[i as int]);
        proof {
            if allnum {
                assert(spec_pieces_numeric(items[i as int]));
            }
        }
        match deobfuscate_string(obf[i].as_slice()) {
            Ok(v) => {
                let ghost gv = v@;
                oks.push(v);
                proof {
                    assert(oks.deep_view() =~~= prev.push(gv));
                    if allnum {
                        assert(prev + (seq![gv] + spec_deobf_ok_list(items, i + 1))
                            =~~= oks.deep_view() + spec_deobf_ok_list(items, i + 1));
                    }
                }
            },
            Err(_) => {},
        }
        i = i + 1;
    }
    proof {
        if allnum {
            assert(oks.deep_view() + Seq::<Seq<u8>>::empty() =~~= oks.deep_view());
        }
    }
    let ghost okseq = oks.deep_view();

    let mut sorted: Vec<Vec<u8>> = Vec::new();
    let mut j: usize = 0;
    let total = oks.len();
    let mut rest = oks;
    while j < total
        invariant
            0 <= j <= total,
            total == okseq.len(),
            rest@.len() == total - j,
            rest.deep_view() =~~= okseq.subrange(j as int, okseq.len() as int),
            sorted.deep_view() == spec_sorted_prefix(okseq, j as int),
            spec_sorted_desc(sorted.deep_view()),
        decreases total - j,
    {
        let ghost before = rest.deep_view();
        let v = rest.remove(0);
        proof {
            assert(before[0] == okseq.subrange(j as int, okseq.len() as int)[0]);
            assert(v@ == before[0]);
            assert(v@ == okseq[j as int]);
            assert(rest.deep_view() =~~= okseq.subrange(j + 1, okseq.len() as int)) by {
                assert forall|k: int| 0 <= k < rest@.len() implies rest.deep_view()[k]
                    == okseq.subrange(j + 1, okseq.len() as int)[k] by {
                    assert(rest.deep_view()[k] == before[k + 1]);
                    assert(before[k + 1] == okseq.subrange(j as int, okseq.len() as int)[k + 1]);
                }
            }
        }
        insert_desc(&mut sorted, v);
        j = j + 1;
    }
    sorted
}

/// The sample kinds this family distinguishes; the XOR variant carries
/// the recovered key and base64 blob.
#[allow(non_camel_case_types)]
#[derive(Debug, Clone)]
pub enum SampleType {
    PS_Xor_B64(Vec<u8>, Vec<u8>),
    PS_DGA_iex,
    PS_Start_Process,
    PS_Two_Liner,
    Java,
    X509,
}

/// The context marker of the domain-generation stage.
pub open spec fn dga_marker_a() -> Seq<u8> {
    "$executioncontext;".spec_bytes()
}

/// One of its two download markers.
pub open spec fn dga_marker_b() -> Seq<u8> {
    "$global:block=(curl".spec_bytes()
}

/// The other download marker.
pub open spec fn dga_marker_c() -> Seq<u8> {
    "iex(curl".spec_bytes()
}

/// The marker of the re-spawning stage.
pub open spec fn start_process_marker() -> Seq<u8> {
    "start-process powershell".spec_bytes()
}

/// The prefix of an embedded code snippet.
pub open spec fn java_prefix() -> Seq<u8> {
    "using System".spec_bytes()
}

/// The prefix of an embedded base64 certificate.
pub open spec fn x509_prefix() -> Seq<u8> {
    "MIIE".spec_bytes()
}

/// The domain-generation stage test over decoded text.
pub open spec fn spec_is_dga(t: Seq<u8>) -> bool {
    spec_contains(t, dga_marker_a()) && (spec_contains(t, dga_marker_b()) || spec_contains(
        t,
        dga_marker_c(),
    ))
}

/// How many newline bytes stand among the first `n`.
pub open spec fn count_nl(s: Seq<u8>, n: int) -> int
    decreases n,
{
    if n <= 0 {
        0
    } else {
        count_nl(s, n - 1) + if s[n - 1] == 0x0a {
            1int
        } else {
            0int
        }
    }
}

/// How many lines the text has, as line splitting counts them: one per
/// newline, plus a final unterminated line.
pub open spec fn spec_line_count(s: Seq<u8>) -> int {
    count_nl(s, s.len() as int) + if s.len() > 0 && s.last() != 0x0a {
        1int
    } else {
        0int
    }
}

/// No prefix holds more newlines than bytes.
proof fn lemma_count_nl_le(s: Seq<u8>, n: int)
    requires
        0 <= n <= s.len(),
    ensures
        count_nl(s, n) <= n,
    decreases n,
{
    if n > 0 {
        lemma_count_nl_le(s, n - 1);
    }
}

/// Counts the lines of the text.
#[verifier::loop_isolation(false)]
pub fn line_count(s: &[u8]) -> (r: usize)
    ensures
        r == spec_line_count(s@),
{
    let mut count: usize = 0;
    let mut i: usize = 0;
    while i < s.len()
        invariant
            0 <= i <= s@.len(),
            count == count_nl(s@, i as int),
            count <= i,
        decreases s@.len() - i,
    {
        if s[i] == 0x0a {
            count = count + 1;
        }
        i = i + 1;
    }
    if s.len() > 0 && s[s.len() - 1] != 0x0a {
        proof {
            lemma_count_nl_le(s@, s@.len() - 1);
        }
        count = count + 1;
    }
    count
}

/// Classifies a sample over its decoded text: the XOR stage whenever
/// its key and blob extract, then the fixed marker chain, then the
/// short-script fallback.
pub fn detect_sample_type(sample_data: &[u8]) -> (r: Option<SampleType>)
    ensures
        ({
            let text = spec_text_of(sample_data@);
            match r {
                Some(SampleType::PS_Xor_B64(k, b)) => spec_extract_key_and_base64(text) == Ok::<
                    (Seq<u8>, Seq<u8>),
                    DecodeError,
                >((k@, b@)),
                Some(SampleType::PS_DGA_iex) => spec_extract_key_and_base64(text) is Err
                    && spec_is_dga(text),
                Some(SampleType::PS_Start_Process) => spec_extract_key_and_base64(text) is Err
                    && !spec_is_dga(text) && spec_contains(text, start_process_marker()),
                Some(SampleType::Java) => spec_extract_key_and_base64(text) is Err && !spec_is_dga(
                    text,
                ) && !spec_contains(text, start_process_marker())
                    && crate::bytesutil::spec_starts_with(spec_trim(text), java_prefix()),
                Some(SampleType::X509) => spec_extract_key_and_base64(text) is Err && !spec_is_dga(
                    text,
                ) && !spec_contains(text, start_process_marker())
                    && !crate::bytesutil::spec_starts_with(spec_trim(text), java_prefix())
                    && crate::bytesutil::spec_starts_with(spec_trim(text), x509_prefix()),
                Some(SampleType::PS_Two_Liner) => spec_extract_key_and_base64(text) is Err
                    && !spec_is_dga(text) && !spec_contains(text, start_process_marker())
                    && !crate::bytesutil::spec_starts_with(spec_trim(text), java_prefix())
                    && !crate::bytesutil::spec_starts_with(spec_trim(text), x509_prefix())
                    && spec_line_count(text) < 5,
                None => spec_extract_key_and_base64(text) is Err && !spec_is_dga(text)
                    && !spec_contains(text, start_process_marker())
                    && !crate::bytesutil::spec_starts_with(spec_trim(text), java_prefix())
                    && !crate::bytesutil::spec_starts_with(spec_trim(text), x509_prefix())
                    && spec_line_count(text) >= 5,
            }
        }),
{
    let text = get_string_from_binary(sample_data);

    match extract_key_and_base64_from_ps_xor_base64(text.as_slice()) {
        Ok((key, blob)) => {
            return Some(SampleType::PS_Xor_B64(key, blob));
        },
        Err(_) => {},
    }

    let a = slice_to_vec("$executioncontext;".as_bytes());
    let b = slice_to_vec("$global:block=(curl".as_bytes());
    let c = slice_to_vec("iex(curl".as_bytes());
    if contains_sub(text.as_slice(), a.as_slice()) && (contains_sub(text.as_slice(), b.as_slice()) || contains_sub(text.as_slice(), c.as_slice())) {
        return Some(SampleType::PS_DGA_iex);
    }

    let sp = slice_to_vec("start-process powershell".as_bytes());
    if contains_sub(text.as_slice(), sp.as_slice()) {
        return Some(SampleType::PS_Start_Process);
    }

    let trimmed = trim_bytes(text.as_slice());
    let java = slice_to_vec("using System".as_bytes());
    if crate::bytesutil::starts_with_bytes(trimmed.as_slice(), java.as_slice()) {
        return Some(SampleType::Java);
    }
    let x509 = slice_to_vec("MIIE".as_bytes());
    if crate::bytesutil::starts_with_bytes(trimmed.as_slice(), x509.as_slice()) {
        return Some(SampleType::X509);
    }

    if line_count(text.as_slice()) < 5 {
        return Some(SampleType::PS_Two_Liner);
    }
    None
}

/// Why handling one sample of this family failed.
#[derive(Debug, Clone, Copy, PartialEq, Eq, Structural)]
pub enum MintsloaderError {
    /// No sample type matched the sample.
    Unclassified,
    /// A stage decoder failed while descending.
    Decode(DecodeError),
}

/// The alternate key of the family node.
pub open spec fn mintsloader_name_key() -> Seq<u8> {
    "Mintsloader".spec_bytes()
}

/// Creates (or reuses) the family node and links it under the corpus
/// node.
pub fn mintsloader_create_main_node(store: &mut Store, corpus_id: usize) -> (id: usize)
    ensures
        nodes_prefix_preserved(old(store).nodes@, final(store).nodes@),
        id < final(store).nodes@.len(),
        final(store).nodes@[id as int].collection == NodeCollection::Mintsloader,
        final(store).nodes@[id as int].key@ == mintsloader_name_key(),
        final(store).edges@ == spec_upsert_edge(
            old(store).edges@,
            StoreEdge { collection: EdgeCollection::HasMalwareFamily, from: corpus_id, to: id },
        ),
{
    let key = slice_to_vec("Mintsloader".as_bytes());
    let data = NodeData::Mintsloader(
        Mintsloader { name: "Mintsloader".to_owned(), display_name: "Mintsloader".to_owned() },
    );
    let node = StoreNode { collection: NodeCollection::Mintsloader, key, data };
    let ghost gnode = node;
    let r = store.upsert_node(node);
    proof {
        assert(store.nodes@.subrange(0, old(store).nodes@.len() as int) =~= old(store).nodes@);
        if !r.created {
            lemma_node_index_found(
                old(store).nodes@,
                NodeCollection::Mintsloader,
                mintsloader_name_key(),
                0,
            );
        } else {
            assert(store.nodes@[r.id as int] == gnode);
        }
    }
    store.upsert_edge(
        StoreEdge { collection: EdgeCollection::HasMalwareFamily, from: corpus_id, to: r.id },
    );
    r.id
}

/// Creates (or reuses) the node for a PowerShell stage of the given
/// kind.
fn create_ps_kind_node(store: &mut Store, sample_data: &[u8], kind: MintsloaderPsKind) -> (r:
    crate::store::UpsertResult)
    ensures
        ({
            let key = sha256_hex_of(sample_data@);
            &&& final(store).edges@ == old(store).edges@
            &&& nodes_prefix_preserved(old(store).nodes@, final(store).nodes@)
            &&& r.id < final(store).nodes@.len()
            &&& spec_node_index(final(store).nodes@, NodeCollection::MintsloaderPs, key, 0)
                == Some(r.id as int)
            &&& r.created == (spec_node_index(
                old(store).nodes@,
                NodeCollection::MintsloaderPs,
                key,
                0,
            ) is None)
            &&& !r.created ==> final(store).nodes@ == old(store).nodes@
            &&& !r.created ==> Some(r.id as int) == spec_node_index(
                old(store).nodes@,
                NodeCollection::MintsloaderPs,
                key,
                0,
            )
            &&& r.created ==> final(store).nodes@.len() == old(store).nodes@.len() + 1
            &&& r.created ==> r.id == old(store).nodes@.len()
            &&& r.created ==> (final(store).nodes@[r.id as int].data matches
                NodeData::MintsloaderPs(p) && p.sha256sum@ == key && p.kind == kind)
        }),
{
    let sha256sum = sha256_hex(sample_data);
    let sha_copy = copy_range(sha256sum.as_slice(), 0, sha256sum.len());
    assert(sha_copy@ =~= sha256sum@);
    let data = NodeData::MintsloaderPs(MintsloaderPs { sha256sum: sha_copy, kind });
    let node = StoreNode { collection: NodeCollection::MintsloaderPs, key: sha256sum, data };
    let ghost gnode = node;
    let r = store.upsert_node(node);
    proof {
        let key = sha256_hex_of(sample_data@);
        assert(store.nodes@.subrange(0, old(store).nodes@.len() as int) =~= old(store).nodes@);
        if r.created {
            lemma_node_index_after_push(old(store).nodes@, gnode, 0);
        } else {
            lemma_node_index_found(old(store).nodes@, NodeCollection::MintsloaderPs, key, 0);
        }
    }
    r
}

/// Creates (or reuses) the node for a domain-generation stage.
pub fn mintsloader_create_ps_dga_iex_node(store: &mut Store, sample_data: &[u8]) -> (id: usize)
    ensures
        nodes_prefix_preserved(old(store).nodes@, final(store).nodes@),
        final(store).edges@ == old(store).edges@,
        id < final(store).nodes@.len(),
        spec_node_index(
            final(store).nodes@,
            NodeCollection::MintsloaderPs,
            sha256_hex_of(sample_data@),
            0,
        ) == Some(id as int),
        spec_node_index(
            old(store).nodes@,
            NodeCollection::MintsloaderPs,
            sha256_hex_of(sample_data@),
            0,
        ) matches Some(i) ==> final(store).nodes@ == old(store).nodes@ && id == i,
        spec_node_index(
            old(store).nodes@,
            NodeCollection::MintsloaderPs,
            sha256_hex_of(sample_data@),
            0,
        ) is None ==> final(store).nodes@.len() == old(store).nodes@.len() + 1 && id == old(
            store,
        ).nodes@.len() && (final(store).nodes@[id as int].data matches NodeData::MintsloaderPs(p)
            && p.sha256sum@ == sha256_hex_of(sample_data@) && p.kind == MintsloaderPsKind::DgaIex),
{
    create_ps_kind_node(store, sample_data, MintsloaderPsKind::DgaIex).id
}

/// Creates (or reuses) the node for a re-spawning stage.
pub fn mintsloader_create_ps_start_process_node(store: &mut Store, sample_data: &[u8]) -> (id:
    usize)
    ensures
        nodes_prefix_preserved(old(store).nodes@, final(store).nodes@),
        final(store).edges@ == old(store).edges@,
        id < final(store).nodes@.len(),
        spec_node_index(
            final(store).nodes@,
            NodeCollection::MintsloaderPs,
            sha256_hex_of(sample_data@),
            0,
        ) == Some(id as int),
        spec_node_index(
            old(store).nodes@,
            NodeCollection::MintsloaderPs,
            sha256_hex_of(sample_data@),
            0,
        ) matches Some(i) ==> final(store).nodes@ == old(store).nodes@ && id == i,
        spec_node_index(
            old(store).nodes@,
            NodeCollection::MintsloaderPs,
            sha256_hex_of(sample_data@),
            0,
        ) is None ==> final(store).nodes@.len() == old(store).nodes@.len() + 1 && id == old(
            store,
        ).nodes@.len() && (final(store).nodes@[id as int].data matches NodeData::MintsloaderPs(p)
            && p.sha256sum@ == sha256_hex_of(sample_data@) && p.kind
            == MintsloaderPsKind::StartProcess),
{
    create_ps_kind_node(store, sample_data, MintsloaderPsKind::StartProcess).id
}

/// Creates (or reuses) the node for an embedded code snippet.
pub fn mintsloader_create_java_node(store: &mut Store, sample_data: &[u8]) -> (id: usize)
    ensures
        nodes_prefix_preserved(old(store).nodes@, final(store).nodes@),
        final(store).edges@ == old(store).edges@,
        id < final(store).nodes@.len(),
        spec_node_index(
            final(store).nodes@,
            NodeCollection::MintsloaderJava,
            sha256_hex_of(sample_data@),
            0,
        ) == Some(id as int),
        spec_node_index(
            old(store).nodes@,
            NodeCollection::MintsloaderJava,
            sha256_hex_of(sample_data@),
            0,
        ) matches Some(i) ==> final(store).nodes@ == old(store).nodes@ && id == i,
        spec_node_index(
            old(store).nodes@,
            NodeCollection::MintsloaderJava,
            sha256_hex_of(sample_data@),
            0,
        ) is None ==> final(store).nodes@.len() == old(store).nodes@.len() + 1 && id == old(
            store,
        ).nodes@.len() && (final(store).nodes@[id as int].data matches
            NodeData::MintsloaderJava(jv) && jv.sha256sum@ == sha256_hex_of(sample_data@)),
{
    let sha256sum = sha256_hex(sample_data);
    let sha_copy = copy_range(sha256sum.as_slice(), 0, sha256sum.len());
    assert(sha_copy@ =~= sha256sum@);
    let data = NodeData::MintsloaderJava(MintsloaderJava { sha256sum: sha_copy });
    let node = StoreNode { collection: NodeCollection::MintsloaderJava, key: sha256sum, data };
    let ghost gnode = node;
    let r = store.upsert_node(node);
    proof {
        let key = sha256_hex_of(sample_data@);
        assert(store.nodes@.subrange(0, old(store).nodes@.len() as int) =~= old(store).nodes@);
        if r.created {
            lemma_node_index_after_push(old(store).nodes@, gnode, 0);
        } else {
            lemma_node_index_found(old(store).nodes@, NodeCollection::MintsloaderJava, key, 0);
        }
    }
    r.id
}

/// Base64-decodes an embedded certificate and creates (or reuses) its
/// node, keyed by the fingerprint of the decoded bytes.
pub fn mintsloader_create_x509_node(store: &mut Store, sample_data: &[u8]) -> (r: Result<
    usize,
    DecodeError,
>)
    ensures
        nodes_prefix_preserved(old(store).nodes@, final(store).nodes@),
        ({
            match base64_decode_of(sample_data@) {
                None => r == Err::<usize, DecodeError>(DecodeError::Base64Invalid)
                    && final(store).nodes@ == old(store).nodes@
                    && final(store).edges@ == old(store).edges@,
                Some(decoded) => r matches Ok(id) && id < final(store).nodes@.len()
                    && spec_node_index(
                    final(store).nodes@,
                    NodeCollection::MintsloaderX509Cert,
                    sha256_hex_of(decoded),
                    0,
                ) == Some(id as int) && final(store).edges@ == old(store).edges@ && (match
                    spec_node_index(
                    old(store).nodes@,
                    NodeCollection::MintsloaderX509Cert,
                    sha256_hex_of(decoded),
                    0,
                ) {
                    Some(i) => final(store).nodes@ == old(store).nodes@ && id == i,
                    None => final(store).nodes@.len() == old(store).nodes@.len() + 1 && id == old(
                        store,
                    ).nodes@.len() && (final(store).nodes@[id as int].data matches
                        NodeData::MintsloaderX509Cert(c) && c.sha256sum@ == sha256_hex_of(
                        decoded,
                    )),
                }),
            }
        }),
{
    let decoded = match base64_decode(sample_data) {
        Some(v) => v,
        None => {
            proof {
                assert(store.nodes@.subrange(0, store.nodes@.len() as int) =~= store.nodes@);
            }
            return Err(DecodeError::Base64Invalid);
        },
    };

    let sha256sum = sha256_hex(decoded.as_slice());
    let sha_copy = copy_range(sha256sum.as_slice(), 0, sha256sum.len());
    assert(sha_copy@ =~= sha256sum@);
    let data = NodeData::MintsloaderX509Cert(MintsloaderX509Cert { sha256sum: sha_copy });
    let node = StoreNode { collection: NodeCollection::MintsloaderX509Cert, key: sha256sum, data };
    let ghost gnode = node;
    let r = store.upsert_node(node);
    proof {
        let key = sha256_hex_of(decoded@);
        assert(store.nodes@.subrange(0, old(store).nodes@.len() as int) =~= old(store).nodes@);
        if r.created {
            lemma_node_index_after_push(old(store).nodes@, gnode, 0);
        } else {
            lemma_node_index_found(old(store).nodes@, NodeCollection::MintsloaderX509Cert, key, 0);
        }
    }
    Ok(r.id)
}

/// Records the embedded certificate or code snippet carried by up to
/// the two longest deobfuscated strings, linked under the given stage.
/// Whether the slot at `i` is a certificate whose base64 fails: the
/// one failure the embedded recording can hit.
pub open spec fn spec_embedded_slot_err(strings: Seq<Seq<u8>>, i: int) -> bool {
    &&& 0 <= i < strings.len()
    &&& crate::bytesutil::spec_starts_with(strings[i], x509_prefix())
    &&& base64_decode_of(strings[i]) is None
}

/// What recording the two longest deobfuscated strings yields: the
/// first slot whose certificate fails to decode stops the recording.
pub open spec fn spec_embedded_result(strings: Seq<Seq<u8>>) -> Result<(), DecodeError> {
    if spec_embedded_slot_err(strings, 0) {
        Err(DecodeError::Base64Invalid)
    } else if spec_embedded_slot_err(strings, 1) {
        Err(DecodeError::Base64Invalid)
    } else {
        Ok(())
    }
}

/// What a recorded slot leaves in the store: a certificate slot whose
/// base64 decodes has its node, keyed by the decoded bytes, linked
/// under the parent; a code-snippet slot has its node, keyed by the
/// string itself, linked likewise; any other slot leaves nothing owed.
pub open spec fn spec_slot_recorded(
    nodes: Seq<StoreNode>,
    edges: Seq<StoreEdge>,
    parent: usize,
    s: Seq<u8>,
) -> bool {
    if crate::bytesutil::spec_starts_with(s, x509_prefix()) {
        match base64_decode_of(s) {
            Some(d) => (spec_node_index(
                nodes,
                NodeCollection::MintsloaderX509Cert,
                sha256_hex_of(d),
                0,
            ) matches Some(j) && edges.contains(
                StoreEdge {
                    collection: EdgeCollection::MintsloaderHasX509Cert,
                    from: parent,
                    to: j as usize,
                },
            )),
            None => true,
        }
    } else if crate::bytesutil::spec_starts_with(s, java_prefix()) {
        (spec_node_index(nodes, NodeCollection::MintsloaderJava, sha256_hex_of(s), 0)
            matches Some(j) && edges.contains(
            StoreEdge {
                collection: EdgeCollection::MintsloaderHasJava,
                from: parent,
                to: j as usize,
            },
        ))
    } else {
        true
    }
}

/// Records one deobfuscated string: a certificate or code snippet
/// becomes a node linked under the parent, anything else is skipped.
fn record_embedded_string(store: &mut Store, parent_id: usize, string: &Vec<u8>) -> (r: Result<
    (),
    DecodeError,
>)
    ensures
        nodes_prefix_preserved(old(store).nodes@, final(store).nodes@),
        crate::coper::edges_preserved(old(store).edges@, final(store).edges@),
        r == (if crate::bytesutil::spec_starts_with(string@, x509_prefix()) && base64_decode_of(
            string@,
        ) is None {
            Err::<(), DecodeError>(DecodeError::Base64Invalid)
        } else {
            Ok::<(), DecodeError>(())
        }),
        spec_slot_recorded(final(store).nodes@, final(store).edges@, parent_id, string@),
{
    let x509p = slice_to_vec("MIIE".as_bytes());
    let javap = slice_to_vec("using System".as_bytes());
    proof {
        assert(store.nodes@.subrange(0, store.nodes@.len() as int) =~= store.nodes@);
    }

    if crate::bytesutil::starts_with_bytes(string.as_slice(), x509p.as_slice()) {
        match mintsloader_create_x509_node(store, string.as_slice()) {
            Ok(x509_id) => {
                let ghost mid_edges = store.edges@;
                let edge = StoreEdge {
                    collection: EdgeCollection::MintsloaderHasX509Cert,
                    from: parent_id,
                    to: x509_id,
                };
                store.upsert_edge(edge);
                proof {
                    crate::store::lemma_upsert_edge_grows(mid_edges, edge);
                }
                Ok(())
            },
            Err(e) => Err(e),
        }
    } else if crate::bytesutil::starts_with_bytes(string.as_slice(), javap.as_slice()) {
        let java_id = mintsloader_create_java_node(store, string.as_slice());
        let ghost mid_edges = store.edges@;
        let edge = StoreEdge {
            collection: EdgeCollection::MintsloaderHasJava,
            from: parent_id,
            to: java_id,
        };
        store.upsert_edge(edge);
        proof {
            crate::store::lemma_upsert_edge_grows(mid_edges, edge);
        }
        Ok(())
    } else {
        Ok(())
    }
}

/// Records the embedded certificate or code snippet carried by up to
/// the two longest deobfuscated strings, linked under the given stage.
fn handle_embedded_strings(store: &mut Store, parent_id: usize, strings: &Vec<Vec<u8>>) -> (r:
    Result<(), DecodeError>)
    ensures
        nodes_prefix_preserved(old(store).nodes@, final(store).nodes@),
        crate::coper::edges_preserved(old(store).edges@, final(store).edges@),
        r == spec_embedded_result(strings.deep_view()),
        strings@.len() > 0 ==> spec_slot_recorded(
            final(store).nodes@,
            final(store).edges@,
            parent_id,
            strings.deep_view()[0],
        ),
        strings@.len() > 1 && !spec_embedded_slot_err(strings.deep_view(), 0)
            ==> spec_slot_recorded(
            final(store).nodes@,
            final(store).edges@,
            parent_id,
            strings.deep_view()[1],
        ),
{
    proof {
        assert(store.nodes@.subrange(0, store.nodes@.len() as int) =~= store.nodes@);
    }
    if strings.len() == 0 {
        return Ok(());
    }
    assert(strings@[0].deep_view() == strings.deep_view()[0]);
    assert(strings@[0]@ =~= strings.deep_view()[0]);
    match record_embedded_string(store, parent_id, &strings[0]) {
        Ok(()) => {},
        Err(e) => {
            return Err(e);
        },
    }
    if strings.len() == 1 {
        return Ok(());
    }
    let ghost mid_nodes = store.nodes@;
    let ghost mid_edges = store.edges@;
    assert(strings@[1].deep_view() == strings.deep_view()[1]);
    assert(strings@[1]@ =~= strings.deep_view()[1]);
    let r2 = record_embedded_string(store, parent_id, &strings[1]);
    proof {
        lemma_prefix_preserved_trans(old(store).nodes@, mid_nodes, store.nodes@);
        lemma_slot_recorded_stable(
            mid_nodes,
            store.nodes@,
            mid_edges,
            store.edges@,
            parent_id,
            strings.deep_view()[0],
        );
    }
    r2
}

/// A recorded slot stays recorded while the store only grows.
proof fn lemma_slot_recorded_stable(
    old_nodes: Seq<StoreNode>,
    new_nodes: Seq<StoreNode>,
    old_edges: Seq<StoreEdge>,
    new_edges: Seq<StoreEdge>,
    parent: usize,
    s: Seq<u8>,
)
    requires
        spec_slot_recorded(old_nodes, old_edges, parent, s),
        nodes_prefix_preserved(old_nodes, new_nodes),
        crate::coper::edges_preserved(old_edges, new_edges),
    ensures
        spec_slot_recorded(new_nodes, new_edges, parent, s),
{
    if crate::bytesutil::spec_starts_with(s, x509_prefix()) {
        match base64_decode_of(s) {
            Some(d) => {
                lemma_node_index_prefix_stable(
                    old_nodes,
                    new_nodes,
                    NodeCollection::MintsloaderX509Cert,
                    sha256_hex_of(d),
                    0,
                );
            },
            None => {},
        }
    } else if crate::bytesutil::spec_starts_with(s, java_prefix()) {
        lemma_node_index_prefix_stable(
            old_nodes,
            new_nodes,
            NodeCollection::MintsloaderJava,
            sha256_hex_of(s),
            0,
        );
    }
}

/// Creates the node for a short obfuscated stage and, when the stage is
/// new, records the certificate and code snippet hidden in its
/// obfuscated strings. A stage already stored short-circuits without
/// touching the store further.
pub fn mintsloader_create_ps_two_liner_node(store: &mut Store, sample_data: &[u8]) -> (r: Result<
    usize,
    DecodeError,
>)
    ensures
        nodes_prefix_preserved(old(store).nodes@, final(store).nodes@),
        crate::coper::edges_preserved(old(store).edges@, final(store).edges@),
        r matches Ok(id) ==> id < final(store).nodes@.len() && spec_node_index(
            final(store).nodes@,
            NodeCollection::MintsloaderPs,
            sha256_hex_of(sample_data@),
            0,
        ) == Some(id as int),
        spec_node_index(
            old(store).nodes@,
            NodeCollection::MintsloaderPs,
            sha256_hex_of(sample_data@),
            0,
        ) matches Some(i) ==> r == Ok::<usize, DecodeError>(i as usize) && final(store).nodes@
            == old(store).nodes@ && final(store).edges@ == old(store).edges@,
        spec_node_index(
            old(store).nodes@,
            NodeCollection::MintsloaderPs,
            sha256_hex_of(sample_data@),
            0,
        ) is None ==> ({
            let key = sha256_hex_of(sample_data@);
            let strings = spec_deobf_sorted(spec_text_of(sample_data@));
            let parent = old(store).nodes@.len() as usize;
            &&& spec_node_index(final(store).nodes@, NodeCollection::MintsloaderPs, key, 0)
                == Some(old(store).nodes@.len() as int)
            &&& (final(store).nodes@[old(store).nodes@.len() as int].data matches
                NodeData::MintsloaderPs(p) && p.sha256sum@ == key && p.kind
                == MintsloaderPsKind::TwoLiner)
            &&& (r matches Ok(id2) ==> id2 == old(store).nodes@.len())
            &&& (r matches Err(e) ==> e == DecodeError::Base64Invalid)
            &&& (spec_obf_all_numeric(spec_text_of(sample_data@)) ==> ({
                &&& r == (match spec_embedded_result(strings) {
                    Err(e) => Err::<usize, DecodeError>(e),
                    Ok(u) => Ok::<usize, DecodeError>(old(store).nodes@.len() as usize),
                })
                &&& (strings.len() > 0 ==> spec_slot_recorded(
                    final(store).nodes@,
                    final(store).edges@,
                    parent,
                    strings[0],
                ))
                &&& (strings.len() > 1 && !spec_embedded_slot_err(strings, 0)
                    ==> spec_slot_recorded(
                    final(store).nodes@,
                    final(store).edges@,
                    parent,
                    strings[1],
                ))
            }))
        }),
{
    let upsert = create_ps_kind_node(store, sample_data, MintsloaderPsKind::TwoLiner);
    if !upsert.created {
        return Ok(upsert.id);
    }
    let ghost snap = store.nodes@;
    let ghost key = sha256_hex_of(sample_data@);

    let sample_str = get_string_from_binary(sample_data);
    let strings = get_deobfuscated_strings_from_sample_sorted(sample_str.as_slice());
    let r2 = handle_embedded_strings(store, upsert.id, &strings);
    proof {
        lemma_prefix_preserved_trans(old(store).nodes@, snap, store.nodes@);
        lemma_node_index_prefix_stable(snap, store.nodes@, NodeCollection::MintsloaderPs, key, 0);
        assert(store.nodes@[upsert.id as int] == store.nodes@.subrange(0, snap.len() as int)[
            upsert.id as int
        ]);
    }
    match r2 {
        Ok(()) => Ok(upsert.id),
        Err(e) => Err(e),
    }
}

/// Creates the node for a XOR-and-base64 stage and, when the stage is
/// new, decodes the next stage, records it by its own markers, and
/// then records the certificate and code snippet hidden in the
/// obfuscated strings. A stage already stored short-circuits without
/// touching the store further.
pub fn mintsloader_create_ps_xor_node(
    store: &mut Store,
    sample_data: &[u8],
    xor_key: &[u8],
    base64: &[u8],
) -> (r: Result<usize, DecodeError>)
    requires
        xor_key@.len() > 0,
    ensures
        nodes_prefix_preserved(old(store).nodes@, final(store).nodes@),
        crate::coper::edges_preserved(old(store).edges@, final(store).edges@),
        r matches Ok(id) ==> id < final(store).nodes@.len() && spec_node_index(
            final(store).nodes@,
            NodeCollection::MintsloaderPs,
            sha256_hex_of(sample_data@),
            0,
        ) == Some(id as int),
        spec_node_index(
            old(store).nodes@,
            NodeCollection::MintsloaderPs,
            sha256_hex_of(sample_data@),
            0,
        ) matches Some(i) ==> r == Ok::<usize, DecodeError>(i as usize) && final(store).nodes@
            == old(store).nodes@ && final(store).edges@ == old(store).edges@,
        spec_node_index(
            old(store).nodes@,
            NodeCollection::MintsloaderPs,
            sha256_hex_of(sample_data@),
            0,
        ) is None ==> ({
            let key = sha256_hex_of(sample_data@);
            let parent = old(store).nodes@.len() as usize;
            &&& spec_node_index(final(store).nodes@, NodeCollection::MintsloaderPs, key, 0)
                == Some(old(store).nodes@.len() as int)
            &&& (final(store).nodes@[old(store).nodes@.len() as int].data matches
                NodeData::MintsloaderPs(p) && p.sha256sum@ == key && p.kind
                == MintsloaderPsKind::XorBase64)
            &&& match spec_decode_base64_with_xor_key(xor_key@, base64@) {
                Err(e) => r == Err::<usize, DecodeError>(e),
                Ok(next) => ({
                    let strings = spec_deobf_sorted(spec_text_of(sample_data@));
                    &&& (r matches Ok(id2) ==> id2 == old(store).nodes@.len())
                    &&& (r matches Err(e) ==> e == DecodeError::Base64Invalid)
                    &&& (spec_contains(next, dga_marker_a()) ==> (spec_node_index(
                        final(store).nodes@,
                        NodeCollection::MintsloaderPs,
                        sha256_hex_of(next),
                        0,
                    ) matches Some(nj) && final(store).edges@.contains(
                        StoreEdge {
                            collection: EdgeCollection::MintsloaderHasPs,
                            from: parent,
                            to: nj as usize,
                        },
                    )))
                    &&& (!spec_contains(next, dga_marker_a()) && spec_contains(
                        next,
                        start_process_marker(),
                    ) ==> (spec_node_index(
                        final(store).nodes@,
                        NodeCollection::MintsloaderPs,
                        sha256_hex_of(next),
                        0,
                    ) matches Some(nj) && final(store).edges@.contains(
                        StoreEdge {
                            collection: EdgeCollection::MintsloaderHasPs,
                            from: parent,
                            to: nj as usize,
                        },
                    )))
                    &&& (spec_obf_all_numeric(spec_text_of(sample_data@)) ==> ({
                        &&& r == (match spec_embedded_result(strings) {
                            Err(e) => Err::<usize, DecodeError>(e),
                            Ok(u) => Ok::<usize, DecodeError>(old(store).nodes@.len() as usize),
                        })
                        &&& (strings.len() > 0 ==> spec_slot_recorded(
                            final(store).nodes@,
                            final(store).edges@,
                            parent,
                            strings[0],
                        ))
                        &&& (strings.len() > 1 && !spec_embedded_slot_err(strings, 0)
                            ==> spec_slot_recorded(
                            final(store).nodes@,
                            final(store).edges@,
                            parent,
                            strings[1],
                        ))
                    }))
                }),
            }
        }),
{
    let upsert = create_ps_kind_node(store, sample_data, MintsloaderPsKind::XorBase64);
    if !upsert.created {
        return Ok(upsert.id);
    }
    let ps_xor_id = upsert.id;
    let ghost snap = store.nodes@;
    let ghost key = sha256_hex_of(sample_data@);

    let next_stage = match decode_base64_with_xor_key(xor_key, base64) {
        Ok(v) => v,
        Err(e) => {
            proof {
                assert(store.nodes@.subrange(0, snap.len() as int) =~= snap);
            }
            return Err(e);
        },
    };

    let dga = slice_to_vec("$executioncontext;".as_bytes());
    let sp = slice_to_vec("start-process powershell".as_bytes());
    if contains_sub(next_stage.as_slice(), dga.as_slice()) {
        let dga_id = mintsloader_create_ps_dga_iex_node(store, next_stage.as_slice());
        let ghost mid_edges = store.edges@;
        let edge = StoreEdge {
            collection: EdgeCollection::MintsloaderHasPs,
            from: ps_xor_id,
            to: dga_id,
        };
        store.upsert_edge(edge);
        proof {
            crate::store::lemma_upsert_edge_grows(mid_edges, edge);
        }
    } else if contains_sub(next_stage.as_slice(), sp.as_slice()) {
        let sp_id = mintsloader_create_ps_start_process_node(store, next_stage.as_slice());
        let ghost mid_edges = store.edges@;
        let edge = StoreEdge {
            collection: EdgeCollection::MintsloaderHasPs,
            from: ps_xor_id,
            to: sp_id,
        };
        store.upsert_edge(edge);
        proof {
            crate::store::lemma_upsert_edge_grows(mid_edges, edge);
        }
    }
    let ghost mid = store.nodes@;
    proof {
        assert(store.nodes@.subrange(0, snap.len() as int) =~= snap);
    }
    let sample_str = get_string_from_binary(sample_data);
    let strings = get_deobfuscated_strings_from_sample_sorted(sample_str.as_slice());
    let r2 = handle_embedded_strings(store, ps_xor_id, &strings);
    proof {
        lemma_prefix_preserved_trans(snap, mid, store.nodes@);
        lemma_prefix_preserved_trans(old(store).nodes@, snap, store.nodes@);
        lemma_node_index_prefix_stable(snap, store.nodes@, NodeCollection::MintsloaderPs, key, 0);
        assert(store.nodes@[ps_xor_id as int] == store.nodes@.subrange(0, snap.len() as int)[
            ps_xor_id as int
        ]);
        if spec_contains(next_stage@, dga_marker_a()) || spec_contains(
            next_stage@,
            start_process_marker(),
        ) {
            lemma_node_index_prefix_stable(
                mid,
                store.nodes@,
                NodeCollection::MintsloaderPs,
                sha256_hex_of(next_stage@),
                0,
            );
        }
    }
    match r2 {
        Ok(()) => Ok(ps_xor_id),
        Err(e) => Err(e),
    }
}

/// Classifies one sample and records it: the XOR stage descends into
/// its decoded next stage and obfuscated strings, the other stages
/// become nodes, and an unclassifiable sample is reported without
/// touching the store.
/// A successfully extracted key holds exactly its twelve characters.
pub proof fn lemma_extract_key_len(s: Seq<u8>)
    requires
        spec_extract_key_and_base64(s) is Ok,
    ensures
        spec_extract_key_and_base64(s).unwrap().0.len() == 12,
{
    match spec_find_function(s, 0) {
        None => {},
        Some(_) => {
            match spec_find_key(s, 0) {
                None => {},
                Some(k) => {
                    lemma_find_key_props(s, 0);
                },
            }
        },
    }
}

/// Classifies one sample and records it: the XOR stage descends into
/// its decoded next stage and obfuscated strings, the other stages
/// become nodes, and an unclassifiable sample is reported without
/// touching the store.
pub fn mintsloader_handle_sample(store: &mut Store, main_id: usize, sample_data: &[u8]) -> (r:
    Result<(), MintsloaderError>)
    ensures
        nodes_prefix_preserved(old(store).nodes@, final(store).nodes@),
        crate::coper::edges_preserved(old(store).edges@, final(store).edges@),
        r == Err::<(), MintsloaderError>(MintsloaderError::Unclassified) <==> spec_extract_key_and_base64(
            spec_text_of(sample_data@),
        ) is Err && !spec_is_dga(spec_text_of(sample_data@)) && !spec_contains(
            spec_text_of(sample_data@),
            start_process_marker(),
        ) && !crate::bytesutil::spec_starts_with(
            spec_trim(spec_text_of(sample_data@)),
            java_prefix(),
        ) && !crate::bytesutil::spec_starts_with(
            spec_trim(spec_text_of(sample_data@)),
            x509_prefix(),
        ) && spec_line_count(spec_text_of(sample_data@)) >= 5,
        ({
            let text = spec_text_of(sample_data@);
            let key = sha256_hex_of(sample_data@);
            match spec_extract_key_and_base64(text) {
                Ok(kb) => {
                    &&& spec_node_index(final(store).nodes@, NodeCollection::MintsloaderPs, key, 0)
                        is Some
                    &&& match spec_node_index(
                        old(store).nodes@,
                        NodeCollection::MintsloaderPs,
                        key,
                        0,
                    ) {
                        Some(_) => r is Ok,
                        None => match spec_decode_base64_with_xor_key(kb.0, kb.1) {
                            Err(e) => r == Err::<(), MintsloaderError>(
                                MintsloaderError::Decode(e),
                            ),
                            Ok(next) => spec_obf_all_numeric(text) ==> r == (match
                                spec_embedded_result(spec_deobf_sorted(text)) {
                                Err(e) => Err::<(), MintsloaderError>(
                                    MintsloaderError::Decode(e),
                                ),
                                Ok(u) => Ok::<(), MintsloaderError>(()),
                            }),
                        },
                    }
                    &&& (r is Ok ==> (spec_node_index(
                        final(store).nodes@,
                        NodeCollection::MintsloaderPs,
                        key,
                        0,
                    ) matches Some(pj) && final(store).edges@.contains(
                        StoreEdge {
                            collection: EdgeCollection::MintsloaderHasPs,
                            from: main_id,
                            to: pj as usize,
                        },
                    )))
                },
                Err(ee) => {
                    &&& (spec_is_dga(text) ==> r is Ok && spec_node_index(
                        final(store).nodes@,
                        NodeCollection::MintsloaderPs,
                        key,
                        0,
                    ) is Some)
                    &&& (!spec_is_dga(text) && spec_contains(text, start_process_marker()) ==> r
                        is Ok && spec_node_index(
                        final(store).nodes@,
                        NodeCollection::MintsloaderPs,
                        key,
                        0,
                    ) is Some)
                    &&& (!spec_is_dga(text) && !spec_contains(text, start_process_marker())
                        && crate::bytesutil::spec_starts_with(spec_trim(text), java_prefix())
                        ==> r is Ok && spec_node_index(
                        final(store).nodes@,
                        NodeCollection::MintsloaderJava,
                        key,
                        0,
                    ) is Some)
                    &&& (!spec_is_dga(text) && !spec_contains(text, start_process_marker())
                        && !crate::bytesutil::spec_starts_with(spec_trim(text), java_prefix())
                        && crate::bytesutil::spec_starts_with(spec_trim(text), x509_prefix())
                        ==> ({
                        &&& r == (match base64_decode_of(sample_data@) {
                            None => Err::<(), MintsloaderError>(
                                MintsloaderError::Decode(DecodeError::Base64Invalid),
                            ),
                            Some(d) => Ok::<(), MintsloaderError>(()),
                        })
                        &&& (base64_decode_of(sample_data@) matches Some(d) ==> spec_node_index(
                            final(store).nodes@,
                            NodeCollection::MintsloaderX509Cert,
                            sha256_hex_of(d),
                            0,
                        ) is Some)
                    }))
                    &&& (!spec_is_dga(text) && !spec_contains(text, start_process_marker())
                        && !crate::bytesutil::spec_starts_with(spec_trim(text), java_prefix())
                        && !crate::bytesutil::spec_starts_with(spec_trim(text), x509_prefix())
                        && spec_line_count(text) < 5 ==> ({
                        &&& spec_node_index(
                            final(store).nodes@,
                            NodeCollection::MintsloaderPs,
                            key,
                            0,
                        ) is Some
                        &&& match spec_node_index(
                            old(store).nodes@,
                            NodeCollection::MintsloaderPs,
                            key,
                            0,
                        ) {
                            Some(_) => r is Ok,
                            None => spec_obf_all_numeric(text) ==> r == (match
                                spec_embedded_result(spec_deobf_sorted(text)) {
                                Err(e) => Err::<(), MintsloaderError>(
                                    MintsloaderError::Decode(e),
                                ),
                                Ok(u) => Ok::<(), MintsloaderError>(()),
                            }),
                        }
                        &&& (r is Ok ==> (spec_node_index(
                            final(store).nodes@,
                            NodeCollection::MintsloaderPs,
                            key,
                            0,
                        ) matches Some(pj) && final(store).edges@.contains(
                            StoreEdge {
                                collection: EdgeCollection::MintsloaderHasPs,
                                from: main_id,
                                to: pj as usize,
                            },
                        )))
                    }))
                },
            }
        }),
{
    match detect_sample_type(sample_data) {
        Some(SampleType::PS_Xor_B64(xor_key, base64)) => {
            proof {
                lemma_extract_key_len(spec_text_of(sample_data@));
            }
            match mintsloader_create_ps_xor_node(
                store,
                sample_data,
                xor_key.as_slice(),
                base64.as_slice(),
            ) {
                Ok(ps_id) => {
                    let ghost mid_edges = store.edges@;
                    let edge = StoreEdge {
                        collection: EdgeCollection::MintsloaderHasPs,
                        from: main_id,
                        to: ps_id,
                    };
                    store.upsert_edge(edge);
                    proof {
                        crate::store::lemma_upsert_edge_grows(mid_edges, edge);
                    }
                    Ok(())
                },
                Err(e) => Err(MintsloaderError::Decode(e)),
            }
        },
        Some(SampleType::PS_DGA_iex) => {
            mintsloader_create_ps_dga_iex_node(store, sample_data);
            Ok(())
        },
        Some(SampleType::PS_Start_Process) => {
            mintsloader_create_ps_start_process_node(store, sample_data);
            Ok(())
        },
        Some(SampleType::PS_Two_Liner) => {
            match mintsloader_create_ps_two_liner_node(store, sample_data) {
                Ok(ps_id) => {
                    let ghost mid_edges = store.edges@;
                    let edge = StoreEdge {
                        collection: EdgeCollection::MintsloaderHasPs,
                        from: main_id,
                        to: ps_id,
                    };
                    store.upsert_edge(edge);
                    proof {
                        crate::store::lemma_upsert_edge_grows(mid_edges, edge);
                    }
                    Ok(())
                },
                Err(e) => Err(MintsloaderError::Decode(e)),
            }
        },
        Some(SampleType::Java) => {
            mintsloader_create_java_node(store, sample_data);
            Ok(())
        },
        Some(SampleType::X509) => {
            match mintsloader_create_x509_node(store, sample_data) {
                Ok(_) => Ok(()),
                Err(e) => Err(MintsloaderError::Decode(e)),
            }
        },
        None => {
            proof {
                assert(store.nodes@.subrange(0, store.nodes@.len() as int) =~= store.nodes@);
            }
            Err(MintsloaderError::Unclassified)
        },
    }
}

} // verus!
