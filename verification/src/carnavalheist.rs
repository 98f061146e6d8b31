//! The Carnavalheist family: batch-script heuristics, the two batch →
//! PowerShell extraction paths, the PowerShell → Python base64 chain,
//! and the pipeline recording the stages as linked nodes.

use vstd::prelude::*;

verus! {

use vstd::string::StringSliceAdditionalSpecFns;
use vstd::slice::slice_to_vec;

use crate::bytesutil::{
    contains_sub, copy_range, find_byte_from, find_not_byte_from, find_sub_from, find_ws_from,
    spec_contains,
    is_char_boundary_at, lemma_spec_find_byte_props, lemma_spec_find_not_byte_props,
    lemma_spec_find_props, lemma_spec_find_ws_props, spec_find, spec_find_byte,
    spec_find_not_byte, spec_find_ws, spec_is_char_boundary,
};
use crate::codec::{base64_decode, base64_decode_of, sha256_hex, sha256_hex_of, DecodeError};
use crate::coper::{
    edges_preserved, lemma_node_index_prefix_stable, lemma_prefix_preserved_trans,
    nodes_prefix_preserved,
};
use crate::nodes::{Carnavalheist, CarnavalheistBatch, CarnavalheistPs, CarnavalheistPython, PsType};
use crate::store::{
    lemma_node_index_after_push, lemma_node_index_found, spec_node_index, spec_upsert_edge,
    EdgeCollection, NodeCollection, NodeData, Store, StoreEdge, StoreNode,
};
use crate::textenc::{get_string_from_binary, spec_text_of};

/// The sample kinds this family distinguishes.
#[derive(Debug, Clone, Copy, PartialEq, Eq, Structural)]
pub enum SampleType {
    BatchE,
    BatchCommandNormal,
    BatchCommandConcat,
    Ps,
    Python,
}

/// The batch marker announcing an inline base64 PowerShell payload.
pub open spec fn batch_e_marker() -> Seq<u8> {
    "powershell -WindowStyle Hidden -e".spec_bytes()
}

/// The batch marker announcing a quoted PowerShell command.
pub open spec fn batch_command_marker() -> Seq<u8> {
    "powershell -WindowStyle Hidden -Command".spec_bytes()
}

/// The opening of the quoted, brace-wrapped PowerShell command.
pub open spec fn batch_command_open() -> Seq<u8> {
    "powershell -WindowStyle Hidden -Command \"& {".spec_bytes()
}

/// The marker of the concatenated-base64 batch variant.
pub open spec fn batch_concat_marker() -> Seq<u8> {
    "set \"base64=".spec_bytes()
}

/// One of the two markers of a Python stage.
pub open spec fn python_marker_a() -> Seq<u8> {
    "RANDOMIZADO".spec_bytes()
}

/// The other marker of a Python stage.
pub open spec fn python_marker_b() -> Seq<u8> {
    "import pickle".spec_bytes()
}

/// What classification yields on the decoded text of a sample: the
/// first matching marker, in fixed priority order.
pub open spec fn spec_carnavalheist_detect(s: Seq<u8>) -> Option<SampleType> {
    let text = spec_text_of(s);
    if spec_contains(text, batch_e_marker()) {
        Some(SampleType::BatchE)
    } else if spec_contains(text, batch_command_marker()) {
        if spec_contains(text, batch_concat_marker()) {
            Some(SampleType::BatchCommandConcat)
        } else {
            Some(SampleType::BatchCommandNormal)
        }
    } else if spec_contains(text, python_marker_a()) || spec_contains(text, python_marker_b()) {
        Some(SampleType::Python)
    } else {
        None
    }
}

/// Classifies a sample by marker substrings over its decoded text.
pub fn detect_sample_type(sample_data: &[u8]) -> (r: Option<SampleType>)
    ensures
        r == spec_carnavalheist_detect(sample_data@),
{
    let text = get_string_from_binary(sample_data);
    let m_e = slice_to_vec("powershell -WindowStyle Hidden -e".as_bytes());
    let m_cmd = slice_to_vec("powershell -WindowStyle Hidden -Command".as_bytes());
    let m_concat = slice_to_vec("set \"base64=".as_bytes());
    let m_py_a = slice_to_vec("RANDOMIZADO".as_bytes());
    let m_py_b = slice_to_vec("import pickle".as_bytes());

    if contains_sub(text.as_slice(), m_e.as_slice()) {
        Some(SampleType::BatchE)
    } else if contains_sub(text.as_slice(), m_cmd.as_slice()) {
        if contains_sub(text.as_slice(), m_concat.as_slice()) {
            Some(SampleType::BatchCommandConcat)
        } else {
            Some(SampleType::BatchCommandNormal)
        }
    } else if contains_sub(text.as_slice(), m_py_a.as_slice()) || contains_sub(text.as_slice(), m_py_b.as_slice()) {
        Some(SampleType::Python)
    } else {
        None
    }
}

/// What extraction from the `-e` batch variant yields: the
/// whitespace-delimited token after the marker, base64-decoded.
pub open spec fn spec_extract_from_batch_e(s: Seq<u8>) -> Result<Seq<u8>, DecodeError> {
    match spec_find(s, batch_e_marker(), 0) {
        None => Err(DecodeError::MarkerNotFound),
        Some(m) => {
            let start = m + batch_e_marker().len() + 1;
            match spec_find_ws(s, start) {
                None => Err(DecodeError::MarkerNotFound),
                Some(end) => match base64_decode_of(s.subrange(start, end)) {
                    None => Err(DecodeError::Base64Invalid),
                    Some(d) => Ok(d),
                },
            }
        },
    }
}

/// Finds the `-e` marker in the decoded text, takes the next
/// whitespace-delimited token, and base64-decodes it.
pub fn extract_from_batch_e(sample_str: &[u8]) -> (r: Result<Vec<u8>, DecodeError>)
    ensures
        match (r, spec_extract_from_batch_e(sample_str@)) {
            (Ok(v), Ok(s)) => v@ == s,
            (Err(e), Err(s)) => e == s,
            _ => false,
        },
{
    let _n: usize = sample_str.len();
    let marker = slice_to_vec("powershell -WindowStyle Hidden -e".as_bytes());
    let m = match find_sub_from(sample_str, marker.as_slice(), 0) {
        Some(m) => m,
        None => {
            return Err(DecodeError::MarkerNotFound);
        },
    };
    proof {
        lemma_spec_find_props(sample_str@, marker@, 0);
    }
    let after: usize = m + marker.len();
    if sample_str.len() == after {
        return Err(DecodeError::MarkerNotFound);
    }
    let start: usize = after + 1;
    let end = match find_ws_from(sample_str, start) {
        Some(e) => e,
        None => {
            return Err(DecodeError::MarkerNotFound);
        },
    };
    proof {
        lemma_spec_find_ws_props(sample_str@, start as int);
    }
    let token = copy_range(sample_str, start, end);
    match base64_decode(token.as_slice()) {
        Some(d) => Ok(d),
        None => Err(DecodeError::Base64Invalid),
    }
}

/// The brace scan of the quoted command: starting inside one open
/// brace, walk forward counting `{` and `}` until the depth returns to
/// zero or the text ends, refusing to split a multi-byte codepoint.
pub open spec fn spec_scan_braces(s: Seq<u8>, end: int, pos: int) -> Result<int, DecodeError>
    decreases s.len() - end,
{
    if pos == 0 || end < 0 || end >= s.len() {
        Ok(end)
    } else if !(spec_is_char_boundary(s, end) && spec_is_char_boundary(s, end + 1)) {
        Err(DecodeError::CharBoundary)
    } else {
        let pos2 = if s[end] == 0x7b {
            pos + 1
        } else if s[end] == 0x7d {
            pos - 1
        } else {
            pos
        };
        spec_scan_braces(s, end + 1, pos2)
    }
}

/// What extraction from the `-Command` batch variant yields: the text
/// between the marker's opening brace and its balancing close, found by
/// depth counting.
pub open spec fn spec_extract_from_batch_command_normal(s: Seq<u8>) -> Result<
    Seq<u8>,
    DecodeError,
> {
    match spec_find(s, batch_command_open(), 0) {
        None => Err(DecodeError::MarkerNotFound),
        Some(m) => {
            let start = m + batch_command_open().len() + 1;
            if start > s.len() {
                Err(DecodeError::MarkerNotFound)
            } else {
                match spec_scan_braces(s, start, 1) {
                    Err(e) => Err(e),
                    Ok(end) => {
                        if end - 1 < start {
                            Err(DecodeError::MarkerNotFound)
                        } else {
                            Ok(s.subrange(start, end - 1))
                        }
                    },
                }
            }
        },
    }
}

/// Finds the quoted `-Command "& {` marker and scans forward, counting
/// brace depth from one until it returns to zero; fails rather than
/// split a multi-byte codepoint.
pub fn extract_from_batch_command_normal(sample_str: &[u8]) -> (r: Result<Vec<u8>, DecodeError>)
    ensures
        match (r, spec_extract_from_batch_command_normal(sample_str@)) {
            (Ok(v), Ok(s)) => v@ == s,
            (Err(e), Err(s)) => e == s,
            _ => false,
        },
{
    let _n: usize = sample_str.len();
    let marker = slice_to_vec("powershell -WindowStyle Hidden -Command \"& {".as_bytes());
    let m = match find_sub_from(sample_str, marker.as_slice(), 0) {
        Some(m) => m,
        None => {
            return Err(DecodeError::MarkerNotFound);
        },
    };
    proof {
        lemma_spec_find_props(sample_str@, marker@, 0);
    }
    let after: usize = m + marker.len();
    if sample_str.len() == after {
        return Err(DecodeError::MarkerNotFound);
    }
    let start: usize = after + 1;

    let mut pos: usize = 1;
    let mut end: usize = start;
    loop
        invariant
            1 <= start <= end <= sample_str@.len(),
            sample_str@.len() <= usize::MAX,
            pos <= 1 + end - start,
            spec_extract_from_batch_command_normal(sample_str@) == (match spec_scan_braces(
                sample_str@,
                end as int,
                pos as int,
            ) {
                Err(e) => Err::<Seq<u8>, DecodeError>(e),
                Ok(e2) => {
                    if e2 - 1 < start {
                        Err::<Seq<u8>, DecodeError>(DecodeError::MarkerNotFound)
                    } else {
                        Ok::<Seq<u8>, DecodeError>(sample_str@.subrange(start as int, e2 - 1))
                    }
                },
            }),
        ensures
            pos == 0 || end >= sample_str@.len(),
        decreases sample_str@.len() - end,
    {
        if pos == 0 || end >= sample_str.len() {
            break;
        }
        if !(is_char_boundary_at(sample_str, end) && is_char_boundary_at(sample_str, end + 1)) {
            return Err(DecodeError::CharBoundary);
        }
        if sample_str[end] == 0x7b {
            pos = pos + 1;
        } else if sample_str[end] == 0x7d {
            pos = pos - 1;
        }
        end = end + 1;
    }

    if end < 1 || end - 1 < start {
        return Err(DecodeError::MarkerNotFound);
    }
    Ok(copy_range(sample_str, start, end - 1))
}

/// The opening of the single-quoted base64 python payload.
pub open spec fn b64decode_open() -> Seq<u8> {
    "base64.b64decode('".spec_bytes()
}

/// The opening of the raw-string variant of the same payload.
pub open spec fn b64decode_open_raw() -> Seq<u8> {
    "base64.b64decode(r'".spec_bytes()
}

/// The call prefix counted to learn how many times the payload was
/// base64-encoded.
pub open spec fn b64decode_call() -> Seq<u8> {
    "base64.b64decode(".spec_bytes()
}

/// How many times `p` occurs in `s` from `from` on, counted left to
/// right without overlap.
pub open spec fn spec_count_matches(s: Seq<u8>, p: Seq<u8>, from: int) -> int
    decreases s.len() - from + 1,
    via spec_count_matches_dec
{
    if p.len() == 0 {
        0
    } else {
        match spec_find(s, p, from) {
            None => 0,
            Some(i) => 1 + spec_count_matches(s, p, i + p.len()),
        }
    }
}

#[via_fn]
proof fn spec_count_matches_dec(s: Seq<u8>, p: Seq<u8>, from: int) {
    if p.len() > 0 {
        match spec_find(s, p, from) {
            None => {},
            Some(i) => {
                lemma_spec_find_props(s, p, from);
            },
        }
    }
}

/// `d` base64-decoded `n` times over, when every round decodes.
pub open spec fn spec_decode_n(d: Seq<u8>, n: int) -> Option<Seq<u8>>
    decreases n,
{
    if n <= 0 {
        Some(d)
    } else {
        match spec_decode_n(d, n - 1) {
            None => None,
            Some(v) => base64_decode_of(v),
        }
    }
}

/// What extracting the Python stage from a PowerShell stage yields: the
/// single-quoted blob after the decode call, base64-decoded once per
/// decode call that the text mentions.
pub open spec fn spec_extract_python_payload(s: Seq<u8>) -> Result<Seq<u8>, DecodeError> {
    let start0 = match spec_find(s, b64decode_open(), 0) {
        Some(l) => Some(l + b64decode_open().len()),
        None => match spec_find(s, b64decode_open_raw(), 0) {
            Some(l) => Some(l + b64decode_open_raw().len()),
            None => None,
        },
    };
    match start0 {
        None => Err(DecodeError::MarkerNotFound),
        Some(start0) => match spec_find_not_byte(s, 0x27, start0) {
            None => Err(DecodeError::MarkerNotFound),
            Some(start) => match spec_find_byte(s, 0x27, start) {
                None => Err(DecodeError::MarkerNotFound),
                Some(end) => {
                    let blob = s.subrange(start, end);
                    let times = spec_count_matches(s, b64decode_call(), 0);
                    match spec_decode_n(blob, times) {
                        None => Err(DecodeError::Base64Invalid),
                        Some(v) => Ok(v),
                    }
                },
            },
        },
    }
}

/// Counts the left-to-right, non-overlapping occurrences of `p` in `s`.
#[verifier::loop_isolation(false)]
pub fn count_matches(s: &[u8], p: &[u8]) -> (r: usize)
    ensures
        r == spec_count_matches(s@, p@, 0),
{
    if p.len() == 0 {
        return 0;
    }
    let _n: usize = s.len();
    let mut count: usize = 0;
    let mut from: usize = 0;
    loop
        invariant
            0 <= from,
            count + spec_count_matches(s@, p@, from as int) == spec_count_matches(s@, p@, 0),
            count <= from,
            from <= s@.len(),
        decreases s@.len() - from + 1,
    {
        match find_sub_from(s, p, from) {
            None => {
                break;
            },
            Some(i) => {
                proof {
                    lemma_spec_find_props(s@, p@, from as int);
                }
                from = i + p.len();
                count = count + 1;
            },
        }
    }
    count
}

/// Base64-decodes `d` `n` times over.
#[verifier::loop_isolation(false)]
pub fn decode_n_times(d: Vec<u8>, n: usize) -> (r: Option<Vec<u8>>)
    ensures
        match r {
            Some(v) => spec_decode_n(d@, n as int) == Some(v@),
            None => spec_decode_n(d@, n as int) is None,
        },
{
    let mut cur = d;
    let mut i: usize = 0;
    while i < n
        invariant
            0 <= i <= n,
            spec_decode_n(d@, i as int) == Some(cur@),
        decreases n - i,
    {
        cur = match base64_decode(cur.as_slice()) {
            Some(v) => v,
            None => {
                proof {
                    lemma_decode_n_none_mono(d@, i + 1, n as int);
                }
                return None;
            },
        };
        i = i + 1;
    }
    Some(cur)
}

/// A failed decoding round dooms every longer chain: once some round
/// count yields `None`, so does every larger one.
proof fn lemma_decode_n_none_mono(d: Seq<u8>, k: int, n: int)
    requires
        0 <= k <= n,
        spec_decode_n(d, k) is None,
    ensures
        spec_decode_n(d, n) is None,
    decreases n - k,
{
    if k < n {
        lemma_decode_n_none_mono(d, k + 1, n);
    }
}

/// Extracts the base64 python payload from a PowerShell stage's decoded
/// text and decodes it as many times as it was encoded.
pub fn extract_python_payload(sample_str: &[u8]) -> (r: Result<Vec<u8>, DecodeError>)
    ensures
        match (r, spec_extract_python_payload(sample_str@)) {
            (Ok(v), Ok(s)) => v@ == s,
            (Err(e), Err(s)) => e == s,
            _ => false,
        },
{
    let _n: usize = sample_str.len();
    let open_plain = slice_to_vec("base64.b64decode('".as_bytes());
    let open_raw = slice_to_vec("base64.b64decode(r'".as_bytes());
    let call = slice_to_vec("base64.b64decode(".as_bytes());

    let start0: usize = match find_sub_from(sample_str, open_plain.as_slice(), 0) {
        Some(l) => {
            proof {
                lemma_spec_find_props(sample_str@, open_plain@, 0);
            }
            l + open_plain.len()
        },
        None => {
            match find_sub_from(sample_str, open_raw.as_slice(), 0) {
                Some(l) => {
                    proof {
                        lemma_spec_find_props(sample_str@, open_raw@, 0);
                    }
                    l + open_raw.len()
                },
                None => {
                    return Err(DecodeError::MarkerNotFound);
                },
            }
        },
    };

    let start = match find_not_byte_from(sample_str, 0x27, start0) {
        Some(i) => i,
        None => {
            return Err(DecodeError::MarkerNotFound);
        },
    };
    proof {
        lemma_spec_find_not_byte_props(sample_str@, 0x27, start0 as int);
    }
    let end = match find_byte_from(sample_str, 0x27, start) {
        Some(i) => i,
        None => {
            return Err(DecodeError::MarkerNotFound);
        },
    };
    proof {
        lemma_spec_find_byte_props(sample_str@, 0x27, start as int);
    }

    let blob = copy_range(sample_str, start, end);
    let times = count_matches(sample_str, call.as_slice());
    match decode_n_times(blob, times) {
        Some(v) => Ok(v),
        None => Err(DecodeError::Base64Invalid),
    }
}

/// Why handling one sample of this family failed.
#[derive(Debug, Clone, Copy, PartialEq, Eq, Structural)]
pub enum CarnavalheistError {
    /// No sample type matched the sample.
    Unclassified,
    /// A stage decoder failed while descending.
    Decode(DecodeError),
}

/// The alternate key of the family node.
pub open spec fn carnavalheist_name_key() -> Seq<u8> {
    "Carnavalheist".spec_bytes()
}

/// Creates (or reuses) the family node and links it under the corpus
/// node.
pub fn carnavalheist_create_main_node(store: &mut Store, corpus_id: usize) -> (id: usize)
    ensures
        nodes_prefix_preserved(old(store).nodes@, final(store).nodes@),
        id < final(store).nodes@.len(),
        final(store).nodes@[id as int].collection == NodeCollection::Carnavalheist,
        final(store).nodes@[id as int].key@ == carnavalheist_name_key(),
        final(store).edges@ == spec_upsert_edge(
            old(store).edges@,
            StoreEdge { collection: EdgeCollection::HasMalwareFamily, from: corpus_id, to: id },
        ),
{
    let key = slice_to_vec("Carnavalheist".as_bytes());
    let data = NodeData::Carnavalheist(
        Carnavalheist { name: "Carnavalheist".to_owned(), display_name: "Carnavalheist".to_owned() },
    );
    let node = StoreNode { collection: NodeCollection::Carnavalheist, key, data };
    let ghost gnode = node;
    let r = store.upsert_node(node);
    proof {
        if !r.created {
            lemma_node_index_found(
                old(store).nodes@,
                NodeCollection::Carnavalheist,
                carnavalheist_name_key(),
                0,
            );
        } else {
            assert(store.nodes@[r.id as int] == gnode);
        }
        assert(store.nodes@.subrange(0, old(store).nodes@.len() as int) =~= old(store).nodes@);
    }
    store.upsert_edge(
        StoreEdge { collection: EdgeCollection::HasMalwareFamily, from: corpus_id, to: r.id },
    );
    r.id
}

/// Creates (or reuses) the node for a Python stage.
pub fn carnavalheist_create_python_node(store: &mut Store, sample_data: &[u8]) -> (id: usize)
    ensures
        ({
            let key = sha256_hex_of(sample_data@);
            &&& final(store).edges@ == old(store).edges@
            &&& nodes_prefix_preserved(old(store).nodes@, final(store).nodes@)
            &&& id < final(store).nodes@.len()
            &&& spec_node_index(final(store).nodes@, NodeCollection::CarnavalheistPython, key, 0)
                == Some(id as int)
            &&& match spec_node_index(
                old(store).nodes@,
                NodeCollection::CarnavalheistPython,
                key,
                0,
            ) {
                Some(i) => final(store).nodes@ == old(store).nodes@ && id == i,
                None => {
                    &&& final(store).nodes@.len() == old(store).nodes@.len() + 1
                    &&& id == old(store).nodes@.len()
                    &&& final(store).nodes@[id as int].data matches NodeData::CarnavalheistPython(
                        p,
                    ) && p.sha256sum@ == key
                },
            }
        }),
{
    let sha256sum = sha256_hex(sample_data);
    let sha_copy = copy_range(sha256sum.as_slice(), 0, sha256sum.len());
    assert(sha_copy@ =~= sha256sum@);
    let data = NodeData::CarnavalheistPython(CarnavalheistPython { sha256sum: sha_copy });
    let node = StoreNode { collection: NodeCollection::CarnavalheistPython, key: sha256sum, data };
    let ghost gnode = node;
    let r = store.upsert_node(node);
    proof {
        let key = sha256_hex_of(sample_data@);
        assert(store.nodes@.subrange(0, old(store).nodes@.len() as int) =~= old(store).nodes@);
        if r.created {
            lemma_node_index_after_push(old(store).nodes@, gnode, 0);
        } else {
            lemma_node_index_found(old(store).nodes@, NodeCollection::CarnavalheistPython, key, 0);
            lemma_node_index_prefix_stable(
                old(store).nodes@,
                store.nodes@,
                NodeCollection::CarnavalheistPython,
                key,
                0,
            );
        }
    }
    r.id
}

/// Creates the node for a PowerShell stage and, when the stage is new,
/// extracts its base64 Python payload and records it as a linked child.
/// A stage already stored short-circuits without touching the store
/// further.
pub fn carnavalheist_create_ps_node(store: &mut Store, sample_data: &[u8], ps_type: PsType) -> (r:
    Result<usize, DecodeError>)
    ensures
        nodes_prefix_preserved(old(store).nodes@, final(store).nodes@),
        edges_preserved(old(store).edges@, final(store).edges@),
        r matches Ok(id) ==> id < final(store).nodes@.len() && spec_node_index(
            final(store).nodes@,
            NodeCollection::CarnavalheistPs,
            sha256_hex_of(sample_data@),
            0,
        ) == Some(id as int),
        spec_node_index(
            old(store).nodes@,
            NodeCollection::CarnavalheistPs,
            sha256_hex_of(sample_data@),
            0,
        ) matches Some(i) ==> r == Ok::<usize, DecodeError>(i as usize) && final(store).nodes@
            == old(store).nodes@ && final(store).edges@ == old(store).edges@,
        spec_node_index(
            old(store).nodes@,
            NodeCollection::CarnavalheistPs,
            sha256_hex_of(sample_data@),
            0,
        ) is None ==> ({
            let key = sha256_hex_of(sample_data@);
            &&& spec_node_index(final(store).nodes@, NodeCollection::CarnavalheistPs, key, 0)
                == Some(old(store).nodes@.len() as int)
            &&& (final(store).nodes@[old(store).nodes@.len() as int].data matches
                NodeData::CarnavalheistPs(p) && p.sha256sum@ == key && p.ps_type == ps_type)
            &&& match spec_extract_python_payload(spec_text_of(sample_data@)) {
                Err(e) => r == Err::<usize, DecodeError>(e),
                Ok(py) => (r matches Ok(id2) && id2 == old(store).nodes@.len() && (
                spec_node_index(
                    final(store).nodes@,
                    NodeCollection::CarnavalheistPython,
                    sha256_hex_of(py),
                    0,
                ) matches Some(pj) && final(store).edges@.contains(
                    StoreEdge {
                        collection: EdgeCollection::CarnavalheistHasPython,
                        from: id2,
                        to: pj as usize,
                    },
                ))),
            }
        }),
{
    let sha256sum = sha256_hex(sample_data);
    let sha_copy = copy_range(sha256sum.as_slice(), 0, sha256sum.len());
    assert(sha_copy@ =~= sha256sum@);
    let data = NodeData::CarnavalheistPs(CarnavalheistPs { sha256sum: sha_copy, ps_type });
    let node = StoreNode { collection: NodeCollection::CarnavalheistPs, key: sha256sum, data };
    let ghost gnode = node;
    let upsert = store.upsert_node(node);
    proof {
        let key = sha256_hex_of(sample_data@);
        assert(store.nodes@.subrange(0, old(store).nodes@.len() as int) =~= old(store).nodes@);
        if upsert.created {
            lemma_node_index_after_push(old(store).nodes@, gnode, 0);
        } else {
            lemma_node_index_found(old(store).nodes@, NodeCollection::CarnavalheistPs, key, 0);
            lemma_node_index_prefix_stable(
                old(store).nodes@,
                store.nodes@,
                NodeCollection::CarnavalheistPs,
                key,
                0,
            );
        }
    }
    if !upsert.created {
        return Ok(upsert.id);
    }
    let ps_id = upsert.id;
    let ghost snap = store.nodes@;
    proof {
        assert(store.nodes@[ps_id as int] == gnode);
    }

    let sample_str = get_string_from_binary(sample_data);
    let python = match extract_python_payload(sample_str.as_slice()) {
        Ok(v) => v,
        Err(e) => {
            proof {
                assert(store.nodes@.subrange(0, snap.len() as int) =~= snap);
            }
            return Err(e);
        },
    };

    let ghost key = sha256_hex_of(sample_data@);
    let python_id = carnavalheist_create_python_node(store, python.as_slice());
    let ghost mid_edges = store.edges@;
    let edge = StoreEdge {
        collection: EdgeCollection::CarnavalheistHasPython,
        from: ps_id,
        to: python_id,
    };
    store.upsert_edge(edge);
    proof {
        lemma_prefix_preserved_trans(old(store).nodes@, snap, store.nodes@);
        lemma_node_index_prefix_stable(
            snap,
            store.nodes@,
            NodeCollection::CarnavalheistPs,
            key,
            0,
        );
        crate::store::lemma_upsert_edge_grows(mid_edges, edge);
        assert(store.nodes@[ps_id as int] == store.nodes@.subrange(0, snap.len() as int)[
            ps_id as int
        ]);
    }
    Ok(ps_id)
}

/// What the batch stage's full descent decides, over the named decoder
/// results: the PowerShell payload must extract along the path the
/// sample type names; a PowerShell stage already stored ends the
/// descent; otherwise its Python payload must extract in turn.
pub open spec fn spec_batch_chain_result(
    old_nodes: Seq<StoreNode>,
    sample: Seq<u8>,
    sample_type: SampleType,
) -> Result<(), DecodeError> {
    let text = spec_text_of(sample);
    let extract = if sample_type == SampleType::BatchE {
        spec_extract_from_batch_e(text)
    } else {
        spec_extract_from_batch_command_normal(text)
    };
    match extract {
        Err(e) => Err(e),
        Ok(ps) => match spec_node_index(
            old_nodes,
            NodeCollection::CarnavalheistPs,
            sha256_hex_of(ps),
            0,
        ) {
            Some(_) => Ok(()),
            None => match spec_extract_python_payload(spec_text_of(ps)) {
                Err(e) => Err(e),
                Ok(_) => Ok(()),
            },
        },
    }
}

/// Creates the node for a batch stage and, when the stage is new,
/// extracts its PowerShell payload along the path its sample type
/// names and records the chain batch → PowerShell → Python. A stage
/// already stored short-circuits without touching the store further.
pub fn carnavalheist_create_batch_node(
    store: &mut Store,
    sample_data: &[u8],
    sample_type: SampleType,
) -> (r: Result<usize, DecodeError>)
    requires
        sample_type == SampleType::BatchE || sample_type == SampleType::BatchCommandNormal,
    ensures
        nodes_prefix_preserved(old(store).nodes@, final(store).nodes@),
        edges_preserved(old(store).edges@, final(store).edges@),
        r matches Ok(id) ==> id < final(store).nodes@.len() && spec_node_index(
            final(store).nodes@,
            NodeCollection::CarnavalheistBatch,
            sha256_hex_of(sample_data@),
            0,
        ) == Some(id as int),
        spec_node_index(
            old(store).nodes@,
            NodeCollection::CarnavalheistBatch,
            sha256_hex_of(sample_data@),
            0,
        ) matches Some(i) ==> r == Ok::<usize, DecodeError>(i as usize) && final(store).nodes@
            == old(store).nodes@ && final(store).edges@ == old(store).edges@,
        spec_node_index(
            old(store).nodes@,
            NodeCollection::CarnavalheistBatch,
            sha256_hex_of(sample_data@),
            0,
        ) is None ==> ({
            let key = sha256_hex_of(sample_data@);
            let text = spec_text_of(sample_data@);
            let extract = if sample_type == SampleType::BatchE {
                spec_extract_from_batch_e(text)
            } else {
                spec_extract_from_batch_command_normal(text)
            };
            &&& spec_node_index(final(store).nodes@, NodeCollection::CarnavalheistBatch, key, 0)
                == Some(old(store).nodes@.len() as int)
            &&& (final(store).nodes@[old(store).nodes@.len() as int].data matches
                NodeData::CarnavalheistBatch(b) && b.sha256sum@ == key)
            &&& r == (match spec_batch_chain_result(old(store).nodes@, sample_data@, sample_type) {
                Err(e) => Err::<usize, DecodeError>(e),
                Ok(u) => Ok::<usize, DecodeError>(old(store).nodes@.len() as usize),
            })
            &&& match extract {
                Err(_) => true,
                Ok(ps) => (spec_node_index(
                    final(store).nodes@,
                    NodeCollection::CarnavalheistPs,
                    sha256_hex_of(ps),
                    0,
                ) matches Some(pj) && (r is Ok ==> final(store).edges@.contains(
                    StoreEdge {
                        collection: EdgeCollection::CarnavalheistHasPs,
                        from: old(store).nodes@.len() as usize,
                        to: pj as usize,
                    },
                ))),
            }
        }),
{
    let sha256sum = sha256_hex(sample_data);
    let sha_copy = copy_range(sha256sum.as_slice(), 0, sha256sum.len());
    assert(sha_copy@ =~= sha256sum@);
    let data = NodeData::CarnavalheistBatch(CarnavalheistBatch { sha256sum: sha_copy });
    let node = StoreNode { collection: NodeCollection::CarnavalheistBatch, key: sha256sum, data };
    let ghost gnode = node;
    let upsert = store.upsert_node(node);
    proof {
        let key = sha256_hex_of(sample_data@);
        assert(store.nodes@.subrange(0, old(store).nodes@.len() as int) =~= old(store).nodes@);
        if upsert.created {
            lemma_node_index_after_push(old(store).nodes@, gnode, 0);
        } else {
            lemma_node_index_found(old(store).nodes@, NodeCollection::CarnavalheistBatch, key, 0);
            lemma_node_index_prefix_stable(
                old(store).nodes@,
                store.nodes@,
                NodeCollection::CarnavalheistBatch,
                key,
                0,
            );
        }
    }
    if !upsert.created {
        return Ok(upsert.id);
    }
    let batch_id = upsert.id;
    let ghost snap = store.nodes@;
    proof {
        assert(store.nodes@[batch_id as int] == gnode);
    }

    let sample_str = get_string_from_binary(sample_data);
    let extracted = if matches!(sample_type, SampleType::BatchE) {
        extract_from_batch_e(sample_str.as_slice())
    } else {
        extract_from_batch_command_normal(sample_str.as_slice())
    };
    let ps_stage = match extracted {
        Ok(v) => v,
        Err(e) => {
            proof {
                assert(store.nodes@.subrange(0, snap.len() as int) =~= snap);
            }
            return Err(e);
        },
    };

    let ghost key = sha256_hex_of(sample_data@);
    proof {
        crate::store::lemma_node_index_push_other(
            old(store).nodes@,
            gnode,
            NodeCollection::CarnavalheistPs,
            sha256_hex_of(ps_stage@),
            0,
        );
    }
    match carnavalheist_create_ps_node(store, ps_stage.as_slice(), PsType::Normal) {
        Ok(ps_id) => {
            let ghost mid_edges = store.edges@;
            let edge = StoreEdge {
                collection: EdgeCollection::CarnavalheistHasPs,
                from: batch_id,
                to: ps_id,
            };
            store.upsert_edge(edge);
            proof {
                lemma_prefix_preserved_trans(old(store).nodes@, snap, store.nodes@);
                lemma_node_index_prefix_stable(
                    snap,
                    store.nodes@,
                    NodeCollection::CarnavalheistBatch,
                    key,
                    0,
                );
                crate::store::lemma_upsert_edge_grows(mid_edges, edge);
                assert(store.nodes@[batch_id as int] == store.nodes@.subrange(
                    0,
                    snap.len() as int,
                )[batch_id as int]);
            }
            Ok(batch_id)
        },
        Err(e) => {
            proof {
                lemma_prefix_preserved_trans(old(store).nodes@, snap, store.nodes@);
                lemma_node_index_prefix_stable(
                    snap,
                    store.nodes@,
                    NodeCollection::CarnavalheistBatch,
                    key,
                    0,
                );
                assert(store.nodes@[batch_id as int] == store.nodes@.subrange(
                    0,
                    snap.len() as int,
                )[batch_id as int]);
            }
            Err(e)
        },
    }
}

/// Classifies one sample and records it: the two implemented batch
/// variants descend through their stages, a Python sample becomes a
/// bare node, the unimplemented variants are accepted and skipped, and
/// an unclassifiable sample is reported without touching the store.
pub fn carnavalheist_handle_sample(store: &mut Store, main_id: usize, sample_data: &[u8]) -> (r:
    Result<(), CarnavalheistError>)
    ensures
        nodes_prefix_preserved(old(store).nodes@, final(store).nodes@),
        edges_preserved(old(store).edges@, final(store).edges@),
        spec_carnavalheist_detect(sample_data@) is None <==> r == Err::<(), CarnavalheistError>(
            CarnavalheistError::Unclassified,
        ),
        spec_carnavalheist_detect(sample_data@) is None ==> *final(store) == *old(store),
        ({
            let key = sha256_hex_of(sample_data@);
            match spec_carnavalheist_detect(sample_data@) {
                Some(ty) => match ty {
                    SampleType::BatchE | SampleType::BatchCommandNormal => {
                        &&& spec_node_index(
                            final(store).nodes@,
                            NodeCollection::CarnavalheistBatch,
                            key,
                            0,
                        ) is Some
                        &&& r == (match spec_node_index(
                            old(store).nodes@,
                            NodeCollection::CarnavalheistBatch,
                            key,
                            0,
                        ) {
                            Some(_) => Ok::<(), CarnavalheistError>(()),
                            None => match spec_batch_chain_result(
                                old(store).nodes@,
                                sample_data@,
                                ty,
                            ) {
                                Err(e) => Err::<(), CarnavalheistError>(
                                    CarnavalheistError::Decode(e),
                                ),
                                Ok(u) => Ok::<(), CarnavalheistError>(()),
                            },
                        })
                        &&& (r is Ok ==> (spec_node_index(
                            final(store).nodes@,
                            NodeCollection::CarnavalheistBatch,
                            key,
                            0,
                        ) matches Some(bj) && final(store).edges@.contains(
                            StoreEdge {
                                collection: EdgeCollection::CarnavalheistHasBatch,
                                from: main_id,
                                to: bj as usize,
                            },
                        )))
                    },
                    SampleType::Python => r is Ok && spec_node_index(
                        final(store).nodes@,
                        NodeCollection::CarnavalheistPython,
                        key,
                        0,
                    ) is Some,
                    SampleType::BatchCommandConcat | SampleType::Ps => r is Ok && *final(store)
                        == *old(store),
                },
                None => true,
            }
        }),
{
    match detect_sample_type(sample_data) {
        Some(SampleType::BatchE) => {
            match carnavalheist_create_batch_node(store, sample_data, SampleType::BatchE) {
                Ok(batch_id) => {
                    let ghost mid_edges = store.edges@;
                    let edge = StoreEdge {
                        collection: EdgeCollection::CarnavalheistHasBatch,
                        from: main_id,
                        to: batch_id,
                    };
                    store.upsert_edge(edge);
                    proof {
                        crate::store::lemma_upsert_edge_grows(mid_edges, edge);
                    }
                    Ok(())
                },
                Err(e) => Err(CarnavalheistError::Decode(e)),
            }
        },
        Some(SampleType::BatchCommandNormal) => {
            match carnavalheist_create_batch_node(
                store,
                sample_data,
                SampleType::BatchCommandNormal,
            ) {
                Ok(batch_id) => {
                    let ghost mid_edges = store.edges@;
                    let edge = StoreEdge {
                        collection: EdgeCollection::CarnavalheistHasBatch,
                        from: main_id,
                        to: batch_id,
                    };
                    store.upsert_edge(edge);
                    proof {
                        crate::store::lemma_upsert_edge_grows(mid_edges, edge);
                    }
                    Ok(())
                },
                Err(e) => Err(CarnavalheistError::Decode(e)),
            }
        },
        Some(SampleType::BatchCommandConcat) => {
            proof {
                assert(store.nodes@.subrange(0, store.nodes@.len() as int) =~= store.nodes@);
            }
            Ok(())
        },
        Some(SampleType::Ps) => {
            proof {
                assert(store.nodes@.subrange(0, store.nodes@.len() as int) =~= store.nodes@);
            }
            Ok(())
        },
        Some(SampleType::Python) => {
            carnavalheist_create_python_node(store, sample_data);
            Ok(())
        },
        None => {
            proof {
                assert(store.nodes@.subrange(0, store.nodes@.len() as int) =~= store.nodes@);
            }
            Err(CarnavalheistError::Unclassified)
        },
    }
}

} // verus!
