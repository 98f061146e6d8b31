//! Tests for the content-addressed store and the family pipelines:
//! idempotent upserts, the re-submission short-circuit, and the
//! concrete APK scenario.

use macon::coper;
use macon::store::{EdgeCollection, NodeCollection, NodeData, Store, StoreEdge, StoreNode};

fn le16(out: &mut Vec<u8>, x: u16) {
    out.extend_from_slice(&x.to_le_bytes());
}

fn le32(out: &mut Vec<u8>, x: u32) {
    out.extend_from_slice(&x.to_le_bytes());
}

fn crc32(data: &[u8]) -> u32 {
    let mut crc = flate2::Crc::new();
    crc.update(data);
    crc.sum()
}

fn build_zip(entries: &[(&str, &[u8])]) -> Vec<u8> {
    let mut files: Vec<u8> = Vec::new();
    let mut offsets: Vec<u32> = Vec::new();
    for (name, data) in entries {
        offsets.push(files.len() as u32);
        le32(&mut files, 0x04034b50);
        le16(&mut files, 20);
        le16(&mut files, 0);
        le16(&mut files, 0);
        le16(&mut files, 0);
        le16(&mut files, 0);
        le32(&mut files, crc32(data));
        le32(&mut files, data.len() as u32);
        le32(&mut files, data.len() as u32);
        le16(&mut files, name.len() as u16);
        le16(&mut files, 0);
        files.extend_from_slice(name.as_bytes());
        files.extend_from_slice(data);
    }
    let cd_offset = files.len() as u32;
    let mut cd: Vec<u8> = Vec::new();
    for (i, (name, data)) in entries.iter().enumerate() {
        le32(&mut cd, 0x02014b50);
        le16(&mut cd, 20);
        le16(&mut cd, 20);
        le16(&mut cd, 0);
        le16(&mut cd, 0);
        le16(&mut cd, 0);
        le16(&mut cd, 0);
        le32(&mut cd, crc32(data));
        le32(&mut cd, data.len() as u32);
        le32(&mut cd, data.len() as u32);
        le16(&mut cd, name.len() as u16);
        le16(&mut cd, 0);
        le16(&mut cd, 0);
        le16(&mut cd, 0);
        le16(&mut cd, 0);
        le32(&mut cd, 0);
        le32(&mut cd, offsets[i]);
        cd.extend_from_slice(name.as_bytes());
    }
    let mut out = files;
    let cd_size = cd.len() as u32;
    out.extend_from_slice(&cd);
    le32(&mut out, 0x06054b50);
    le16(&mut out, 0);
    le16(&mut out, 0);
    le16(&mut out, entries.len() as u16);
    le16(&mut out, entries.len() as u16);
    le32(&mut out, cd_size);
    le32(&mut out, cd_offset);
    le16(&mut out, 0);
    out
}

fn count_nodes(store: &Store, collection: NodeCollection) -> usize {
    store.nodes.iter().filter(|n| n.collection == collection).count()
}

fn count_edges(store: &Store, collection: EdgeCollection) -> usize {
    store.edges.iter().filter(|e| e.collection == collection).count()
}

#[test]
fn upsert_node_is_idempotent() {
    let mut store = Store::new();
    let node = |v: u8| StoreNode {
        collection: NodeCollection::CoperDEX,
        key: vec![v; 4],
        data: NodeData::CoperDEX(macon::nodes::CoperDEX { sha256sum: vec![v; 4] }),
    };
    let first = store.upsert_node(node(1));
    assert!(first.created);
    let again = store.upsert_node(node(1));
    assert!(!again.created);
    assert_eq!(again.id, first.id);
    assert_eq!(store.nodes.len(), 1);
    let other = store.upsert_node(node(2));
    assert!(other.created);
    assert_eq!(store.nodes.len(), 2);
}

#[test]
fn upsert_edge_is_idempotent() {
    let mut store = Store::new();
    let edge = StoreEdge { collection: EdgeCollection::CoperHasDEX, from: 0, to: 1 };
    assert!(store.upsert_edge(edge));
    assert!(!store.upsert_edge(edge));
    assert_eq!(store.edges.len(), 1);
    let reversed = StoreEdge { collection: EdgeCollection::CoperHasDEX, from: 1, to: 0 };
    assert!(store.upsert_edge(reversed));
    assert_eq!(store.edges.len(), 2);
}

#[test]
fn same_sample_twice_creates_one_node_and_no_duplicate_edges() {
    let elf = b"\x7fELF\x01\x01\x01\x00\x00\x00\x00\x00\x00\x00\x00\x00\x02\x00\x28\x00";
    let mut store = Store::new();
    let corpus = store.create_corpus_node();
    let main = coper::coper_create_main_node(&mut store, corpus);

    coper::coper_handle_sample(&mut store, main, elf).unwrap();
    let nodes_after_first = store.nodes.len();
    let edges_after_first = store.edges.len();

    coper::coper_handle_sample(&mut store, main, elf).unwrap();
    assert_eq!(store.nodes.len(), nodes_after_first);
    assert_eq!(store.edges.len(), edges_after_first);
    assert_eq!(count_nodes(&store, NodeCollection::CoperELF), 1);
}

#[test]
fn apk_resubmission_short_circuits() {
    let elf_payload = b"\x7fELF";
    let dex_payload = b"dex\n035\x00";
    let apk = build_zip(&[
        ("lib/armeabi-v7a/x.so", elf_payload),
        ("classes.dex", dex_payload),
    ]);

    let mut store = Store::new();
    let corpus = store.create_corpus_node();
    let main = coper::coper_create_main_node(&mut store, corpus);

    coper::coper_handle_sample(&mut store, main, &apk).unwrap();
    let nodes_after_first = store.nodes.len();
    let edges_after_first = store.edges.len();

    // the second submission finds the fingerprint and stops descending
    coper::coper_handle_sample(&mut store, main, &apk).unwrap();
    assert_eq!(store.nodes.len(), nodes_after_first);
    assert_eq!(store.edges.len(), edges_after_first);
}

#[test]
fn apk_scenario_one_elf_and_one_dex_child() {
    let elf_payload = b"\x7fELF";
    let dex_payload = b"dex\n035\x00";
    assert_eq!(dex_payload[7], 0);
    let apk = build_zip(&[
        ("lib/armeabi-v7a/x.so", elf_payload),
        ("classes.dex", dex_payload),
    ]);

    let mut store = Store::new();
    let corpus = store.create_corpus_node();
    let main = coper::coper_create_main_node(&mut store, corpus);
    coper::coper_handle_sample(&mut store, main, &apk).unwrap();

    assert_eq!(count_nodes(&store, NodeCollection::CoperAPK), 1);
    assert_eq!(count_nodes(&store, NodeCollection::CoperELF), 1);
    assert_eq!(count_nodes(&store, NodeCollection::CoperDEX), 1);

    let apk_id = store
        .nodes
        .iter()
        .position(|n| n.collection == NodeCollection::CoperAPK)
        .unwrap();
    let elf_id = store
        .nodes
        .iter()
        .position(|n| n.collection == NodeCollection::CoperELF)
        .unwrap();
    let dex_id = store
        .nodes
        .iter()
        .position(|n| n.collection == NodeCollection::CoperDEX)
        .unwrap();

    match &store.nodes[apk_id].data {
        NodeData::CoperAPK(a) => {
            assert!(!a.is_cut);
            assert_eq!(a.sha256sum, sha256::digest(&apk[..]).into_bytes());
        },
        other => panic!("unexpected node data: {other:?}"),
    }
    match &store.nodes[elf_id].data {
        NodeData::CoperELF(e) => {
            assert_eq!(e.architecture, Some(macon::nodes::CoperELFArchitecture::ArmEabiV7a));
        },
        other => panic!("unexpected node data: {other:?}"),
    }
    match &store.nodes[dex_id].data {
        NodeData::CoperDEX(d) => {
            assert_eq!(d.sha256sum, sha256::digest(&dex_payload[..]).into_bytes());
        },
        other => panic!("unexpected node data: {other:?}"),
    }

    assert!(store.edges.contains(&StoreEdge {
        collection: EdgeCollection::CoperHasELF,
        from: apk_id,
        to: elf_id,
    }));
    assert!(store.edges.contains(&StoreEdge {
        collection: EdgeCollection::CoperHasDEX,
        from: apk_id,
        to: dex_id,
    }));
    assert!(store.edges.contains(&StoreEdge {
        collection: EdgeCollection::CoperHasAPK,
        from: main,
        to: apk_id,
    }));
    assert_eq!(count_edges(&store, EdgeCollection::CoperHasELF), 1);
    assert_eq!(count_edges(&store, EdgeCollection::CoperHasDEX), 1);
}

#[test]
fn unopenable_apk_marked_cut() {
    // starts with the ZIP magic, so it classifies as an APK, but is no
    // archive
    let broken = b"PK\x03\x04 not really an archive";
    let mut store = Store::new();
    let corpus = store.create_corpus_node();
    let main = coper::coper_create_main_node(&mut store, corpus);
    coper::coper_handle_sample(&mut store, main, broken).unwrap();
    let apk = store
        .nodes
        .iter()
        .find(|n| n.collection == NodeCollection::CoperAPK)
        .unwrap();
    match &apk.data {
        NodeData::CoperAPK(a) => assert!(a.is_cut),
        other => panic!("unexpected node data: {other:?}"),
    }
    assert_eq!(count_nodes(&store, NodeCollection::CoperELF), 0);
}

#[test]
fn unclassifiable_sample_is_an_error_and_leaves_store_unchanged() {
    let mut store = Store::new();
    let corpus = store.create_corpus_node();
    let main = coper::coper_create_main_node(&mut store, corpus);
    let before = store.nodes.len();
    assert!(coper::coper_handle_sample(&mut store, main, b"zzzz").is_err());
    assert_eq!(store.nodes.len(), before);
}

type Arch = macon::nodes::CoperELFArchitecture;

#[test]
fn elf_architecture_detection_all_known_machines() {
    // little-endian images: machine byte at offset 18
    let mut le = vec![0u8; 20];
    le[5] = 1;
    for (byte, arch) in [
        (0x03u8, Arch::X86),
        (0x28, Arch::ArmEabiV7a),
        (0x3e, Arch::X86_64),
        (0xb7, Arch::Arm64V8a),
    ] {
        le[18] = byte;
        assert_eq!(coper::detect_elf_architecture(&le), Some(arch));
    }
    le[18] = 0x42;
    assert_eq!(coper::detect_elf_architecture(&le), None);

    // big-endian images: machine byte at offset 19
    let mut be = vec![0u8; 20];
    be[5] = 2;
    be[19] = 0x28;
    assert_eq!(coper::detect_elf_architecture(&be), Some(Arch::ArmEabiV7a));
    be[5] = 3;
    assert_eq!(coper::detect_elf_architecture(&be), None);
}

use macon::coper::CoperSampleType;

#[test]
fn coper_classifier_priority() {
    assert_eq!(coper::detect_sample_type(b"PK\x03\x04rest"), Some(CoperSampleType::APK));
    assert_eq!(coper::detect_sample_type(b"dex\n035\x00\x00"), Some(CoperSampleType::DEX));
    assert_eq!(coper::detect_sample_type(b"\x7fELFrest"), Some(CoperSampleType::ELF));
    assert_eq!(coper::detect_sample_type(b"MZ not handled"), None);
    // a DEX magic whose trailer byte is not null falls through to no
    // match
    assert_eq!(coper::detect_sample_type(b"dex\n035\x01\x01"), None);
}

#[test]
fn extract_from_zip_falls_back_to_stripped_archive() {
    let member = b"inner contents";
    let zip = build_zip(&[("file.txt", member)]);
    let out = macon::apk::extract_from_zip(&zip, b"file.txt", false).unwrap();
    assert_eq!(out, member.to_vec());
    assert!(macon::apk::extract_from_zip(&zip, b"absent.txt", false).is_err());
    assert!(macon::apk::extract_from_zip(&zip, b"absent.txt", true).is_err());
}
