//! A content-addressed artifact store: nodes keyed by collection and
//! fingerprint with create-or-reuse semantics, and directed edges keyed
//! by their endpoints, both idempotent on re-submission.

use vstd::prelude::*;

verus! {

use crate::nodes::{
    Carnavalheist, CarnavalheistBatch, CarnavalheistPs, CarnavalheistPython, Coper, CoperAPK,
    CoperDEX, CoperELF, FocusedCorpus, Mintsloader, MintsloaderJava, MintsloaderPs,
    MintsloaderX509Cert,
};

/// The node collections of the store.
#[derive(Debug, Clone, Copy, PartialEq, Eq, Structural)]
pub enum NodeCollection {
    FocusedCorpus,
    Carnavalheist,
    CarnavalheistBatch,
    CarnavalheistPs,
    CarnavalheistPython,
    Coper,
    CoperAPK,
    CoperELF,
    CoperDEX,
    Mintsloader,
    MintsloaderPs,
    MintsloaderJava,
    MintsloaderX509Cert,
}

/// The edge collections of the store.
#[derive(Debug, Clone, Copy, PartialEq, Eq, Structural)]
pub enum EdgeCollection {
    HasMalwareFamily,
    CarnavalheistHasBatch,
    CarnavalheistHasPs,
    CarnavalheistHasPython,
    CoperHasAPK,
    CoperHasELF,
    CoperHasDEX,
    MintsloaderHasPs,
    MintsloaderHasJava,
    MintsloaderHasX509Cert,
}

/// The attributes a node carries, one variant per collection.
#[derive(Debug, Clone)]
pub enum NodeData {
    FocusedCorpus(FocusedCorpus),
    Carnavalheist(Carnavalheist),
    CarnavalheistBatch(CarnavalheistBatch),
    CarnavalheistPs(CarnavalheistPs),
    CarnavalheistPython(CarnavalheistPython),
    Coper(Coper),
    CoperAPK(CoperAPK),
    CoperELF(CoperELF),
    CoperDEX(CoperDEX),
    Mintsloader(Mintsloader),
    MintsloaderPs(MintsloaderPs),
    MintsloaderJava(MintsloaderJava),
    MintsloaderX509Cert(MintsloaderX509Cert),
}

/// One stored node: its collection, its alternate key (the fingerprint
/// for artifact nodes, the name for family nodes), and its attributes.
#[derive(Debug)]
pub struct StoreNode {
    pub collection: NodeCollection,
    pub key: Vec<u8>,
    pub data: NodeData,
}

/// One stored directed edge, keyed by collection and both endpoints.
#[derive(Debug, Clone, Copy, PartialEq, Eq, Structural)]
pub struct StoreEdge {
    pub collection: EdgeCollection,
    pub from: usize,
    pub to: usize,
}

/// What an upsert reports: the node's handle and whether the call
/// created it.
#[derive(Debug, Clone, Copy, PartialEq, Eq, Structural)]
pub struct UpsertResult {
    pub id: usize,
    pub created: bool,
}

/// The first node matching a collection and key, if any.
pub open spec fn spec_node_index(
    nodes: Seq<StoreNode>,
    collection: NodeCollection,
    key: Seq<u8>,
    i: int,
) -> Option<int>
    decreases nodes.len() - i,
{
    if i < 0 || i >= nodes.len() {
        None
    } else if nodes[i].collection == collection && nodes[i].key@ == key {
        Some(i)
    } else {
        spec_node_index(nodes, collection, key, i + 1)
    }
}

/// The node list after an upsert: unchanged when the key is already
/// present, extended by the node otherwise.
pub open spec fn spec_upsert_node(nodes: Seq<StoreNode>, node: StoreNode) -> Seq<StoreNode> {
    match spec_node_index(nodes, node.collection, node.key@, 0) {
        Some(_) => nodes,
        None => nodes.push(node),
    }
}

/// The edge list after an upsert: unchanged when the same edge is
/// already present, extended by it otherwise.
pub open spec fn spec_upsert_edge(edges: Seq<StoreEdge>, edge: StoreEdge) -> Seq<StoreEdge> {
    if edges.contains(edge) {
        edges
    } else {
        edges.push(edge)
    }
}

/// The in-memory content-addressed store.
#[derive(Debug)]
pub struct Store {
    pub nodes: Vec<StoreNode>,
    pub edges: Vec<StoreEdge>,
}

/// Compares two byte buffers.
fn bytes_eq(a: &[u8], b: &[u8]) -> (r: bool)
    ensures
        r == (a@ == b@),
{
    let _n: usize = a.len();
    if a.len() != b.len() {
        return false;
    }
    let mut i: usize = 0;
    while i < a.len()
        invariant
            0 <= i <= a@.len(),
            a@.len() == b@.len(),
            a@.len() <= usize::MAX,
            forall|j: int| 0 <= j < i ==> a@[j] == b@[j],
        decreases a@.len() - i,
    {
        if a[i] != b[i] {
            return false;
        }
        i = i + 1;
    }
    assert(a@ =~= b@);
    true
}

impl Store {
    /// An empty store.
    pub fn new() -> (r: Store)
        ensures
            r.nodes@.len() == 0,
            r.edges@.len() == 0,
    {
        Store { nodes: Vec::new(), edges: Vec::new() }
    }

    /// Looks a node up by collection and alternate key.
    #[verifier::loop_isolation(false)]
    pub fn get_node(&self, collection: NodeCollection, key: &[u8]) -> (r: Option<usize>)
        ensures
            match r {
                Some(i) => Some(i as int) == spec_node_index(self.nodes@, collection, key@, 0)
                    && i < self.nodes@.len(),
                None => spec_node_index(self.nodes@, collection, key@, 0) is None,
            },
    {
        let mut i: usize = 0;
        while i < self.nodes.len()
            invariant
                0 <= i <= self.nodes@.len(),
                spec_node_index(self.nodes@, collection, key@, 0) == spec_node_index(
                    self.nodes@,
                    collection,
                    key@,
                    i as int,
                ),
            decreases self.nodes@.len() - i,
        {
            let node = &self.nodes[i];
            if node.collection == collection && bytes_eq(node.key.as_slice(), key) {
                return Some(i);
            }
            i = i + 1;
        }
        None
    }

    /// Creates the node unless one with its collection and key already
    /// exists; reports the surviving node's handle and whether this
    /// call created it. Re-submitting the same key never duplicates a
    /// node and never mutates the one already stored.
    pub fn upsert_node(&mut self, node: StoreNode) -> (r: UpsertResult)
        ensures
            final(self).nodes@ == spec_upsert_node(old(self).nodes@, node),
            final(self).edges@ == old(self).edges@,
            r.created == (spec_node_index(old(self).nodes@, node.collection, node.key@, 0)
                is None),
            !r.created ==> Some(r.id as int) == spec_node_index(
                old(self).nodes@,
                node.collection,
                node.key@,
                0,
            ),
            r.created ==> r.id == old(self).nodes@.len(),
            r.id < final(self).nodes@.len(),
    {
        match self.get_node(node.collection, node.key.as_slice()) {
            Some(i) => UpsertResult { id: i, created: false },
            None => {
                let id = self.nodes.len();
                self.nodes.push(node);
                UpsertResult { id, created: true }
            },
        }
    }

    /// Creates (or reuses) the corpus root node that every family node
    /// hangs under.
    pub fn create_corpus_node(&mut self) -> (id: usize)
        ensures
            final(self).edges@ == old(self).edges@,
            old(self).nodes@.len() <= final(self).nodes@.len(),
            final(self).nodes@.subrange(0, old(self).nodes@.len() as int) == old(self).nodes@,
            id < final(self).nodes@.len(),
            final(self).nodes@[id as int].collection == NodeCollection::FocusedCorpus,
    {
        let key = vstd::slice::slice_to_vec("FocusedCorpus".as_bytes());
        let data = NodeData::FocusedCorpus(
            FocusedCorpus {
                name: "FocusedCorpus".to_owned(),
                display_name: "FocusedCorpus".to_owned(),
            },
        );
        let node = StoreNode { collection: NodeCollection::FocusedCorpus, key, data };
        let ghost gnode = node;
        let r = self.upsert_node(node);
        proof {
            assert(self.nodes@.subrange(0, old(self).nodes@.len() as int) =~= old(self).nodes@);
            if !r.created {
                lemma_node_index_found(
                    old(self).nodes@,
                    NodeCollection::FocusedCorpus,
                    gnode.key@,
                    0,
                );
            } else {
                assert(self.nodes@[r.id as int] == gnode);
            }
        }
        r.id
    }

    /// Tests whether the exact edge is already stored.
    #[verifier::loop_isolation(false)]
    pub fn has_edge(&self, edge: StoreEdge) -> (r: bool)
        ensures
            r == self.edges@.contains(edge),
    {
        let mut i: usize = 0;
        while i < self.edges.len()
            invariant
                0 <= i <= self.edges@.len(),
                forall|j: int| 0 <= j < i ==> self.edges@[j] != edge,
            decreases self.edges@.len() - i,
        {
            if self.edges[i] == edge {
                return true;
            }
            i = i + 1;
        }
        false
    }

    /// Creates the edge unless the same collection and endpoints are
    /// already linked; idempotent on the `(from, to)` key.
    pub fn upsert_edge(&mut self, edge: StoreEdge) -> (r: bool)
        ensures
            final(self).edges@ == spec_upsert_edge(old(self).edges@, edge),
            final(self).nodes@ == old(self).nodes@,
            r == !old(self).edges@.contains(edge),
            final(self).edges@.contains(edge),
    {
        if self.has_edge(edge) {
            false
        } else {
            self.edges.push(edge);
            assert(self.edges@.contains(edge)) by {
                assert(self.edges@[self.edges@.len() - 1] == edge);
            }
            true
        }
    }
}

/// What a successful index scan guarantees: the found node lies in
/// range and matches the collection and key.
pub proof fn lemma_node_index_found(
    nodes: Seq<StoreNode>,
    collection: NodeCollection,
    key: Seq<u8>,
    at: int,
)
    requires
        spec_node_index(nodes, collection, key, at) is Some,
    ensures
        ({
            let i = spec_node_index(nodes, collection, key, at).unwrap();
            &&& at <= i < nodes.len()
            &&& nodes[i].collection == collection
            &&& nodes[i].key@ == key
        }),
    decreases nodes.len() - at,
{
    if at < 0 || at >= nodes.len() {
    } else if nodes[at].collection == collection && nodes[at].key@ == key {
    } else {
        lemma_node_index_found(nodes, collection, key, at + 1);
    }
}

/// Appending a node of another collection or key moves no index: the
/// scan's first match is unchanged.
pub proof fn lemma_node_index_push_other(
    nodes: Seq<StoreNode>,
    node: StoreNode,
    collection: NodeCollection,
    key: Seq<u8>,
    at: int,
)
    requires
        !(node.collection == collection && node.key@ == key),
        0 <= at <= nodes.len(),
    ensures
        spec_node_index(nodes.push(node), collection, key, at) == spec_node_index(
            nodes,
            collection,
            key,
            at,
        ),
    decreases nodes.len() - at,
{
    let pushed = nodes.push(node);
    if at < nodes.len() {
        assert(pushed[at] == nodes[at]);
        if !(nodes[at].collection == collection && nodes[at].key@ == key) {
            lemma_node_index_push_other(nodes, node, collection, key, at + 1);
        }
    } else {
        assert(pushed[at] == node);
        assert(spec_node_index(pushed, collection, key, at + 1) is None);
    }
}

/// An edge upsert loses no stored edge: membership only grows.
pub proof fn lemma_upsert_edge_grows(edges: Seq<StoreEdge>, edge: StoreEdge)
    ensures
        forall|e: StoreEdge| #[trigger]
            edges.contains(e) ==> spec_upsert_edge(edges, edge).contains(e),
{
    if !edges.contains(edge) {
        assert forall|e: StoreEdge| #[trigger] edges.contains(e) implies edges.push(
            edge,
        ).contains(e) by {
            let i = choose|i: int| 0 <= i < edges.len() && edges[i] == e;
            assert(edges.push(edge)[i] == e);
        }
    }
}

/// Once a node's key is stored, a later index scan finds it: the index
/// after an upsert is never `None`.
pub proof fn lemma_node_index_after_push(
    nodes: Seq<StoreNode>,
    node: StoreNode,
    i: int,
)
    requires
        0 <= i <= nodes.len(),
        spec_node_index(nodes, node.collection, node.key@, i) is None,
    ensures
        spec_node_index(nodes.push(node), node.collection, node.key@, i) == Some(
            nodes.len() as int,
        ),
    decreases nodes.len() - i,
{
    let pushed = nodes.push(node);
    if i == nodes.len() {
        assert(pushed[i].collection == node.collection && pushed[i].key@ == node.key@);
    } else {
        assert(pushed[i] == nodes[i]);
        lemma_node_index_after_push(nodes, node, i + 1);
    }
}

/// Idempotent artifact upsert: submitting the same node twice leaves
/// the store exactly as one submission does.
pub proof fn lemma_upsert_node_idempotent(nodes: Seq<StoreNode>, node: StoreNode)
    ensures
        spec_upsert_node(spec_upsert_node(nodes, node), node) == spec_upsert_node(nodes, node),
{
    match spec_node_index(nodes, node.collection, node.key@, 0) {
        Some(_) => {},
        None => {
            lemma_node_index_after_push(nodes, node, 0);
        },
    }
}

/// Idempotent edge upsert: linking the same endpoints twice leaves the
/// store exactly as one link does.
pub proof fn lemma_upsert_edge_idempotent(edges: Seq<StoreEdge>, edge: StoreEdge)
    ensures
        spec_upsert_edge(spec_upsert_edge(edges, edge), edge) == spec_upsert_edge(edges, edge),
{
    if !edges.contains(edge) {
        assert(edges.push(edge)[edges.len() as int] == edge);
        assert(edges.push(edge).contains(edge));
    }
}

} // verus!
