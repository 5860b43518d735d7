//! The storage engine: CRUD over nodes and edges with adjacency
//! maintenance, atop three ordered key-value families — one for node
//! records, one for edge records, one for the label and adjacency
//! indexes. Records are stored under the key codec's keys, serialized in
//! the binary record format; the engine's invariant ties every stored
//! byte string back to the record it spells and keeps the adjacency
//! indexes exhaustive.

use vstd::prelude::*;
use crate::kv::KvFamily;
use crate::keys::{
    colon_free, node_key_chars, edge_key_chars, node_label_key_chars, edge_label_key_chars,
    out_edge_key_chars, in_edge_key_chars, node_key_string, edge_key_string,
    node_label_key_string, edge_label_key_string, out_edge_key_string, in_edge_key_string,
    lemma_tagged_prefix, lemma_tagged_suffix, lemma_pair_key_injective,
    lemma_suffix_key_injective, lemma_tag_id_injective, str_skip,
};
use crate::binfmt::{
    deser_node_at, deser_edge_at, ser_node_v, ser_edge_v, node_fits, edge_fits, string_fits,
    props_fit, serialize_node, serialize_edge, deserialize_node, deserialize_edge,
    lemma_node_round_trip, lemma_edge_round_trip,
};
use crate::value::{Value, Node, Edge, NodeV, EdgeV, props_view, props_model, props_keys_unique, build_props, str_eq};
use crate::types::GraphError;

verus! {

/// A stored node-family entry: the key spells the record's id, and the
/// bytes spell exactly one node record whose id matches.
pub open spec fn node_entry_ok(k: Seq<char>, bytes: Seq<u8>) -> bool {
    match deser_node_at(bytes, 0) {
        Some((n, p)) => p == bytes.len() && k == node_key_chars(n.id) && colon_free(n.id),
        None => false,
    }
}

/// A stored edge-family entry: the bytes spell exactly one edge record
/// whose id matches the key; ids of the record and both endpoints hold
/// no colon, which keeps the adjacency keys unambiguous.
pub open spec fn edge_entry_ok(k: Seq<char>, bytes: Seq<u8>) -> bool {
    match deser_edge_at(bytes, 0) {
        Some((e, p)) => p == bytes.len() && k == edge_key_chars(e.id) && colon_free(e.id)
            && colon_free(e.from_node) && colon_free(e.to_node),
        None => false,
    }
}

/// The node record a stored byte string spells.
pub open spec fn node_of_bytes(bytes: Seq<u8>) -> NodeV {
    deser_node_at(bytes, 0).unwrap().0
}

/// The edge record a stored byte string spells.
pub open spec fn edge_of_bytes(bytes: Seq<u8>) -> EdgeV {
    deser_edge_at(bytes, 0).unwrap().0
}

/// The storage engine over three key-value families.
pub struct HelixGraphStorage {
    nodes: KvFamily,
    edges: KvFamily,
    indices: KvFamily,
}

impl HelixGraphStorage {
    /// The live node records, by id.
    pub closed spec fn nodes_model(self) -> Map<Seq<char>, NodeV> {
        Map::new(
            |id: Seq<char>| self.nodes.model().contains_key(node_key_chars(id)),
            |id: Seq<char>| node_of_bytes(self.nodes.model()[node_key_chars(id)]),
        )
    }

    /// The live edge records, by id.
    pub closed spec fn edges_model(self) -> Map<Seq<char>, EdgeV> {
        Map::new(
            |id: Seq<char>| self.edges.model().contains_key(edge_key_chars(id)),
            |id: Seq<char>| edge_of_bytes(self.edges.model()[edge_key_chars(id)]),
        )
    }

    /// The engine's invariant: families well formed; every record entry
    /// decodes to the record its key names; every adjacency index entry
    /// names a live edge and the right endpoint, and every live edge has
    /// both adjacency entries and its label entry; every live node has
    /// its label entry.
    pub closed spec fn wf(self) -> bool {
        &&& self.nodes.wf()
        &&& self.edges.wf()
        &&& self.indices.wf()
        &&& forall|k: Seq<char>| #[trigger] self.nodes.model().contains_key(k)
            ==> node_entry_ok(k, self.nodes.model()[k])
        &&& forall|k: Seq<char>| #[trigger] self.edges.model().contains_key(k)
            ==> edge_entry_ok(k, self.edges.model()[k])
        &&& forall|k: Seq<char>| #[trigger] self.indices.model().contains_key(k)
            && k.len() >= 2 && k[0] == 'o' && k[1] == ':'
            ==> exists|id: Seq<char>| self.edges_model().contains_key(id)
                && k == out_edge_key_chars((#[trigger] self.edges_model()[id]).from_node, id)
        &&& forall|k: Seq<char>| #[trigger] self.indices.model().contains_key(k)
            && k.len() >= 2 && k[0] == 'i' && k[1] == ':'
            ==> exists|id: Seq<char>| self.edges_model().contains_key(id)
                && k == in_edge_key_chars((#[trigger] self.edges_model()[id]).to_node, id)
        &&& forall|id: Seq<char>| #[trigger] self.edges_model().contains_key(id) ==> {
            &&& self.indices.model().contains_key(
                out_edge_key_chars(self.edges_model()[id].from_node, id))
            &&& self.indices.model().contains_key(
                in_edge_key_chars(self.edges_model()[id].to_node, id))
            &&& self.indices.model().contains_key(
                edge_label_key_chars(self.edges_model()[id].label, id))
        }
        &&& forall|id: Seq<char>| #[trigger] self.nodes_model().contains_key(id)
            ==> self.indices.model().contains_key(
                node_label_key_chars(self.nodes_model()[id].label, id))
    }

    /// An empty store.
    pub fn new() -> (r: HelixGraphStorage)
        ensures
            r.wf(),
            r.nodes_model() == Map::<Seq<char>, NodeV>::empty(),
            r.edges_model() == Map::<Seq<char>, EdgeV>::empty(),
    {
        let r = HelixGraphStorage {
            nodes: KvFamily::new(),
            edges: KvFamily::new(),
            indices: KvFamily::new(),
        };
        proof {
            assert(r.nodes_model() =~= Map::<Seq<char>, NodeV>::empty());
            assert(r.edges_model() =~= Map::<Seq<char>, EdgeV>::empty());
        }
        r
    }

    /// Creates a node key using the prefix and given id.
    pub fn node_key(id: &str) -> (r: Vec<u8>)
        ensures
            r@ == vstd::utf8::encode_utf8(node_key_chars(id@)),
    {
        node_key_string(id).as_str().as_bytes_vec()
    }

    /// Creates an edge key using the prefix and given id.
    pub fn edge_key(id: &str) -> (r: Vec<u8>)
        ensures
            r@ == vstd::utf8::encode_utf8(edge_key_chars(id@)),
    {
        edge_key_string(id).as_str().as_bytes_vec()
    }

    /// Creates a node label key using the prefix, the given label, and id.
    pub fn node_label_key(label: &str, id: &str) -> (r: Vec<u8>)
        ensures
            r@ == vstd::utf8::encode_utf8(node_label_key_chars(label@, id@)),
    {
        node_label_key_string(label, id).as_str().as_bytes_vec()
    }

    /// Creates an edge label key using the prefix, the given label, and id.
    pub fn edge_label_key(label: &str, id: &str) -> (r: Vec<u8>)
        ensures
            r@ == vstd::utf8::encode_utf8(edge_label_key_chars(label@, id@)),
    {
        edge_label_key_string(label, id).as_str().as_bytes_vec()
    }

    /// Creates a key for an outgoing edge: prefix, source node id, edge id.
    pub fn out_edge_key(source_node_id: &str, edge_id: &str) -> (r: Vec<u8>)
        ensures
            r@ == vstd::utf8::encode_utf8(out_edge_key_chars(source_node_id@, edge_id@)),
    {
        out_edge_key_string(source_node_id, edge_id).as_str().as_bytes_vec()
    }

    /// Creates a key for an incoming edge: prefix, sink node id, edge id.
    pub fn in_edge_key(sink_node_id: &str, edge_id: &str) -> (r: Vec<u8>)
        ensures
            r@ == vstd::utf8::encode_utf8(in_edge_key_chars(sink_node_id@, edge_id@)),
    {
        in_edge_key_string(sink_node_id, edge_id).as_str().as_bytes_vec()
    }

    /// Whether a node with the given id exists: a single-point lookup
    /// against the node family.
    pub fn check_exists(&self, id: &str) -> (r: Result<bool, GraphError>)
        requires
            self.wf(),
        ensures
            match r {
                Ok(b) => b == self.nodes_model().contains_key(id@),
                Err(_) => false,
            },
    {
        let key = node_key_string(id);
        Ok(self.nodes.contains(key.as_str()))
    }

    /// Reads a node record as an owned copy; `NotFound` when absent.
    pub fn get_node(&self, id: &str) -> (r: Result<Node, GraphError>)
        requires
            self.wf(),
        ensures
            match r {
                Ok(n) => self.nodes_model().contains_key(id@)
                    && n@ == self.nodes_model()[id@],
                Err(e) => !self.nodes_model().contains_key(id@) && e is New,
            },
    {
        let key = node_key_string(id);
        match self.nodes.get(key.as_str()) {
            Some(bytes) => {
                match deserialize_node(bytes) {
                    Some(n) => {
                        proof {
                            assert(node_entry_ok(key@, bytes@));
                        }
                        Ok(n)
                    },
                    None => {
                        proof {
                            assert(node_entry_ok(key@, bytes@));
                            assert(false);
                        }
                        Err(GraphError::New("Item not found!".to_owned()))
                    },
                }
            },
            None => Err(GraphError::New("Item not found!".to_owned())),
        }
    }

    /// Reads an edge record as an owned copy; `NotFound` when absent.
    pub fn get_edge(&self, id: &str) -> (r: Result<Edge, GraphError>)
        requires
            self.wf(),
        ensures
            match r {
                Ok(e) => self.edges_model().contains_key(id@)
                    && e@ == self.edges_model()[id@],
                Err(e) => !self.edges_model().contains_key(id@) && e is New,
            },
    {
        let key = edge_key_string(id);
        match self.edges.get(key.as_str()) {
            Some(bytes) => {
                match deserialize_edge(bytes) {
                    Some(e) => {
                        proof {
                            assert(edge_entry_ok(key@, bytes@));
                        }
                        Ok(e)
                    },
                    None => {
                        proof {
                            assert(edge_entry_ok(key@, bytes@));
                            assert(false);
                        }
                        Err(GraphError::New("Item not found!".to_owned()))
                    },
                }
            },
            None => Err(GraphError::New("Item not found!".to_owned())),
        }
    }

    /// Reads a node for short-lived use; this engine hands out the same
    /// owned copy as `get_node`.
    pub fn get_temp_node(&self, id: &str) -> (r: Result<Node, GraphError>)
        requires
            self.wf(),
        ensures
            match r {
                Ok(n) => self.nodes_model().contains_key(id@)
                    && n@ == self.nodes_model()[id@],
                Err(e) => !self.nodes_model().contains_key(id@) && e is New,
            },
    {
        self.get_node(id)
    }

    /// Reads an edge for short-lived use; this engine hands out the same
    /// owned copy as `get_edge`.
    pub fn get_temp_edge(&self, id: &str) -> (r: Result<Edge, GraphError>)
        requires
            self.wf(),
        ensures
            match r {
                Ok(e) => self.edges_model().contains_key(id@)
                    && e@ == self.edges_model()[id@],
                Err(e) => !self.edges_model().contains_key(id@) && e is New,
            },
    {
        self.get_edge(id)
    }
}

/// Relies on uuid's `Uuid::new_v4` and its hyphenated `to_string`: the
/// result is 36 ASCII characters, hexadecimal digits and hyphens, so it
/// holds no colon.
#[verifier::external_body]
fn new_v4_string() -> (r: String)
    ensures
        r@.len() == 36,
        colon_free(r@),
{
    uuid::Uuid::new_v4().to_string()
}

/// A property list whose pairs all come from a fitting list fits too.
proof fn lemma_built_props_fit(built: Seq<(String, Value)>, original: Seq<(String, Value)>)
    requires
        built.len() <= original.len(),
        props_fit(props_view(original)),
        forall|i: int| 0 <= i < built.len()
            ==> exists|j: int| 0 <= j < original.len() && #[trigger] built[i] == original[j],
    ensures
        props_fit(props_view(built)),
{
    assert forall|i: int| 0 <= i < props_view(built).len()
        implies string_fits((#[trigger] props_view(built)[i]).0)
            && crate::binfmt::value_fits(props_view(built)[i].1) by {
        let j = choose|j: int| 0 <= j < original.len() && built[i] == original[j];
        assert(props_view(original)[j] == (original[j].0@, crate::value::value_view(original[j].1)));
        assert(string_fits(props_view(original)[j].0)
            && crate::binfmt::value_fits(props_view(original)[j].1));
        assert(props_view(built)[i] == props_view(original)[j]);
    }
}

impl HelixGraphStorage {
    /// Creates a node: a fresh id, then the record and its label index
    /// entry, written together. Duplicate property keys collapse: the
    /// last entry under a key decides.
    pub fn create_node(&mut self, label: &str, properties: Vec<(String, Value)>)
        -> (r: Result<Node, GraphError>)
        requires
            old(self).wf(),
            string_fits(label@),
            props_fit(props_view(properties@)),
        ensures
            final(self).wf(),
            match r {
                Ok(n) => {
                    &&& !old(self).nodes_model().contains_key(n@.id)
                    &&& !old(self).edges_model().contains_key(n@.id)
                    &&& n@.id.len() == 36
                    &&& n@.label == label@
                    &&& colon_free(n@.id)
                    &&& props_keys_unique(n.properties@)
                    &&& props_model(n.properties@) == props_model(properties@)
                    &&& final(self).nodes_model()
                        == old(self).nodes_model().insert(n@.id, n@)
                    &&& final(self).edges_model() == old(self).edges_model()
                },
                Err(err) => {
                    &&& final(self).nodes_model() == old(self).nodes_model()
                    &&& final(self).edges_model() == old(self).edges_model()
                    &&& err is New
                    &&& ((exists|id2: Seq<char>| old(self).nodes_model().contains_key(id2))
                        || (exists|id2: Seq<char>| old(self).edges_model().contains_key(id2)))
                },
            },
    {
        let ghost original = properties@;
        let id = new_v4_string();
        if self.nodes.contains(node_key_string(id.as_str()).as_str()) {
            proof {
                assert(self.nodes_model().contains_key(id@));
            }
            return Err(GraphError::New("The drawn id is already in use".to_owned()));
        }
        if self.edges.contains(edge_key_string(id.as_str()).as_str()) {
            proof {
                assert(self.edges_model().contains_key(id@));
            }
            return Err(GraphError::New("The drawn id is already in use".to_owned()));
        }
        let props = build_props(properties);
        let node = Node { id: id.clone(), label: label.to_owned(), properties: props };
        proof {
            lemma_built_props_fit(node.properties@, original);
            assert(node_fits(node@));
        }
        let bytes = serialize_node(&node);
        let key = node_key_string(id.as_str());
        let ghost pre = *self;
        proof {
            lemma_node_round_trip(node@);
        }
        self.nodes.put(key, bytes);
        self.indices.put(node_label_key_string(label, id.as_str()), Vec::new());
        proof {
            let k = node_key_chars(id@);
            assert(self.nodes.model() == pre.nodes.model().insert(k, ser_node_v(node@)));
            assert(node_entry_ok(k, ser_node_v(node@)));
            assert(self.edges_model() =~= pre.edges_model());
            assert forall|id2: Seq<char>| true implies
                (node_key_chars(id2) == k <==> id2 == id@) by {
                lemma_tag_id_injective("n:"@, id2, id@);
            }
            assert(self.nodes_model() =~= pre.nodes_model().insert(id@, node@));
            reveal_strlit("nl:");
            assert(node_label_key_chars(label@, id@)[0] == 'n');
            assert forall|k2: Seq<char>| #[trigger] self.nodes.model().contains_key(k2)
                implies node_entry_ok(k2, self.nodes.model()[k2]) by {
                if k2 != k {
                    assert(pre.nodes.model().contains_key(k2));
                }
            }
            assert forall|k2: Seq<char>| #[trigger] self.indices.model().contains_key(k2)
                && k2.len() >= 2 && k2[0] == 'o' && k2[1] == ':'
                implies exists|eid: Seq<char>| self.edges_model().contains_key(eid)
                    && k2 == out_edge_key_chars(
                        (#[trigger] self.edges_model()[eid]).from_node, eid) by {
                assert(k2 != node_label_key_chars(label@, id@));
                assert(pre.indices.model().contains_key(k2));
                let eid = choose|eid: Seq<char>| pre.edges_model().contains_key(eid)
                    && k2 == out_edge_key_chars(
                        (#[trigger] pre.edges_model()[eid]).from_node, eid);
                assert(self.edges_model().contains_key(eid)
                    && self.edges_model()[eid] == pre.edges_model()[eid]);
            }
            assert forall|k2: Seq<char>| #[trigger] self.indices.model().contains_key(k2)
                && k2.len() >= 2 && k2[0] == 'i' && k2[1] == ':'
                implies exists|eid: Seq<char>| self.edges_model().contains_key(eid)
                    && k2 == in_edge_key_chars(
                        (#[trigger] self.edges_model()[eid]).to_node, eid) by {
                assert(k2 != node_label_key_chars(label@, id@));
                assert(pre.indices.model().contains_key(k2));
                let eid = choose|eid: Seq<char>| pre.edges_model().contains_key(eid)
                    && k2 == in_edge_key_chars(
                        (#[trigger] pre.edges_model()[eid]).to_node, eid);
                assert(self.edges_model().contains_key(eid)
                    && self.edges_model()[eid] == pre.edges_model()[eid]);
            }
            assert forall|eid: Seq<char>| #[trigger] self.edges_model().contains_key(eid)
                implies {
                    &&& self.indices.model().contains_key(
                        out_edge_key_chars(self.edges_model()[eid].from_node, eid))
                    &&& self.indices.model().contains_key(
                        in_edge_key_chars(self.edges_model()[eid].to_node, eid))
                    &&& self.indices.model().contains_key(
                        edge_label_key_chars(self.edges_model()[eid].label, eid))
                } by {
                assert(pre.edges_model().contains_key(eid));
                assert(self.edges_model()[eid] == pre.edges_model()[eid]);
            }
            assert forall|id2: Seq<char>| #[trigger] self.nodes_model().contains_key(id2)
                implies self.indices.model().contains_key(
                    node_label_key_chars(self.nodes_model()[id2].label, id2)) by {
                if id2 != id@ {
                    assert(pre.nodes_model().contains_key(id2));
                    assert(self.nodes_model()[id2] == pre.nodes_model()[id2]);
                }
            }
        }
        Ok(node)
    }

    /// Creates an edge between two existing nodes: the record, its label
    /// index entry, and both adjacency entries, written together. Fails
    /// with `Invalid` when either endpoint is missing, and when the drawn
    /// id is already taken.
    pub fn create_edge(
        &mut self,
        label: &str,
        from_node: &str,
        to_node: &str,
        properties: Vec<(String, Value)>,
    ) -> (r: Result<Edge, GraphError>)
        requires
            old(self).wf(),
            string_fits(label@),
            string_fits(from_node@),
            string_fits(to_node@),
            props_fit(props_view(properties@)),
        ensures
            final(self).wf(),
            match r {
                Ok(e) => {
                    &&& old(self).nodes_model().contains_key(from_node@)
                    &&& old(self).nodes_model().contains_key(to_node@)
                    &&& !old(self).edges_model().contains_key(e@.id)
                    &&& !old(self).nodes_model().contains_key(e@.id)
                    &&& e@.id.len() == 36
                    &&& colon_free(e@.id)
                    &&& e@.label == label@
                    &&& e@.from_node == from_node@
                    &&& e@.to_node == to_node@
                    &&& props_keys_unique(e.properties@)
                    &&& props_model(e.properties@) == props_model(properties@)
                    &&& final(self).edges_model()
                        == old(self).edges_model().insert(e@.id, e@)
                    &&& final(self).nodes_model() == old(self).nodes_model()
                },
                Err(err) => {
                    &&& final(self).nodes_model() == old(self).nodes_model()
                    &&& final(self).edges_model() == old(self).edges_model()
                    &&& err is New
                    &&& (!old(self).nodes_model().contains_key(from_node@)
                        || !old(self).nodes_model().contains_key(to_node@)
                        || (exists|id2: Seq<char>| old(self).edges_model().contains_key(id2))
                        || (exists|id2: Seq<char>| old(self).nodes_model().contains_key(id2)))
                },
            },
            !(old(self).nodes_model().contains_key(from_node@)
                && old(self).nodes_model().contains_key(to_node@)) ==> r is Err,
    {
        let from_ok = self.nodes.contains(node_key_string(from_node).as_str());
        let to_ok = self.nodes.contains(node_key_string(to_node).as_str());
        if !from_ok || !to_ok {
            return Err(GraphError::New("One or both nodes do not exist".to_owned()));
        }
        let ghost original = properties@;
        let id = new_v4_string();
        if self.edges.contains(edge_key_string(id.as_str()).as_str()) {
            proof {
                assert(self.edges_model().contains_key(id@));
            }
            return Err(GraphError::New("The drawn id is already in use".to_owned()));
        }
        if self.nodes.contains(node_key_string(id.as_str()).as_str()) {
            proof {
                assert(self.nodes_model().contains_key(id@));
            }
            return Err(GraphError::New("The drawn id is already in use".to_owned()));
        }
        let props = build_props(properties);
        let edge = Edge {
            id: id.clone(),
            label: label.to_owned(),
            from_node: from_node.to_owned(),
            to_node: to_node.to_owned(),
            properties: props,
        };
        proof {
            lemma_built_props_fit(edge.properties@, original);
            assert(colon_free(from_node@) && colon_free(to_node@)) by {
                let kf = node_key_chars(from_node@);
                assert(old(self).nodes.model().contains_key(kf));
                assert(node_entry_ok(kf, old(self).nodes.model()[kf]));
                let nf = node_of_bytes(old(self).nodes.model()[kf]);
                lemma_tag_id_injective("n:"@, from_node@, nf.id);
                let kt = node_key_chars(to_node@);
                assert(node_entry_ok(kt, old(self).nodes.model()[kt]));
                let nt = node_of_bytes(old(self).nodes.model()[kt]);
                lemma_tag_id_injective("n:"@, to_node@, nt.id);
            }
            assert(edge_fits(edge@));
            lemma_edge_round_trip(edge@);
        }
        let bytes = serialize_edge(&edge);
        let ghost pre = *self;
        self.edges.put(edge_key_string(id.as_str()), bytes);
        self.indices.put(edge_label_key_string(label, id.as_str()), Vec::new());
        self.indices.put(out_edge_key_string(from_node, id.as_str()), Vec::new());
        self.indices.put(in_edge_key_string(to_node, id.as_str()), Vec::new());
        proof {
            let k = edge_key_chars(id@);
            let okey = out_edge_key_chars(from_node@, id@);
            let ikey = in_edge_key_chars(to_node@, id@);
            let lkey = edge_label_key_chars(label@, id@);
            assert(self.edges.model() == pre.edges.model().insert(k, ser_edge_v(edge@)));
            assert(edge_entry_ok(k, ser_edge_v(edge@)));
            assert forall|id2: Seq<char>| true implies
                (edge_key_chars(id2) == k <==> id2 == id@) by {
                lemma_tag_id_injective("e:"@, id2, id@);
            }
            assert(self.edges_model() =~= pre.edges_model().insert(id@, edge@));
            assert(self.nodes_model() =~= pre.nodes_model());
            assert(!pre.edges_model().contains_key(id@));
            reveal_strlit("o:");
            reveal_strlit("i:");
            reveal_strlit("el:");
            assert(okey[0] == 'o' && okey[1] == ':');
            assert(ikey[0] == 'i' && ikey[1] == ':');
            assert(lkey[0] == 'e' && lkey[1] == 'l');
            assert forall|k2: Seq<char>| #[trigger] self.edges.model().contains_key(k2)
                implies edge_entry_ok(k2, self.edges.model()[k2]) by {
                if k2 != k {
                    assert(pre.edges.model().contains_key(k2));
                }
            }
            assert forall|k2: Seq<char>| #[trigger] self.indices.model().contains_key(k2)
                && k2.len() >= 2 && k2[0] == 'o' && k2[1] == ':'
                implies exists|eid: Seq<char>| self.edges_model().contains_key(eid)
                    && k2 == out_edge_key_chars(
                        (#[trigger] self.edges_model()[eid]).from_node, eid) by {
                if k2 == okey {
                    assert(self.edges_model().contains_key(id@)
                        && k2 == out_edge_key_chars(self.edges_model()[id@].from_node, id@));
                } else {
                    assert(k2 != ikey && k2 != lkey);
                    assert(pre.indices.model().contains_key(k2));
                    let eid = choose|eid: Seq<char>| pre.edges_model().contains_key(eid)
                        && k2 == out_edge_key_chars(
                            (#[trigger] pre.edges_model()[eid]).from_node, eid);
                    assert(eid != id@);
                    assert(self.edges_model().contains_key(eid)
                        && self.edges_model()[eid] == pre.edges_model()[eid]);
                }
            }
            assert forall|k2: Seq<char>| #[trigger] self.indices.model().contains_key(k2)
                && k2.len() >= 2 && k2[0] == 'i' && k2[1] == ':'
                implies exists|eid: Seq<char>| self.edges_model().contains_key(eid)
                    && k2 == in_edge_key_chars(
                        (#[trigger] self.edges_model()[eid]).to_node, eid) by {
                if k2 == ikey {
                    assert(self.edges_model().contains_key(id@)
                        && k2 == in_edge_key_chars(self.edges_model()[id@].to_node, id@));
                } else {
                    assert(k2 != okey && k2 != lkey);
                    assert(pre.indices.model().contains_key(k2));
                    let eid = choose|eid: Seq<char>| pre.edges_model().contains_key(eid)
                        && k2 == in_edge_key_chars(
                            (#[trigger] pre.edges_model()[eid]).to_node, eid);
                    assert(eid != id@);
                    assert(self.edges_model().contains_key(eid)
                        && self.edges_model()[eid] == pre.edges_model()[eid]);
                }
            }
            assert forall|eid: Seq<char>| #[trigger] self.edges_model().contains_key(eid)
                implies {
                    &&& self.indices.model().contains_key(
                        out_edge_key_chars(self.edges_model()[eid].from_node, eid))
                    &&& self.indices.model().contains_key(
                        in_edge_key_chars(self.edges_model()[eid].to_node, eid))
                    &&& self.indices.model().contains_key(
                        edge_label_key_chars(self.edges_model()[eid].label, eid))
                } by {
                if eid != id@ {
                    assert(pre.edges_model().contains_key(eid));
                    assert(self.edges_model()[eid] == pre.edges_model()[eid]);
                }
            }
            assert forall|id2: Seq<char>| #[trigger] self.nodes_model().contains_key(id2)
                implies self.indices.model().contains_key(
                    node_label_key_chars(self.nodes_model()[id2].label, id2)) by {
                assert(pre.nodes_model().contains_key(id2));
                assert(self.nodes_model()[id2] == pre.nodes_model()[id2]);
            }
        }
        Ok(edge)
    }
}


impl HelixGraphStorage {
    /// Deletes an edge: the record, its label index entry, and both
    /// adjacency entries. Fails with `NotFound` when the edge is absent.
    pub fn drop_edge(&mut self, edge_id: &str) -> (r: Result<(), GraphError>)
        requires
            old(self).wf(),
        ensures
            final(self).wf(),
            match r {
                Ok(u) => {
                    &&& old(self).edges_model().contains_key(edge_id@)
                    &&& final(self).edges_model() == old(self).edges_model().remove(edge_id@)
                    &&& final(self).nodes_model() == old(self).nodes_model()
                },
                Err(err) => {
                    &&& !old(self).edges_model().contains_key(edge_id@)
                    &&& final(self).edges_model() == old(self).edges_model()
                    &&& final(self).nodes_model() == old(self).nodes_model()
                    &&& err is New
                },
            },
    {
        let key = edge_key_string(edge_id);
        let edge = match self.edges.get(key.as_str()) {
            Some(bytes) => {
                match deserialize_edge(bytes) {
                    Some(e) => {
                        proof {
                            assert(edge_entry_ok(key@, bytes@));
                        }
                        e
                    },
                    None => {
                        proof {
                            assert(edge_entry_ok(key@, bytes@));
                            assert(false);
                        }
                        return Err(GraphError::New("Item not found!".to_owned()));
                    },
                }
            },
            None => {
                proof {
                    assert(self.edges_model() =~= self.edges_model());
                }
                return Err(GraphError::New("Item not found!".to_owned()));
            },
        };
        proof {
            lemma_tag_id_injective("e:"@, edge@.id, edge_id@);
        }
        let ghost pre = *self;
        self.indices.delete(out_edge_key_string(edge.from_node.as_str(), edge_id).as_str());
        self.indices.delete(in_edge_key_string(edge.to_node.as_str(), edge_id).as_str());
        self.indices.delete(edge_label_key_string(edge.label.as_str(), edge_id).as_str());
        self.edges.delete(key.as_str());
        proof {
            let e = edge@;
            let k = edge_key_chars(edge_id@);
            let okey = out_edge_key_chars(e.from_node, edge_id@);
            let ikey = in_edge_key_chars(e.to_node, edge_id@);
            let lkey = edge_label_key_chars(e.label, edge_id@);
            reveal_strlit("o:");
            reveal_strlit("i:");
            reveal_strlit("el:");
            reveal_strlit("nl:");
            reveal_strlit("n:");
            reveal_strlit("e:");
            assert(okey[0] == 'o' && okey[1] == ':');
            assert(ikey[0] == 'i' && ikey[1] == ':');
            assert(lkey[0] == 'e' && lkey[1] == 'l');
            assert forall|id2: Seq<char>| true implies
                (edge_key_chars(id2) == k <==> id2 == edge_id@) by {
                lemma_tag_id_injective("e:"@, id2, edge_id@);
            }
            assert(self.edges_model() =~= pre.edges_model().remove(edge_id@));
            assert(self.nodes_model() =~= pre.nodes_model());
            assert(pre.edges_model()[edge_id@] == e);
            assert forall|k2: Seq<char>| #[trigger] self.indices.model().contains_key(k2)
                && k2.len() >= 2 && k2[0] == 'o' && k2[1] == ':'
                implies exists|eid: Seq<char>| self.edges_model().contains_key(eid)
                    && k2 == out_edge_key_chars(
                        (#[trigger] self.edges_model()[eid]).from_node, eid) by {
                assert(pre.indices.model().contains_key(k2));
                assert(k2 != okey && k2 != ikey && k2 != lkey);
                let eid = choose|eid: Seq<char>| pre.edges_model().contains_key(eid)
                    && k2 == out_edge_key_chars(
                        (#[trigger] pre.edges_model()[eid]).from_node, eid);
                assert(eid != edge_id@);
                assert(self.edges_model().contains_key(eid)
                    && self.edges_model()[eid] == pre.edges_model()[eid]);
            }
            assert forall|k2: Seq<char>| #[trigger] self.indices.model().contains_key(k2)
                && k2.len() >= 2 && k2[0] == 'i' && k2[1] == ':'
                implies exists|eid: Seq<char>| self.edges_model().contains_key(eid)
                    && k2 == in_edge_key_chars(
                        (#[trigger] self.edges_model()[eid]).to_node, eid) by {
                assert(pre.indices.model().contains_key(k2));
                assert(k2 != okey && k2 != ikey && k2 != lkey);
                let eid = choose|eid: Seq<char>| pre.edges_model().contains_key(eid)
                    && k2 == in_edge_key_chars(
                        (#[trigger] pre.edges_model()[eid]).to_node, eid);
                assert(eid != edge_id@);
                assert(self.edges_model().contains_key(eid)
                    && self.edges_model()[eid] == pre.edges_model()[eid]);
            }
            assert forall|eid: Seq<char>| #[trigger] self.edges_model().contains_key(eid)
                implies {
                    &&& self.indices.model().contains_key(
                        out_edge_key_chars(self.edges_model()[eid].from_node, eid))
                    &&& self.indices.model().contains_key(
                        in_edge_key_chars(self.edges_model()[eid].to_node, eid))
                    &&& self.indices.model().contains_key(
                        edge_label_key_chars(self.edges_model()[eid].label, eid))
                } by {
                assert(eid != edge_id@);
                assert(pre.edges_model().contains_key(eid));
                let e2 = pre.edges_model()[eid];
                assert(self.edges_model()[eid] == e2);
                assert(colon_free(e2.id) && colon_free(eid) && colon_free(e2.from_node)
                    && colon_free(e2.to_node)) by {
                    let k3 = edge_key_chars(eid);
                    assert(pre.edges.model().contains_key(k3));
                    assert(edge_entry_ok(k3, pre.edges.model()[k3]));
                    lemma_tag_id_injective("e:"@, edge_of_bytes(pre.edges.model()[k3]).id, eid);
                }
                assert(out_edge_key_chars(e2.from_node, eid) != okey) by {
                    if out_edge_key_chars(e2.from_node, eid) == okey {
                        lemma_pair_key_injective("o:"@, e2.from_node, eid, e.from_node, edge_id@);
                    }
                }
                assert(out_edge_key_chars(e2.from_node, eid) != ikey) by {
                    assert(out_edge_key_chars(e2.from_node, eid)[0] == 'o');
                }
                assert(out_edge_key_chars(e2.from_node, eid) != lkey) by {
                    assert(out_edge_key_chars(e2.from_node, eid)[0] == 'o');
                    assert(lkey[0] == 'e');
                }
                assert(in_edge_key_chars(e2.to_node, eid) != ikey) by {
                    if in_edge_key_chars(e2.to_node, eid) == ikey {
                        lemma_pair_key_injective("i:"@, e2.to_node, eid, e.to_node, edge_id@);
                    }
                }
                assert(in_edge_key_chars(e2.to_node, eid) != okey) by {
                    assert(in_edge_key_chars(e2.to_node, eid)[0] == 'i');
                }
                assert(in_edge_key_chars(e2.to_node, eid) != lkey) by {
                    assert(in_edge_key_chars(e2.to_node, eid)[0] == 'i');
                    assert(lkey[0] == 'e');
                }
                assert(edge_label_key_chars(e2.label, eid) != lkey) by {
                    if edge_label_key_chars(e2.label, eid) == lkey {
                        lemma_suffix_key_injective("el:"@, e2.label, eid, e.label, edge_id@);
                    }
                }
                assert(edge_label_key_chars(e2.label, eid) != okey) by {
                    assert(edge_label_key_chars(e2.label, eid)[0] == 'e');
                    assert(okey[0] == 'o');
                }
                assert(edge_label_key_chars(e2.label, eid) != ikey) by {
                    assert(edge_label_key_chars(e2.label, eid)[0] == 'e');
                    assert(ikey[0] == 'i');
                }
            }
            assert forall|id2: Seq<char>| #[trigger] self.nodes_model().contains_key(id2)
                implies self.indices.model().contains_key(
                    node_label_key_chars(self.nodes_model()[id2].label, id2)) by {
                assert(pre.nodes_model().contains_key(id2));
                assert(self.nodes_model()[id2] == pre.nodes_model()[id2]);
                let nlk = node_label_key_chars(pre.nodes_model()[id2].label, id2);
                assert(nlk[0] == 'n' && nlk[1] == 'l');
                assert(nlk != okey && nlk != ikey && nlk != lkey) by {
                    assert(okey[0] == 'o' && ikey[0] == 'i' && lkey[1] == 'l');
                    assert(nlk[1] == 'l' && lkey[0] == 'e' && nlk[0] == 'n');
                }
                assert(pre.indices.model().contains_key(nlk));
            }
        }
        Ok(())
    }
}



/// Keys that share a prefix and the remainder are the same key.
proof fn lemma_prefix_skip(p: Seq<char>, k1: Seq<char>, k2: Seq<char>)
    requires
        p.is_prefix_of(k1),
        p.is_prefix_of(k2),
        k1.skip(p.len() as int) == k2.skip(p.len() as int),
    ensures
        k1 == k2,
{
    assert(p.len() <= k1.len() && p.len() <= k2.len());
    assert(k1.skip(p.len() as int).len() == k1.len() - p.len());
    assert(k2.skip(p.len() as int).len() == k2.len() - p.len());
    assert(k1.len() == k2.len());
    assert forall|i: int| 0 <= i < k1.len() implies k1[i] == k2[i] by {
        if i < p.len() {
            assert(k1.subrange(0, p.len() as int)[i] == k1[i]);
            assert(k2.subrange(0, p.len() as int)[i] == k2[i]);
            assert(p[i] == k1[i] && p[i] == k2[i]);
        } else {
            assert(k1.skip(p.len() as int)[i - p.len()] == k1[i]);
            assert(k2.skip(p.len() as int)[i - p.len()] == k2[i]);
        }
    }
    assert(k1 =~= k2);
}

/// A live edge's record carries the id it is stored under, and the ids
/// involved hold no colon.
proof fn lemma_edge_id_facts(s: HelixGraphStorage, eid: Seq<char>)
    requires
        s.wf(),
        s.edges_model().contains_key(eid),
    ensures
        s.edges_model()[eid].id == eid,
        colon_free(eid),
        colon_free(s.edges_model()[eid].from_node),
        colon_free(s.edges_model()[eid].to_node),
{
    let k = edge_key_chars(eid);
    assert(s.edges.model().contains_key(k));
    assert(edge_entry_ok(k, s.edges.model()[k]));
    lemma_tag_id_injective("e:"@, edge_of_bytes(s.edges.model()[k]).id, eid);
}

/// A live node's record carries the id it is stored under, colon-free.
proof fn lemma_node_id_facts(s: HelixGraphStorage, id: Seq<char>)
    requires
        s.wf(),
        s.nodes_model().contains_key(id),
    ensures
        s.nodes_model()[id].id == id,
        colon_free(id),
{
    let k = node_key_chars(id);
    assert(s.nodes.model().contains_key(k));
    assert(node_entry_ok(k, s.nodes.model()[k]));
    lemma_tag_id_injective("n:"@, node_of_bytes(s.nodes.model()[k]).id, id);
}

/// The id an adjacency key under this prefix names: the part after the
/// prefix.
pub open spec fn key_suffix(k: Seq<char>, plen: int) -> Seq<char> {
    k.skip(plen)
}

/// The edge is live and leaves (or enters) the node under the label.
pub open spec fn adj_matches(s: HelixGraphStorage, eid: Seq<char>, node_id: Seq<char>, label: Seq<char>, outgoing: bool) -> bool {
    &&& s.edges_model().contains_key(eid)
    &&& adj_endpoint(s, eid, outgoing) == node_id
    &&& s.edges_model()[eid].label == label
}

/// The near endpoint of a live edge: its source for an outgoing walk,
/// its sink for an incoming one.
pub open spec fn adj_endpoint(s: HelixGraphStorage, eid: Seq<char>, outgoing: bool) -> Seq<char> {
    if outgoing {
        s.edges_model()[eid].from_node
    } else {
        s.edges_model()[eid].to_node
    }
}

/// Some position of the list holds a node with this id.
pub open spec fn list_has_node_id(list: Seq<Node>, id: Seq<char>) -> bool {
    exists|i: int| 0 <= i < list.len() && (#[trigger] list[i])@.id == id
}

/// Some position of the list holds an edge with this id.
pub open spec fn list_has_edge_id(list: Seq<Edge>, id: Seq<char>) -> bool {
    exists|i: int| 0 <= i < list.len() && (#[trigger] list[i])@.id == id
}

impl HelixGraphStorage {
    /// The edges leaving `node_id` under `edge_label`.
    pub open spec fn out_edge_set(self, node_id: Seq<char>, label: Seq<char>) -> Set<Seq<char>> {
        Set::new(|eid: Seq<char>| adj_matches(self, eid, node_id, label, true))
    }

    /// The edges entering `node_id` under `edge_label`.
    pub open spec fn in_edge_set(self, node_id: Seq<char>, label: Seq<char>) -> Set<Seq<char>> {
        Set::new(|eid: Seq<char>| adj_matches(self, eid, node_id, label, false))
    }

    /// Collects the ids named by one adjacency prefix: exactly the live
    /// edges whose near endpoint is the node, each once.
    #[verifier::rlimit(100)]
    fn adjacency_ids(&self, node_id: &str, outgoing: bool) -> (r: Vec<String>)
        requires
            self.wf(),
        ensures
            forall|m: int| 0 <= m < r@.len()
                ==> self.edges_model().contains_key((#[trigger] r@[m])@)
                    && adj_endpoint(*self, r@[m]@, outgoing) == node_id@,
            forall|eid: Seq<char>| #[trigger] self.edges_model().contains_key(eid)
                && adj_endpoint(*self, eid, outgoing) == node_id@
                ==> exists|m: int| 0 <= m < r@.len() && (#[trigger] r@[m])@ == eid,
            forall|m1: int, m2: int| 0 <= m1 < m2 < r@.len() ==> r@[m1]@ != r@[m2]@,
    {
        let prefix = if outgoing {
            out_edge_key_string(node_id, "")
        } else {
            in_edge_key_string(node_id, "")
        };
        let ghost tag: Seq<char> = if outgoing { "o:"@ } else { "i:"@ };
        proof {
            reveal_strlit("");
            assert(prefix@ =~= tag + node_id@ + ":"@);
        }
        let found = self.indices.scan_prefix(prefix.as_str());
        let plen = prefix.as_str().unicode_len();
        let mut ids: Vec<String> = Vec::new();
        let n = found.len();
        let mut i: usize = 0;
        while i < n
            invariant
                self.wf(),
                prefix@ == tag + node_id@ + ":"@,
                tag == (if outgoing { "o:"@ } else { "i:"@ }),
                plen == prefix@.len(),
                n == found@.len(),
                i <= n,
                ids@.len() == i,
                forall|j: int| 0 <= j < found@.len() ==> {
                    &&& prefix@.is_prefix_of((#[trigger] found@[j]).0@)
                    &&& self.indices.model().contains_key(found@[j].0@)
                },
                forall|j: int| 0 <= j < i ==> {
                    &&& (#[trigger] ids@[j])@ == key_suffix(found@[j].0@, plen as int)
                    &&& self.edges_model().contains_key(ids@[j]@)
                    &&& adj_endpoint(*self, ids@[j]@, outgoing) == node_id@
                },
            decreases n - i,
        {
            let k = &found[i].0;
            let ghost kc = k@;
            proof {
                reveal_strlit("o:");
                reveal_strlit("i:");
                assert(kc.len() >= 2 && kc[0] == tag[0] && kc[1] == tag[1]) by {
                    assert(prefix@[0] == tag[0] && prefix@[1] == tag[1]);
                    assert(kc[0] == prefix@[0] && kc[1] == prefix@[1]);
                }
                let eid = if outgoing {
                    choose|eid: Seq<char>| self.edges_model().contains_key(eid)
                        && kc == out_edge_key_chars(
                            (#[trigger] self.edges_model()[eid]).from_node, eid)
                } else {
                    choose|eid: Seq<char>| self.edges_model().contains_key(eid)
                        && kc == in_edge_key_chars(
                            (#[trigger] self.edges_model()[eid]).to_node, eid)
                };
                lemma_edge_id_facts(*self, eid);
                lemma_tagged_prefix(tag, node_id@, adj_endpoint(*self, eid, outgoing), eid);
                lemma_tagged_suffix(tag, adj_endpoint(*self, eid, outgoing), eid);
                assert(key_suffix(kc, plen as int) == eid);
            }
            let suffix = str_skip(k.as_str(), plen);
            ids.push(suffix);
            i = i + 1;
        }
        proof {
            reveal_strlit("o:");
            reveal_strlit("i:");
            assert forall|m1: int, m2: int| 0 <= m1 < m2 < ids@.len()
                implies ids@[m1]@ != ids@[m2]@ by {
                if ids@[m1]@ == ids@[m2]@ {
                    lemma_prefix_skip(prefix@, found@[m1].0@, found@[m2].0@);
                }
            }
            assert forall|eid: Seq<char>| #[trigger] self.edges_model().contains_key(eid)
                && adj_endpoint(*self, eid, outgoing) == node_id@
                implies exists|m: int| 0 <= m < ids@.len() && (#[trigger] ids@[m])@ == eid by {
                lemma_edge_id_facts(*self, eid);
                let akey = if outgoing {
                    out_edge_key_chars(node_id@, eid)
                } else {
                    in_edge_key_chars(node_id@, eid)
                };
                assert(self.indices.model().contains_key(akey));
                lemma_tagged_prefix(tag, node_id@, node_id@, eid);
                assert(prefix@.is_prefix_of(akey));
                let j = choose|j: int| 0 <= j < found@.len()
                    && (#[trigger] found@[j]).0@ == akey;
                lemma_tagged_suffix(tag, node_id@, eid);
                assert(ids@[j]@ == eid);
            }
        }
        ids
    }

    /// Fetches the records of the given live edges and keeps the label
    /// matches, each once.
    #[verifier::rlimit(100)]
    fn filter_edges_by_label(&self, ids: &Vec<String>, edge_label: &str, node_id: Ghost<Seq<char>>, outgoing: Ghost<bool>)
        -> (r: Vec<Edge>)
        requires
            self.wf(),
            forall|m: int| 0 <= m < ids@.len()
                ==> self.edges_model().contains_key((#[trigger] ids@[m])@)
                    && adj_endpoint(*self, ids@[m]@, outgoing@) == node_id@,
            forall|m1: int, m2: int| 0 <= m1 < m2 < ids@.len() ==> ids@[m1]@ != ids@[m2]@,
        ensures
            forall|i: int| 0 <= i < r@.len() ==> {
                &&& adj_matches(*self, (#[trigger] r@[i])@.id, node_id@, edge_label@, outgoing@)
                &&& self.edges_model()[r@[i]@.id] == r@[i]@
            },
            forall|m: int| 0 <= m < ids@.len()
                && self.edges_model()[(#[trigger] ids@[m])@].label == edge_label@
                ==> exists|i: int| 0 <= i < r@.len() && (#[trigger] r@[i])@.id == ids@[m]@,
            forall|i: int, j: int| 0 <= i < j < r@.len() ==> r@[i]@.id != r@[j]@.id,
    {
        let mut out: Vec<Edge> = Vec::new();
        let n = ids.len();
        let mut i: usize = 0;
        while i < n
            invariant
                self.wf(),
                n == ids@.len(),
                i <= n,
                forall|m: int| 0 <= m < ids@.len()
                    ==> self.edges_model().contains_key((#[trigger] ids@[m])@)
                        && adj_endpoint(*self, ids@[m]@, outgoing@) == node_id@,
                forall|m1: int, m2: int| 0 <= m1 < m2 < ids@.len() ==> ids@[m1]@ != ids@[m2]@,
                forall|m: int| 0 <= m < out@.len() ==> {
                    &&& adj_matches(*self, (#[trigger] out@[m])@.id, node_id@, edge_label@, outgoing@)
                    &&& self.edges_model()[out@[m]@.id] == out@[m]@
                },
                forall|j: int| 0 <= j < i
                    && self.edges_model()[(#[trigger] ids@[j])@].label == edge_label@
                    ==> exists|m: int| 0 <= m < out@.len()
                        && (#[trigger] out@[m])@.id == ids@[j]@,
                forall|m: int| 0 <= m < out@.len() ==> exists|j: int| 0 <= j < i
                    && (#[trigger] out@[m])@.id == ids@[j]@,
                forall|m1: int, m2: int| 0 <= m1 < m2 < out@.len()
                    ==> out@[m1]@.id != out@[m2]@.id,
            decreases n - i,
        {
            let edge = match self.get_edge(ids[i].as_str()) {
                Ok(edge) => edge,
                Err(_) => {
                    proof {
                        assert(false);
                    }
                    return out;
                },
            };
            let keep = str_eq(edge.label.as_str(), edge_label);
            let ghost out_pre = out@;
            if keep {
                proof {
                    lemma_edge_id_facts(*self, ids@[i as int]@);
                    assert(edge@.id == ids@[i as int]@);
                    assert forall|m: int| 0 <= m < out_pre.len()
                        implies out_pre[m]@.id != ids@[i as int]@ by {
                        let j = choose|j: int| 0 <= j < i
                            && (#[trigger] out_pre[m])@.id == ids@[j]@;
                        assert(ids@[j]@ != ids@[i as int]@);
                    }
                }
                out.push(edge);
            }
            proof {
                assert forall|j: int| 0 <= j < i + 1
                    && self.edges_model()[(#[trigger] ids@[j])@].label == edge_label@
                    implies exists|m: int| 0 <= m < out@.len()
                        && (#[trigger] out@[m])@.id == ids@[j]@ by {
                    if j < i as int {
                        let m = choose|m: int| 0 <= m < out_pre.len()
                            && (#[trigger] out_pre[m])@.id == ids@[j]@;
                        assert(out@[m] == out_pre[m]);
                    } else {
                        lemma_edge_id_facts(*self, ids@[i as int]@);
                        assert(out@[out@.len() - 1]@.id == ids@[i as int]@);
                    }
                }
            }
            i = i + 1;
        }
        out
    }

    /// The outgoing edges of a node under a label: prefix-iterates the
    /// adjacency family, fetches each edge record, and keeps the label
    /// matches — exactly the edges of `out_edge_set`, each once, in no
    /// promised order.
    pub fn get_out_edges(&self, node_id: &str, edge_label: &str)
        -> (r: Result<Vec<Edge>, GraphError>)
        requires
            self.wf(),
        ensures
            match r {
                Ok(list) => {
                    &&& forall|i: int| 0 <= i < list@.len() ==> {
                        &&& self.out_edge_set(node_id@, edge_label@)
                            .contains((#[trigger] list@[i])@.id)
                        &&& self.edges_model()[list@[i]@.id] == list@[i]@
                    }
                    &&& forall|eid: Seq<char>|
                        #[trigger] self.out_edge_set(node_id@, edge_label@).contains(eid)
                            ==> exists|i: int| 0 <= i < list@.len()
                                && (#[trigger] list@[i])@.id == eid
                    &&& forall|i: int, j: int| 0 <= i < j < list@.len()
                        ==> list@[i]@.id != list@[j]@.id
                },
                Err(_) => false,
            },
    {
        let ids = self.adjacency_ids(node_id, true);
        let list = self.filter_edges_by_label(&ids, edge_label, Ghost(node_id@), Ghost(true));
        proof {
            assert forall|eid: Seq<char>|
                #[trigger] self.out_edge_set(node_id@, edge_label@).contains(eid)
                implies exists|i: int| 0 <= i < list@.len()
                    && (#[trigger] list@[i])@.id == eid by {
                let m = choose|m: int| 0 <= m < ids@.len() && (#[trigger] ids@[m])@ == eid;
            }
        }
        Ok(list)
    }

    /// The incoming edges of a node under a label — exactly the edges of
    /// `in_edge_set`, each once, in no promised order.
    pub fn get_in_edges(&self, node_id: &str, edge_label: &str)
        -> (r: Result<Vec<Edge>, GraphError>)
        requires
            self.wf(),
        ensures
            match r {
                Ok(list) => {
                    &&& forall|i: int| 0 <= i < list@.len() ==> {
                        &&& self.in_edge_set(node_id@, edge_label@)
                            .contains((#[trigger] list@[i])@.id)
                        &&& self.edges_model()[list@[i]@.id] == list@[i]@
                    }
                    &&& forall|eid: Seq<char>|
                        #[trigger] self.in_edge_set(node_id@, edge_label@).contains(eid)
                            ==> exists|i: int| 0 <= i < list@.len()
                                && (#[trigger] list@[i])@.id == eid
                    &&& forall|i: int, j: int| 0 <= i < j < list@.len()
                        ==> list@[i]@.id != list@[j]@.id
                },
                Err(_) => false,
            },
    {
        let ids = self.adjacency_ids(node_id, false);
        let list = self.filter_edges_by_label(&ids, edge_label, Ghost(node_id@), Ghost(false));
        proof {
            assert forall|eid: Seq<char>|
                #[trigger] self.in_edge_set(node_id@, edge_label@).contains(eid)
                implies exists|i: int| 0 <= i < list@.len()
                    && (#[trigger] list@[i])@.id == eid by {
                let m = choose|m: int| 0 <= m < ids@.len() && (#[trigger] ids@[m])@ == eid;
            }
        }
        Ok(list)
    }
}


/// Some position of the id list holds this id.
pub open spec fn id_listed(ids: Seq<Seq<char>>, id: Seq<char>) -> bool {
    exists|m: int| 0 <= m < ids.len() && ids[m] == id
}

/// Some position of the ghost source list names this index.
spec fn src_listed(srcs: Seq<int>, j: int) -> bool {
    exists|m: int| 0 <= m < srcs.len() && srcs[m] == j
}

/// The node list resolves the adjacency walk exactly, witnessed by the
/// edge ids: position for position, the edge is a live match whose far
/// endpoint is live and equals the listed node; no edge is used twice;
/// and every live matching edge with a live far endpoint is used.
pub open spec fn resolved_out_nodes(s: HelixGraphStorage, node_id: Seq<char>, label: Seq<char>, list: Seq<Node>, eids: Seq<Seq<char>>) -> bool {
    &&& eids.len() == list.len()
    &&& forall|m: int| 0 <= m < list.len() ==> {
        &&& s.out_edge_set(node_id, label).contains(#[trigger] eids[m])
        &&& s.nodes_model().contains_key(s.edges_model()[eids[m]].to_node)
        &&& list[m]@ == s.nodes_model()[s.edges_model()[eids[m]].to_node]
    }
    &&& forall|m1: int, m2: int| 0 <= m1 < m2 < list.len() ==> eids[m1] != eids[m2]
    &&& forall|eid: Seq<char>| #[trigger] s.out_edge_set(node_id, label).contains(eid)
        && s.nodes_model().contains_key(s.edges_model()[eid].to_node)
        ==> id_listed(eids, eid)
}

/// As `resolved_out_nodes`, for the incoming walk: the near endpoint is
/// the sink, the listed nodes are the sources.
pub open spec fn resolved_in_nodes(s: HelixGraphStorage, node_id: Seq<char>, label: Seq<char>, list: Seq<Node>, eids: Seq<Seq<char>>) -> bool {
    &&& eids.len() == list.len()
    &&& forall|m: int| 0 <= m < list.len() ==> {
        &&& s.in_edge_set(node_id, label).contains(#[trigger] eids[m])
        &&& s.nodes_model().contains_key(s.edges_model()[eids[m]].from_node)
        &&& list[m]@ == s.nodes_model()[s.edges_model()[eids[m]].from_node]
    }
    &&& forall|m1: int, m2: int| 0 <= m1 < m2 < list.len() ==> eids[m1] != eids[m2]
    &&& forall|eid: Seq<char>| #[trigger] s.in_edge_set(node_id, label).contains(eid)
        && s.nodes_model().contains_key(s.edges_model()[eid].from_node)
        ==> id_listed(eids, eid)
}

/// Some witness list of edge ids shows the node list resolves the
/// outgoing walk exactly.
pub open spec fn out_nodes_ok(s: HelixGraphStorage, node_id: Seq<char>, label: Seq<char>, list: Seq<Node>) -> bool {
    exists|eids: Seq<Seq<char>>| resolved_out_nodes(s, node_id, label, list, eids)
}

/// Some witness list of edge ids shows the node list resolves the
/// incoming walk exactly.
pub open spec fn in_nodes_ok(s: HelixGraphStorage, node_id: Seq<char>, label: Seq<char>, list: Seq<Node>) -> bool {
    exists|eids: Seq<Seq<char>>| resolved_in_nodes(s, node_id, label, list, eids)
}

impl HelixGraphStorage {
    /// Resolves each listed edge's far endpoint, keeping the nodes whose
    /// record exists; one node per resolvable edge, in list order. The
    /// ghost result names, for each kept node, the index of its edge.
    fn far_nodes(&self, edges: &Vec<Edge>, outgoing: bool) -> (r: (Vec<Node>, Ghost<Seq<int>>))
        requires
            self.wf(),
            forall|i: int| 0 <= i < edges@.len()
                ==> self.edges_model().contains_key((#[trigger] edges@[i])@.id)
                    && self.edges_model()[edges@[i]@.id] == edges@[i]@,
        ensures
            ({
                let (list, srcs) = r;
                &&& srcs@.len() == list@.len()
                &&& forall|m: int| 0 <= m < list@.len() ==> {
                    &&& 0 <= #[trigger] srcs@[m] < edges@.len()
                    &&& self.nodes_model().contains_key(
                        far_end(edges@[srcs@[m]]@, outgoing))
                    &&& list@[m]@ == self.nodes_model()[far_end(edges@[srcs@[m]]@, outgoing)]
                }
                &&& forall|m1: int, m2: int| 0 <= m1 < m2 < list@.len()
                    ==> srcs@[m1] < srcs@[m2]
                &&& forall|j: int| 0 <= j < edges@.len()
                    && self.nodes_model().contains_key(far_end(#[trigger] edges@[j]@, outgoing))
                    ==> src_listed(srcs@, j)
            }),
    {
        let mut out: Vec<Node> = Vec::new();
        let ghost srcs: Seq<int> = Seq::empty();
        let mut srcs_t = Ghost(srcs);
        let n = edges.len();
        let mut i: usize = 0;
        while i < n
            invariant
                self.wf(),
                forall|j: int| 0 <= j < edges@.len()
                    ==> self.edges_model().contains_key((#[trigger] edges@[j])@.id)
                        && self.edges_model()[edges@[j]@.id] == edges@[j]@,
                n == edges@.len(),
                i <= n,
                srcs_t@.len() == out@.len(),
                forall|m: int| 0 <= m < out@.len() ==> {
                    &&& 0 <= #[trigger] srcs_t@[m] < i as int
                    &&& self.nodes_model().contains_key(
                        far_end(edges@[srcs_t@[m]]@, outgoing))
                    &&& out@[m]@ == self.nodes_model()[far_end(edges@[srcs_t@[m]]@, outgoing)]
                },
                forall|m1: int, m2: int| 0 <= m1 < m2 < out@.len()
                    ==> srcs_t@[m1] < srcs_t@[m2],
                forall|j: int| 0 <= j < i
                    && self.nodes_model().contains_key(far_end(#[trigger] edges@[j]@, outgoing))
                    ==> src_listed(srcs_t@, j),
            decreases n - i,
        {
            let far = if outgoing {
                edges[i].to_node.as_str()
            } else {
                edges[i].from_node.as_str()
            };
            proof {
                assert(far@ == far_end(edges@[i as int]@, outgoing));
            }
            let ghost out_pre = out@;
            let ghost srcs_pre = srcs_t@;
            match self.get_node(far) {
                Ok(node) => {
                    out.push(node);
                    srcs_t = Ghost(srcs_pre.push(i as int));
                    proof {
                        assert(srcs_t@[out@.len() - 1] == i as int);
                        assert(out@[out@.len() - 1]@
                            == self.nodes_model()[far_end(edges@[i as int]@, outgoing)]);
                        assert(forall|m: int| 0 <= m < out_pre.len()
                            ==> out@[m] == out_pre[m] && #[trigger] srcs_t@[m] == srcs_pre[m]);
                        assert forall|j: int| 0 <= j < i + 1
                            && self.nodes_model().contains_key(
                                far_end(#[trigger] edges@[j]@, outgoing))
                            implies src_listed(srcs_t@, j) by {
                            if j < i as int {
                                let m = choose|m: int| 0 <= m < srcs_pre.len()
                                    && srcs_pre[m] == j;
                                assert(srcs_t@[m] == j);
                            } else {
                                assert(srcs_t@[out@.len() - 1] == j);
                            }
                        }
                    }
                },
                Err(_) => {
                },
            }
            i = i + 1;
        }
        (out, srcs_t)
    }

    /// The far endpoints of the outgoing edges of a node under a label:
    /// exactly one node per matching edge whose sink record exists.
    #[verifier::rlimit(100)]
    pub fn get_out_nodes(&self, node_id: &str, edge_label: &str)
        -> (r: Result<Vec<Node>, GraphError>)
        requires
            self.wf(),
        ensures
            r is Ok,
            (r matches Ok(list) ==> out_nodes_ok(*self, node_id@, edge_label@, list@)),
    {
        let edges = match self.get_out_edges(node_id, edge_label) {
            Ok(edges) => edges,
            Err(e) => {
                proof {
                    assert(false);
                }
                return Err(e);
            },
        };
        let (list, srcs) = self.far_nodes(&edges, true);
        proof {
            let eids: Seq<Seq<char>> = Seq::new(list@.len(), |m: int| edges@[srcs@[m]]@.id);
            assert forall|m: int| 0 <= m < list@.len() implies {
                &&& self.out_edge_set(node_id@, edge_label@).contains(#[trigger] eids[m])
                &&& self.nodes_model().contains_key(self.edges_model()[eids[m]].to_node)
                &&& list@[m]@ == self.nodes_model()[self.edges_model()[eids[m]].to_node]
            } by {
                let j = srcs@[m];
                assert(eids[m] == edges@[j]@.id);
                assert(self.out_edge_set(node_id@, edge_label@).contains(edges@[j]@.id));
                assert(self.edges_model()[edges@[j]@.id] == edges@[j]@);
                assert(far_end(edges@[j]@, true) == self.edges_model()[eids[m]].to_node);
            }
            assert forall|m1: int, m2: int| 0 <= m1 < m2 < list@.len()
                implies eids[m1] != eids[m2] by {
                assert(srcs@[m1] < srcs@[m2]);
                assert(eids[m1] == edges@[srcs@[m1]]@.id);
                assert(eids[m2] == edges@[srcs@[m2]]@.id);
            }
            assert forall|eid: Seq<char>|
                #[trigger] self.out_edge_set(node_id@, edge_label@).contains(eid)
                && self.nodes_model().contains_key(self.edges_model()[eid].to_node)
                implies id_listed(eids, eid) by {
                let j = choose|j: int| 0 <= j < edges@.len()
                    && (#[trigger] edges@[j])@.id == eid;
                assert(edges@[j]@ == self.edges_model()[eid]);
                assert(far_end(edges@[j]@, true) == self.edges_model()[eid].to_node);
                assert(self.nodes_model().contains_key(far_end(edges@[j]@, true)));
                assert(src_listed(srcs@, j));
                let m = choose|m: int| 0 <= m < srcs@.len() && srcs@[m] == j;
                assert(eids[m] == eid);
            }
            assert(resolved_out_nodes(*self, node_id@, edge_label@, list@, eids));
            assert(out_nodes_ok(*self, node_id@, edge_label@, list@));
        }
        Ok(list)
    }

    /// The near endpoints of the incoming edges of a node under a label:
    /// exactly one node per matching edge whose source record exists.
    #[verifier::rlimit(100)]
    pub fn get_in_nodes(&self, node_id: &str, edge_label: &str)
        -> (r: Result<Vec<Node>, GraphError>)
        requires
            self.wf(),
        ensures
            r is Ok,
            (r matches Ok(list) ==> in_nodes_ok(*self, node_id@, edge_label@, list@)),
    {
        let edges = match self.get_in_edges(node_id, edge_label) {
            Ok(edges) => edges,
            Err(e) => {
                proof {
                    assert(false);
                }
                return Err(e);
            },
        };
        let (list, srcs) = self.far_nodes(&edges, false);
        proof {
            let eids: Seq<Seq<char>> = Seq::new(list@.len(), |m: int| edges@[srcs@[m]]@.id);
            assert forall|m: int| 0 <= m < list@.len() implies {
                &&& self.in_edge_set(node_id@, edge_label@).contains(#[trigger] eids[m])
                &&& self.nodes_model().contains_key(self.edges_model()[eids[m]].from_node)
                &&& list@[m]@ == self.nodes_model()[self.edges_model()[eids[m]].from_node]
            } by {
                let j = srcs@[m];
                assert(eids[m] == edges@[j]@.id);
                assert(self.in_edge_set(node_id@, edge_label@).contains(edges@[j]@.id));
                assert(self.edges_model()[edges@[j]@.id] == edges@[j]@);
                assert(far_end(edges@[j]@, false) == self.edges_model()[eids[m]].from_node);
            }
            assert forall|m1: int, m2: int| 0 <= m1 < m2 < list@.len()
                implies eids[m1] != eids[m2] by {
                assert(srcs@[m1] < srcs@[m2]);
                assert(eids[m1] == edges@[srcs@[m1]]@.id);
                assert(eids[m2] == edges@[srcs@[m2]]@.id);
            }
            assert forall|eid: Seq<char>|
                #[trigger] self.in_edge_set(node_id@, edge_label@).contains(eid)
                && self.nodes_model().contains_key(self.edges_model()[eid].from_node)
                implies id_listed(eids, eid) by {
                let j = choose|j: int| 0 <= j < edges@.len()
                    && (#[trigger] edges@[j])@.id == eid;
                assert(edges@[j]@ == self.edges_model()[eid]);
                assert(far_end(edges@[j]@, false) == self.edges_model()[eid].from_node);
                assert(self.nodes_model().contains_key(far_end(edges@[j]@, false)));
                assert(src_listed(srcs@, j));
                let m = choose|m: int| 0 <= m < srcs@.len() && srcs@[m] == j;
                assert(eids[m] == eid);
            }
            assert(resolved_in_nodes(*self, node_id@, edge_label@, list@, eids));
            assert(in_nodes_ok(*self, node_id@, edge_label@, list@));
        }
        Ok(list)
    }

    /// Every live node record, each once, in no promised order: a scan
    /// of the node record family.
    #[verifier::rlimit(100)]
    #[verifier::spinoff_prover]
    pub fn get_all_nodes(&self) -> (r: Result<Vec<Node>, GraphError>)
        requires
            self.wf(),
        ensures
            r is Ok,
            (r matches Ok(list) ==> forall|i: int| 0 <= i < list@.len() ==> {
                &&& self.nodes_model().contains_key((#[trigger] list@[i])@.id)
                &&& self.nodes_model()[list@[i]@.id] == list@[i]@
            }),
            (r matches Ok(list) ==> forall|id: Seq<char>|
                #[trigger] self.nodes_model().contains_key(id)
                    ==> list_has_node_id(list@, id)),
            (r matches Ok(list) ==> forall|i: int, j: int| 0 <= i < j < list@.len()
                ==> list@[i]@.id != list@[j]@.id),
    {
        let found = self.nodes.scan_prefix("");
        proof {
            reveal_strlit("");
            assert(forall|k: Seq<char>| #[trigger] ""@.is_prefix_of(k));
        }
        let out = self.decode_node_entries(&found);
        proof {
            assert forall|id: Seq<char>| #[trigger] self.nodes_model().contains_key(id)
                implies list_has_node_id(out@, id) by {
                let k = node_key_chars(id);
                assert(self.nodes.model().contains_key(k));
                assert(""@.is_prefix_of(k));
                let j = choose|j: int| 0 <= j < found@.len() && (#[trigger] found@[j]).0@ == k;
                assert(node_key_chars(out@[j]@.id) == k);
                lemma_tag_id_injective("n:"@, out@[j]@.id, id);
                assert(out@[j]@.id == id);
            }
            assert forall|i: int, j: int| 0 <= i < j < out@.len()
                implies out@[i]@.id != out@[j]@.id by {
                if out@[i]@.id == out@[j]@.id {
                    assert(found@[i].0@ == node_key_chars(out@[i]@.id));
                    assert(found@[j].0@ == node_key_chars(out@[j]@.id));
                    assert(found@[i].0@ == found@[j].0@);
                }
            }
            assert forall|i: int| 0 <= i < out@.len() implies
                self.nodes_model().contains_key((#[trigger] out@[i])@.id)
                && self.nodes_model()[out@[i]@.id] == out@[i]@ by {}
        }
        Ok(out)
    }

    /// Decodes the records of a list of node-family entries, index for
    /// index.
    fn decode_node_entries(&self, found: &Vec<(String, Vec<u8>)>) -> (out: Vec<Node>)
        requires
            self.wf(),
            forall|j: int| 0 <= j < found@.len()
                ==> self.nodes.model().contains_key((#[trigger] found@[j]).0@)
                    && self.nodes.model()[found@[j].0@] == found@[j].1@,
        ensures
            out@.len() == found@.len(),
            forall|j: int| 0 <= j < out@.len() ==> {
                &&& self.nodes_model().contains_key((#[trigger] out@[j])@.id)
                &&& self.nodes_model()[out@[j]@.id] == out@[j]@
                &&& node_key_chars(out@[j]@.id) == found@[j].0@
            },
    {
        let mut out: Vec<Node> = Vec::new();
        let n = found.len();
        let mut i: usize = 0;
        while i < n
            invariant
                self.wf(),
                n == found@.len(),
                i <= n,
                out@.len() == i,
                forall|j: int| 0 <= j < found@.len()
                    ==> self.nodes.model().contains_key((#[trigger] found@[j]).0@)
                        && self.nodes.model()[found@[j].0@] == found@[j].1@,
                forall|j: int| 0 <= j < i ==> {
                    &&& self.nodes_model().contains_key((#[trigger] out@[j])@.id)
                    &&& self.nodes_model()[out@[j]@.id] == out@[j]@
                    &&& node_key_chars(out@[j]@.id) == found@[j].0@
                },
            decreases n - i,
        {
            proof {
                assert(node_entry_ok(found@[i as int].0@, found@[i as int].1@));
            }
            match deserialize_node(&found[i].1) {
                Some(node) => {
                    out.push(node);
                    proof {
                        let k = found@[i as int].0@;
                        let nv = node_of_bytes(found@[i as int].1@);
                        assert(out@[i as int]@ == nv);
                        assert(k == node_key_chars(nv.id));
                        assert(self.nodes.model().contains_key(node_key_chars(nv.id)));
                        assert(self.nodes_model().contains_key(nv.id));
                        assert(self.nodes_model()[nv.id] == nv);
                    }
                },
                None => {
                    proof {
                        assert(false);
                    }
                    out.push(Node {
                        id: String::new(),
                        label: String::new(),
                        properties: Vec::new(),
                    });
                },
            }
            i = i + 1;
        }
        out
    }

    /// Every live edge record, each once, in no promised order: a scan
    /// of the edge record family.
    #[verifier::rlimit(100)]
    #[verifier::spinoff_prover]
    pub fn get_all_edges(&self) -> (r: Result<Vec<Edge>, GraphError>)
        requires
            self.wf(),
        ensures
            r is Ok,
            (r matches Ok(list) ==> forall|i: int| 0 <= i < list@.len() ==> {
                &&& self.edges_model().contains_key((#[trigger] list@[i])@.id)
                &&& self.edges_model()[list@[i]@.id] == list@[i]@
            }),
            (r matches Ok(list) ==> forall|id: Seq<char>|
                #[trigger] self.edges_model().contains_key(id)
                    ==> list_has_edge_id(list@, id)),
            (r matches Ok(list) ==> forall|i: int, j: int| 0 <= i < j < list@.len()
                ==> list@[i]@.id != list@[j]@.id),
    {
        let found = self.edges.scan_prefix("");
        proof {
            reveal_strlit("");
            assert(forall|k: Seq<char>| #[trigger] ""@.is_prefix_of(k));
        }
        let out = self.decode_edge_entries(&found);
        proof {
            assert forall|id: Seq<char>| #[trigger] self.edges_model().contains_key(id)
                implies list_has_edge_id(out@, id) by {
                let k = edge_key_chars(id);
                assert(self.edges.model().contains_key(k));
                assert(""@.is_prefix_of(k));
                let j = choose|j: int| 0 <= j < found@.len() && (#[trigger] found@[j]).0@ == k;
                assert(edge_key_chars(out@[j]@.id) == k);
                lemma_tag_id_injective("e:"@, out@[j]@.id, id);
                assert(out@[j]@.id == id);
            }
            assert forall|i: int, j: int| 0 <= i < j < out@.len()
                implies out@[i]@.id != out@[j]@.id by {
                if out@[i]@.id == out@[j]@.id {
                    assert(found@[i].0@ == edge_key_chars(out@[i]@.id));
                    assert(found@[j].0@ == edge_key_chars(out@[j]@.id));
                    assert(found@[i].0@ == found@[j].0@);
                }
            }
            assert forall|i: int| 0 <= i < out@.len() implies
                self.edges_model().contains_key((#[trigger] out@[i])@.id)
                && self.edges_model()[out@[i]@.id] == out@[i]@ by {}
        }
        Ok(out)
    }

    /// Decodes the records of a list of edge-family entries, index for
    /// index.
    fn decode_edge_entries(&self, found: &Vec<(String, Vec<u8>)>) -> (out: Vec<Edge>)
        requires
            self.wf(),
            forall|j: int| 0 <= j < found@.len()
                ==> self.edges.model().contains_key((#[trigger] found@[j]).0@)
                    && self.edges.model()[found@[j].0@] == found@[j].1@,
        ensures
            out@.len() == found@.len(),
            forall|j: int| 0 <= j < out@.len() ==> {
                &&& self.edges_model().contains_key((#[trigger] out@[j])@.id)
                &&& self.edges_model()[out@[j]@.id] == out@[j]@
                &&& edge_key_chars(out@[j]@.id) == found@[j].0@
            },
    {
        let mut out: Vec<Edge> = Vec::new();
        let n = found.len();
        let mut i: usize = 0;
        while i < n
            invariant
                self.wf(),
                n == found@.len(),
                i <= n,
                out@.len() == i,
                forall|j: int| 0 <= j < found@.len()
                    ==> self.edges.model().contains_key((#[trigger] found@[j]).0@)
                        && self.edges.model()[found@[j].0@] == found@[j].1@,
                forall|j: int| 0 <= j < i ==> {
                    &&& self.edges_model().contains_key((#[trigger] out@[j])@.id)
                    &&& self.edges_model()[out@[j]@.id] == out@[j]@
                    &&& edge_key_chars(out@[j]@.id) == found@[j].0@
                },
            decreases n - i,
        {
            proof {
                assert(edge_entry_ok(found@[i as int].0@, found@[i as int].1@));
            }
            match deserialize_edge(&found[i].1) {
                Some(edge) => {
                    out.push(edge);
                    proof {
                        let k = found@[i as int].0@;
                        let ev = edge_of_bytes(found@[i as int].1@);
                        assert(out@[i as int]@ == ev);
                        assert(k == edge_key_chars(ev.id));
                        assert(self.edges.model().contains_key(edge_key_chars(ev.id)));
                        assert(self.edges_model().contains_key(ev.id));
                        assert(self.edges_model()[ev.id] == ev);
                    }
                },
                None => {
                    proof {
                        assert(false);
                    }
                    out.push(Edge {
                        id: String::new(),
                        label: String::new(),
                        from_node: String::new(),
                        to_node: String::new(),
                        properties: Vec::new(),
                    });
                },
            }
            i = i + 1;
        }
        out
    }
}

/// The far endpoint of an edge: its sink on an outgoing walk, its
/// source on an incoming one.
pub open spec fn far_end(e: EdgeV, outgoing: bool) -> Seq<char> {
    if outgoing {
        e.to_node
    } else {
        e.from_node
    }
}


/// Some position of the first `k` listed ids holds this id.
spec fn listed_before(ids: Seq<String>, k: int, eid: Seq<char>) -> bool {
    exists|m: int| 0 <= m < k && (#[trigger] ids[m])@ == eid
}

impl HelixGraphStorage {
    /// Drops every edge named by one adjacency list, one `drop_edge` at
    /// a time. Afterwards exactly the listed edges are gone.
    #[verifier::rlimit(100)]
    fn drop_listed_edges(&mut self, ids: &Vec<String>)
        requires
            old(self).wf(),
            forall|m: int| 0 <= m < ids@.len()
                ==> old(self).edges_model().contains_key((#[trigger] ids@[m])@),
            forall|m1: int, m2: int| 0 <= m1 < m2 < ids@.len() ==> ids@[m1]@ != ids@[m2]@,
        ensures
            final(self).wf(),
            final(self).nodes_model() == old(self).nodes_model(),
            forall|eid: Seq<char>| #[trigger] final(self).edges_model().contains_key(eid)
                <==> (old(self).edges_model().contains_key(eid)
                    && !listed_before(ids@, ids@.len() as int, eid)),
            forall|eid: Seq<char>| #[trigger] final(self).edges_model().contains_key(eid)
                ==> final(self).edges_model()[eid] == old(self).edges_model()[eid],
    {
        let ghost pre = *self;
        let n = ids.len();
        let mut i: usize = 0;
        while i < n
            invariant
                self.wf(),
                n == ids@.len(),
                i <= n,
                forall|m: int| 0 <= m < ids@.len()
                    ==> pre.edges_model().contains_key((#[trigger] ids@[m])@),
                forall|m1: int, m2: int| 0 <= m1 < m2 < ids@.len() ==> ids@[m1]@ != ids@[m2]@,
                self.nodes_model() == pre.nodes_model(),
                forall|eid: Seq<char>| #[trigger] self.edges_model().contains_key(eid)
                    <==> (pre.edges_model().contains_key(eid)
                        && !listed_before(ids@, i as int, eid)),
                forall|eid: Seq<char>| #[trigger] self.edges_model().contains_key(eid)
                    ==> self.edges_model()[eid] == pre.edges_model()[eid],
            decreases n - i,
        {
            proof {
                assert forall|m: int| 0 <= m < i
                    implies ids@[m]@ != ids@[i as int]@ by {}
                assert(!listed_before(ids@, i as int, ids@[i as int]@));
                assert(self.edges_model().contains_key(ids@[i as int]@));
            }
            let ghost mid = *self;
            match self.drop_edge(ids[i].as_str()) {
                Ok(u) => {
                    proof {
                        assert(self.edges_model() == mid.edges_model().remove(ids@[i as int]@));
                        assert forall|eid: Seq<char>|
                            #[trigger] self.edges_model().contains_key(eid)
                            <==> (pre.edges_model().contains_key(eid)
                                && !listed_before(ids@, i + 1, eid)) by {
                            if self.edges_model().contains_key(eid) {
                                assert(mid.edges_model().contains_key(eid)
                                    && eid != ids@[i as int]@);
                                assert(!listed_before(ids@, i as int, eid));
                                assert forall|m: int| 0 <= m < i + 1
                                    implies (#[trigger] ids@[m])@ != eid by {
                                    if m < i as int {
                                        assert(!(exists|m2: int| 0 <= m2 < i
                                            && (#[trigger] ids@[m2])@ == eid));
                                    }
                                }
                            } else {
                                if pre.edges_model().contains_key(eid)
                                    && !listed_before(ids@, i + 1, eid) {
                                    assert(!listed_before(ids@, i as int, eid)) by {
                                        if listed_before(ids@, i as int, eid) {
                                            let m = choose|m: int| 0 <= m < i
                                                && (#[trigger] ids@[m])@ == eid;
                                            assert(0 <= m < i + 1 && ids@[m]@ == eid);
                                        }
                                    }
                                    assert(mid.edges_model().contains_key(eid));
                                    assert(eid != ids@[i as int]@) by {
                                        if eid == ids@[i as int]@ {
                                            assert((0 <= i as int) && ((i as int) < i + 1)
                                                && ids@[i as int]@ == eid);
                                        }
                                    }
                                    assert(false);
                                }
                            }
                        }
                    }
                },
                Err(_) => {
                    proof {
                        assert(false);
                    }
                },
            }
            i = i + 1;
        }
    }

    /// Deletes a node and every edge incident to it: scans the outgoing
    /// and the incoming adjacency prefixes, drops each found edge, then
    /// deletes the node record. Afterwards the node is gone and no edge
    /// touching it remains; every other record is untouched.
    #[verifier::rlimit(100)]
    pub fn drop_node(&mut self, id: &str) -> (r: Result<(), GraphError>)
        requires
            old(self).wf(),
        ensures
            final(self).wf(),
            r is Ok,
            final(self).nodes_model() == old(self).nodes_model().remove(id@),
            forall|eid: Seq<char>| #[trigger] final(self).edges_model().contains_key(eid)
                <==> (old(self).edges_model().contains_key(eid)
                    && old(self).edges_model()[eid].from_node != id@
                    && old(self).edges_model()[eid].to_node != id@),
            forall|eid: Seq<char>| #[trigger] final(self).edges_model().contains_key(eid)
                ==> final(self).edges_model()[eid] == old(self).edges_model()[eid],
    {
        let ghost pre = *self;
        let out_ids = self.adjacency_ids(id, true);
        self.drop_listed_edges(&out_ids);
        let ghost mid = *self;
        proof {
            assert forall|eid: Seq<char>| #[trigger] mid.edges_model().contains_key(eid)
                <==> (pre.edges_model().contains_key(eid)
                    && pre.edges_model()[eid].from_node != id@) by {
                if pre.edges_model().contains_key(eid)
                    && pre.edges_model()[eid].from_node == id@ {
                    let m = choose|m: int| 0 <= m < out_ids@.len()
                        && (#[trigger] out_ids@[m])@ == eid;
                    assert(listed_before(out_ids@, out_ids@.len() as int, eid));
                }
                if mid.edges_model().contains_key(eid) {
                    assert(!listed_before(out_ids@, out_ids@.len() as int, eid));
                    if pre.edges_model()[eid].from_node == id@ {
                        assert(adj_endpoint(pre, eid, true) == id@);
                        assert(exists|m: int| 0 <= m < out_ids@.len()
                            && (#[trigger] out_ids@[m])@ == eid);
                        let m = choose|m: int| 0 <= m < out_ids@.len()
                            && (#[trigger] out_ids@[m])@ == eid;
                        assert(false);
                    }
                }
            }
        }
        let in_ids = self.adjacency_ids(id, false);
        self.drop_listed_edges(&in_ids);
        proof {
            assert forall|eid: Seq<char>| #[trigger] self.edges_model().contains_key(eid)
                <==> (pre.edges_model().contains_key(eid)
                    && pre.edges_model()[eid].from_node != id@
                    && pre.edges_model()[eid].to_node != id@) by {
                if self.edges_model().contains_key(eid) {
                    assert(mid.edges_model().contains_key(eid));
                    assert(pre.edges_model().contains_key(eid)
                        && pre.edges_model()[eid].from_node != id@);
                    assert(mid.edges_model()[eid] == pre.edges_model()[eid]);
                    assert(!listed_before(in_ids@, in_ids@.len() as int, eid));
                    if pre.edges_model()[eid].to_node == id@ {
                        assert(adj_endpoint(mid, eid, false) == id@);
                        let m = choose|m: int| 0 <= m < in_ids@.len()
                            && (#[trigger] in_ids@[m])@ == eid;
                        assert(false);
                    }
                } else {
                    if pre.edges_model().contains_key(eid)
                        && pre.edges_model()[eid].from_node != id@
                        && pre.edges_model()[eid].to_node != id@ {
                        assert(mid.edges_model().contains_key(eid));
                        assert(mid.edges_model()[eid] == pre.edges_model()[eid]);
                        assert(listed_before(in_ids@, in_ids@.len() as int, eid));
                        let m = choose|m: int| 0 <= m < in_ids@.len()
                            && (#[trigger] in_ids@[m])@ == eid;
                        assert(mid.edges_model().contains_key(in_ids@[m]@));
                        assert(adj_endpoint(mid, eid, false) == id@);
                        assert(false);
                    }
                }
            }
        }
        let ghost before_delete = *self;
        self.nodes.delete(node_key_string(id).as_str());
        proof {
            let k = node_key_chars(id@);
            assert forall|id2: Seq<char>| true implies
                (node_key_chars(id2) == k <==> id2 == id@) by {
                lemma_tag_id_injective("n:"@, id2, id@);
            }
            assert(self.nodes_model() =~= before_delete.nodes_model().remove(id@));
            assert(self.edges_model() =~= before_delete.edges_model());
            assert(self.nodes_model() =~= pre.nodes_model().remove(id@));
            assert forall|k2: Seq<char>| #[trigger] self.indices.model().contains_key(k2)
                && k2.len() >= 2 && k2[0] == 'o' && k2[1] == ':'
                implies exists|eid: Seq<char>| self.edges_model().contains_key(eid)
                    && k2 == out_edge_key_chars(
                        (#[trigger] self.edges_model()[eid]).from_node, eid) by {
                let eid = choose|eid: Seq<char>| before_delete.edges_model().contains_key(eid)
                    && k2 == out_edge_key_chars(
                        (#[trigger] before_delete.edges_model()[eid]).from_node, eid);
                assert(self.edges_model().contains_key(eid)
                    && self.edges_model()[eid] == before_delete.edges_model()[eid]);
            }
            assert forall|k2: Seq<char>| #[trigger] self.indices.model().contains_key(k2)
                && k2.len() >= 2 && k2[0] == 'i' && k2[1] == ':'
                implies exists|eid: Seq<char>| self.edges_model().contains_key(eid)
                    && k2 == in_edge_key_chars(
                        (#[trigger] self.edges_model()[eid]).to_node, eid) by {
                let eid = choose|eid: Seq<char>| before_delete.edges_model().contains_key(eid)
                    && k2 == in_edge_key_chars(
                        (#[trigger] before_delete.edges_model()[eid]).to_node, eid);
                assert(self.edges_model().contains_key(eid)
                    && self.edges_model()[eid] == before_delete.edges_model()[eid]);
            }
            assert forall|eid: Seq<char>| #[trigger] self.edges_model().contains_key(eid)
                implies {
                    &&& self.indices.model().contains_key(
                        out_edge_key_chars(self.edges_model()[eid].from_node, eid))
                    &&& self.indices.model().contains_key(
                        in_edge_key_chars(self.edges_model()[eid].to_node, eid))
                    &&& self.indices.model().contains_key(
                        edge_label_key_chars(self.edges_model()[eid].label, eid))
                } by {
                assert(before_delete.edges_model().contains_key(eid));
                assert(self.edges_model()[eid] == before_delete.edges_model()[eid]);
            }
            assert forall|id2: Seq<char>| #[trigger] self.nodes_model().contains_key(id2)
                implies self.indices.model().contains_key(
                    node_label_key_chars(self.nodes_model()[id2].label, id2)) by {
                assert(before_delete.nodes_model().contains_key(id2));
                assert(self.nodes_model()[id2] == before_delete.nodes_model()[id2]);
            }
        }
        Ok(())
    }
}

} // verus!
