//! The traversal evaluator: a mutable builder carrying named
//! intermediate results and a current frontier — a list of cells, each
//! holding nodes, edges or values of one kind. Source steps install a
//! fresh frontier; chained steps require a node-kind frontier and push
//! one cell per source node, as the step operators of the query language
//! prescribe.

use vstd::prelude::*;
use crate::storage::{
    HelixGraphStorage, out_nodes_ok, in_nodes_ok, list_has_node_id, list_has_edge_id,
};
use crate::value::{Value, Node, Edge};
use crate::types::GraphError;
use crate::binfmt::{string_fits, props_fit};
use crate::value::props_view;
use crate::keys::str_concat;

verus! {

/// One frontier cell: a single element or a list, of one kind.
pub enum TraversalValue {
    SingleNode(Node),
    SingleEdge(Edge),
    SingleValue(Value),
    NodeArray(Vec<Node>),
    EdgeArray(Vec<Edge>),
    ValueArray(Vec<Value>),
}

/// The cell holds nodes: a node list or a single node.
pub open spec fn is_node_kind(c: TraversalValue) -> bool {
    c is NodeArray || c is SingleNode
}

/// The cell holds edges: an edge list or a single edge.
pub open spec fn is_edge_kind(c: TraversalValue) -> bool {
    c is EdgeArray || c is SingleEdge
}

/// The cell holds exactly the live node records of the store.
pub open spec fn all_nodes_cell_ok(s: HelixGraphStorage, c: TraversalValue) -> bool {
    c matches TraversalValue::NodeArray(ns) && {
        &&& forall|i: int| 0 <= i < ns@.len() ==> {
            &&& s.nodes_model().contains_key((#[trigger] ns@[i])@.id)
            &&& s.nodes_model()[ns@[i]@.id] == ns@[i]@
        }
        &&& forall|id: Seq<char>| #[trigger] s.nodes_model().contains_key(id)
            ==> list_has_node_id(ns@, id)
        &&& forall|i: int, j: int| 0 <= i < j < ns@.len() ==> ns@[i]@.id != ns@[j]@.id
    }
}

/// The cell holds exactly the live edge records of the store.
pub open spec fn all_edges_cell_ok(s: HelixGraphStorage, c: TraversalValue) -> bool {
    c matches TraversalValue::EdgeArray(es) && {
        &&& forall|i: int| 0 <= i < es@.len() ==> {
            &&& s.edges_model().contains_key((#[trigger] es@[i])@.id)
            &&& s.edges_model()[es@[i]@.id] == es@[i]@
        }
        &&& forall|id: Seq<char>| #[trigger] s.edges_model().contains_key(id)
            ==> list_has_edge_id(es@, id)
        &&& forall|i: int, j: int| 0 <= i < j < es@.len() ==> es@[i]@.id != es@[j]@.id
    }
}

/// The cell holds exactly the resolved far endpoints of one source
/// node's outgoing (or incoming) edges under the label.
pub open spec fn step_nodes_cell_ok(s: HelixGraphStorage, id: Seq<char>, label: Seq<char>, outgoing: bool, c: TraversalValue) -> bool {
    c matches TraversalValue::NodeArray(ns) && if outgoing {
        out_nodes_ok(s, id, label, ns@)
    } else {
        in_nodes_ok(s, id, label, ns@)
    }
}

/// The cell holds exactly one source node's outgoing (or incoming)
/// edges under the label, each once.
pub open spec fn step_edges_cell_ok(s: HelixGraphStorage, id: Seq<char>, label: Seq<char>, outgoing: bool, c: TraversalValue) -> bool {
    c matches TraversalValue::EdgeArray(es) && {
        let wanted = if outgoing {
            s.out_edge_set(id, label)
        } else {
            s.in_edge_set(id, label)
        };
        &&& forall|i: int| 0 <= i < es@.len() ==> {
            &&& wanted.contains((#[trigger] es@[i])@.id)
            &&& s.edges_model()[es@[i]@.id] == es@[i]@
        }
        &&& forall|eid: Seq<char>| #[trigger] wanted.contains(eid)
            ==> list_has_edge_id(es@, eid)
        &&& forall|i: int, j: int| 0 <= i < j < es@.len() ==> es@[i]@.id != es@[j]@.id
    }
}

/// The new frontier of a node-to-node step: one node-list cell per
/// source node, in order.
pub open spec fn nodes_step_ok(s: HelixGraphStorage, nodes: Seq<Node>, label: Seq<char>, outgoing: bool, cells: Seq<TraversalValue>) -> bool {
    &&& cells.len() == nodes.len()
    &&& forall|i: int| 0 <= i < cells.len()
        ==> step_nodes_cell_ok(s, nodes[i]@.id, label, outgoing, #[trigger] cells[i])
}

/// The new frontier of a node-to-edge step: one edge-list cell per
/// source node, in order.
pub open spec fn edges_step_ok(s: HelixGraphStorage, nodes: Seq<Node>, label: Seq<char>, outgoing: bool, cells: Seq<TraversalValue>) -> bool {
    &&& cells.len() == nodes.len()
    &&& forall|i: int| 0 <= i < cells.len()
        ==> step_edges_cell_ok(s, nodes[i]@.id, label, outgoing, #[trigger] cells[i])
}

/// The evaluator: named intermediate results and the current frontier.
pub struct TraversalBuilder {
    pub variables: Vec<(String, TraversalValue)>,
    pub current_step: Vec<TraversalValue>,
}

impl TraversalBuilder {
    /// A builder whose frontier is one node-list cell of the given
    /// start nodes.
    pub fn new(start_nodes: Vec<Node>) -> (r: TraversalBuilder)
        ensures
            r.variables@.len() == 0,
            r.current_step@.len() == 1,
            r.current_step@[0] == TraversalValue::NodeArray(start_nodes),
    {
        let mut current_step: Vec<TraversalValue> = Vec::new();
        current_step.push(TraversalValue::NodeArray(start_nodes));
        TraversalBuilder { variables: Vec::new(), current_step }
    }

    /// The kind guard of vertex steps: accepts exactly a node-kind
    /// first cell, and rejects every other frontier kind.
    pub fn check_is_valid_node_traversal(&self, function_name: &str)
        -> (r: Result<(), GraphError>)
        requires
            self.current_step@.len() > 0,
        ensures
            r is Ok <==> is_node_kind(self.current_step@[0]),
            (r matches Err(e) ==> e is TraversalError),
    {
        match &self.current_step[0] {
            TraversalValue::NodeArray(_) => Ok(()),
            TraversalValue::SingleNode(_) => Ok(()),
            _ => Err(GraphError::TraversalError(str_concat(
                "this step is no valid traversal from the current frontier; a node is needed: ",
                function_name,
            ))),
        }
    }

    /// The kind guard of edge steps: accepts exactly an edge-kind first
    /// cell, and rejects every other frontier kind.
    pub fn check_is_valid_edge_traversal(&self, function_name: &str)
        -> (r: Result<(), GraphError>)
        requires
            self.current_step@.len() > 0,
        ensures
            r is Ok <==> is_edge_kind(self.current_step@[0]),
            (r matches Err(e) ==> e is TraversalError),
    {
        match &self.current_step[0] {
            TraversalValue::EdgeArray(_) => Ok(()),
            TraversalValue::SingleEdge(_) => Ok(()),
            _ => Err(GraphError::TraversalError(str_concat(
                "this step is no valid traversal from the current frontier; an edge is needed: ",
                function_name,
            ))),
        }
    }

    /// Source step: the frontier becomes one cell holding every live
    /// node record.
    pub fn v(&mut self, storage: &HelixGraphStorage)
        requires
            storage.wf(),
        ensures
            final(self).variables == old(self).variables,
            final(self).current_step@.len() == 1,
            all_nodes_cell_ok(*storage, final(self).current_step@[0]),
    {
        let nodes = match storage.get_all_nodes() {
            Ok(nodes) => nodes,
            Err(_) => {
                proof {
                    assert(false);
                }
                Vec::new()
            },
        };
        let mut current_step: Vec<TraversalValue> = Vec::new();
        current_step.push(TraversalValue::NodeArray(nodes));
        self.current_step = current_step;
    }

    /// Source step: the frontier becomes one cell holding every live
    /// edge record.
    pub fn e(&mut self, storage: &HelixGraphStorage)
        requires
            storage.wf(),
        ensures
            final(self).variables == old(self).variables,
            final(self).current_step@.len() == 1,
            all_edges_cell_ok(*storage, final(self).current_step@[0]),
    {
        let edges = match storage.get_all_edges() {
            Ok(edges) => edges,
            Err(_) => {
                proof {
                    assert(false);
                }
                Vec::new()
            },
        };
        let mut current_step: Vec<TraversalValue> = Vec::new();
        current_step.push(TraversalValue::EdgeArray(edges));
        self.current_step = current_step;
    }

    /// Source step: creates a node and installs it as the single-node
    /// frontier. On the store's refusal of the drawn id, nothing moves.
    pub fn add_v(&mut self, storage: &mut HelixGraphStorage, node_label: &str)
        requires
            old(storage).wf(),
            string_fits(node_label@),
        ensures
            final(storage).wf(),
            final(self).variables == old(self).variables,
            ({
                ||| {
                    &&& final(self).current_step@.len() == 1
                    &&& final(self).current_step@[0] matches TraversalValue::SingleNode(n)
                        && n@.label == node_label@
                        && !old(storage).nodes_model().contains_key(n@.id)
                        && n@.id.len() == 36
                        && final(storage).nodes_model()
                            == old(storage).nodes_model().insert(n@.id, n@)
                        && final(storage).edges_model() == old(storage).edges_model()
                }
                ||| {
                    &&& final(storage).nodes_model() == old(storage).nodes_model()
                    &&& final(storage).edges_model() == old(storage).edges_model()
                    &&& final(self).current_step == old(self).current_step
                    &&& ((exists|id2: Seq<char>|
                            old(storage).nodes_model().contains_key(id2))
                        || (exists|id2: Seq<char>|
                            old(storage).edges_model().contains_key(id2)))
                }
            }),
    {
        proof {
            assert(props_fit(props_view(Seq::<(String, Value)>::empty())));
        }
        match storage.create_node(node_label, Vec::new()) {
            Ok(node) => {
                let mut current_step: Vec<TraversalValue> = Vec::new();
                current_step.push(TraversalValue::SingleNode(node));
                self.current_step = current_step;
            },
            Err(_) => {
            },
        }
    }

    /// Source step: creates an edge between two existing nodes and
    /// installs it as the single-edge frontier. On the store's refusal
    /// of the drawn id, nothing moves.
    pub fn add_e(&mut self, storage: &mut HelixGraphStorage, edge_label: &str, from_id: &str, to_id: &str)
        requires
            old(storage).wf(),
            string_fits(edge_label@),
            string_fits(from_id@),
            string_fits(to_id@),
            old(storage).nodes_model().contains_key(from_id@),
            old(storage).nodes_model().contains_key(to_id@),
        ensures
            final(storage).wf(),
            final(self).variables == old(self).variables,
            ({
                ||| {
                    &&& final(self).current_step@.len() == 1
                    &&& final(self).current_step@[0] matches TraversalValue::SingleEdge(e)
                        && e@.label == edge_label@
                        && e@.from_node == from_id@
                        && e@.to_node == to_id@
                        && !old(storage).edges_model().contains_key(e@.id)
                        && final(storage).edges_model()
                            == old(storage).edges_model().insert(e@.id, e@)
                        && final(storage).nodes_model() == old(storage).nodes_model()
                }
                ||| {
                    &&& final(storage).nodes_model() == old(storage).nodes_model()
                    &&& final(storage).edges_model() == old(storage).edges_model()
                    &&& final(self).current_step == old(self).current_step
                    &&& ((exists|id2: Seq<char>|
                            old(storage).nodes_model().contains_key(id2))
                        || (exists|id2: Seq<char>|
                            old(storage).edges_model().contains_key(id2)))
                }
            }),
    {
        proof {
            assert(props_fit(props_view(Seq::<(String, Value)>::empty())));
        }
        match storage.create_edge(edge_label, from_id, to_id, Vec::new()) {
            Ok(edge) => {
                let mut current_step: Vec<TraversalValue> = Vec::new();
                current_step.push(TraversalValue::SingleEdge(edge));
                self.current_step = current_step;
            },
            Err(_) => {
            },
        }
    }

    /// Chained step: for each node of the frontier's node list, push a
    /// node-list cell of the far endpoints of its outgoing edges under
    /// the label. A single-node frontier passes the guard and is kept.
    pub fn out(&mut self, storage: &HelixGraphStorage, edge_label: &str)
        requires
            storage.wf(),
            old(self).current_step@.len() > 0,
            is_node_kind(old(self).current_step@[0]),
        ensures
            final(self).variables == old(self).variables,
            (old(self).current_step@[0] matches TraversalValue::NodeArray(nodes)
                ==> nodes_step_ok(*storage, nodes@, edge_label@, true,
                    final(self).current_step@)),
            (old(self).current_step@[0] matches TraversalValue::SingleNode(node)
                ==> nodes_step_ok(*storage, seq![node], edge_label@, true,
                    final(self).current_step@)),
    {
        self.node_step(storage, edge_label, true, true);
    }

    /// Chained step: as `out`, along incoming edges, to their sources.
    pub fn in_(&mut self, storage: &HelixGraphStorage, edge_label: &str)
        requires
            storage.wf(),
            old(self).current_step@.len() > 0,
            is_node_kind(old(self).current_step@[0]),
        ensures
            final(self).variables == old(self).variables,
            (old(self).current_step@[0] matches TraversalValue::NodeArray(nodes)
                ==> nodes_step_ok(*storage, nodes@, edge_label@, false,
                    final(self).current_step@)),
            (old(self).current_step@[0] matches TraversalValue::SingleNode(node)
                ==> nodes_step_ok(*storage, seq![node], edge_label@, false,
                    final(self).current_step@)),
    {
        self.node_step(storage, edge_label, false, true);
    }

    /// Chained step: for each node of the frontier's node list, push an
    /// edge-list cell of its outgoing edges under the label.
    pub fn out_e(&mut self, storage: &HelixGraphStorage, edge_label: &str)
        requires
            storage.wf(),
            old(self).current_step@.len() > 0,
            is_node_kind(old(self).current_step@[0]),
        ensures
            final(self).variables == old(self).variables,
            (old(self).current_step@[0] matches TraversalValue::NodeArray(nodes)
                ==> edges_step_ok(*storage, nodes@, edge_label@, true,
                    final(self).current_step@)),
            (old(self).current_step@[0] matches TraversalValue::SingleNode(node)
                ==> edges_step_ok(*storage, seq![node], edge_label@, true,
                    final(self).current_step@)),
    {
        self.node_step(storage, edge_label, true, false);
    }

    /// Chained step: as `out_e`, for incoming edges.
    pub fn in_e(&mut self, storage: &HelixGraphStorage, edge_label: &str)
        requires
            storage.wf(),
            old(self).current_step@.len() > 0,
            is_node_kind(old(self).current_step@[0]),
        ensures
            final(self).variables == old(self).variables,
            (old(self).current_step@[0] matches TraversalValue::NodeArray(nodes)
                ==> edges_step_ok(*storage, nodes@, edge_label@, false,
                    final(self).current_step@)),
            (old(self).current_step@[0] matches TraversalValue::SingleNode(node)
                ==> edges_step_ok(*storage, seq![node], edge_label@, false,
                    final(self).current_step@)),
    {
        self.node_step(storage, edge_label, false, false);
    }

    /// The shared walk of the four chained steps: per source node one
    /// cell, of nodes or of edges, outgoing or incoming.
    #[verifier::rlimit(100)]
    fn node_step(&mut self, storage: &HelixGraphStorage, edge_label: &str, outgoing: bool, to_nodes: bool)
        requires
            storage.wf(),
            old(self).current_step@.len() > 0,
        ensures
            final(self).variables == old(self).variables,
            (old(self).current_step@[0] matches TraversalValue::NodeArray(nodes) ==> {
                &&& (to_nodes ==> nodes_step_ok(*storage, nodes@, edge_label@, outgoing,
                    final(self).current_step@))
                &&& (!to_nodes ==> edges_step_ok(*storage, nodes@, edge_label@, outgoing,
                    final(self).current_step@))
            }),
            (old(self).current_step@[0] matches TraversalValue::SingleNode(node) ==> {
                &&& (to_nodes ==> nodes_step_ok(*storage, seq![node], edge_label@, outgoing,
                    final(self).current_step@))
                &&& (!to_nodes ==> edges_step_ok(*storage, seq![node], edge_label@, outgoing,
                    final(self).current_step@))
            }),
            !is_node_kind(old(self).current_step@[0])
                ==> final(self).current_step@ == old(self).current_step@,
    {
        let ghost step0 = self.current_step@;
        let first = self.current_step.remove(0);
        let rest = match first {
            TraversalValue::NodeArray(nodes) => nodes,
            TraversalValue::SingleNode(node) => {
                let mut one: Vec<Node> = Vec::new();
                one.push(node);
                proof {
                    assert(step0[0] matches TraversalValue::SingleNode(n) && one@ =~= seq![n]);
                }
                one
            },
            other => {
                self.current_step.insert(0, other);
                proof {
                    assert(self.current_step@ =~= step0);
                }
                return;
            },
        };
        let ghost nodes_seq = rest@;
        let n = rest.len();
        let mut new_current: Vec<TraversalValue> = Vec::new();
        let mut i: usize = 0;
        while i < n
            invariant
                storage.wf(),
                n == rest@.len(),
                nodes_seq == rest@,
                i <= n,
                new_current@.len() == i,
                forall|j: int| 0 <= j < i ==> {
                    &&& (to_nodes ==> step_nodes_cell_ok(*storage, rest@[j]@.id, edge_label@,
                        outgoing, #[trigger] new_current@[j]))
                    &&& (!to_nodes ==> step_edges_cell_ok(*storage, rest@[j]@.id, edge_label@,
                        outgoing, new_current@[j]))
                },
            decreases n - i,
        {
            if to_nodes {
                let far = if outgoing {
                    storage.get_out_nodes(rest[i].id.as_str(), edge_label)
                } else {
                    storage.get_in_nodes(rest[i].id.as_str(), edge_label)
                };
                match far {
                    Ok(ns) => {
                        new_current.push(TraversalValue::NodeArray(ns));
                    },
                    Err(_) => {
                        proof {
                            assert(false);
                        }
                    },
                }
            } else {
                let far = if outgoing {
                    storage.get_out_edges(rest[i].id.as_str(), edge_label)
                } else {
                    storage.get_in_edges(rest[i].id.as_str(), edge_label)
                };
                match far {
                    Ok(es) => {
                        new_current.push(TraversalValue::EdgeArray(es));
                        proof {
                            assert(step_edges_cell_ok(*storage, rest@[i as int]@.id,
                                edge_label@, outgoing, new_current@[i as int]));
                        }
                    },
                    Err(_) => {
                        proof {
                            assert(false);
                        }
                    },
                }
            }
            i = i + 1;
        }
        self.current_step = new_current;
        proof {
            if step0[0] is NodeArray {
                assert(step0[0] == TraversalValue::NodeArray(rest));
            }
        }
    }
}

} // verus!
