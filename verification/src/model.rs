//! The model: the complete, immutable collection of nodes loaded from one
//! directory, and the edge list computed from it on demand.
//!
//! Loading is all-or-nothing: the moment any single entry cannot be read and
//! parsed, the whole load fails and no partial node list is returned. Nodes
//! keep the order in which the directory enumeration yielded them; that order
//! is platform-dependent and is not normalized.

use vstd::prelude::*;

use rayon::iter::IndexedParallelIterator;
use rayon::iter::IntoParallelRefIterator;
use rayon::iter::ParallelIterator;

use crate::node::Node;
use crate::node::NodeInput;
use crate::node::NodeInputView;
use crate::node::NodeView;
use crate::node::parsed_node;
use crate::refs::connections_of;
use crate::text::clone_bytes;

verus! {

/// Why a model could not be loaded.
#[derive(Debug, Clone, Copy, PartialEq, Eq)]
pub enum OpenModelError {
    /// The configured path could not be enumerated as a directory.
    NotADir,
    /// Some entry could not be read and parsed; the whole load fails.
    CantParseNode,
}

/// The complete, immutable collection of nodes loaded from one directory.
pub struct Model {
    nodes: Vec<Node>,
}

impl Clone for Model {
    /// A cloned model holds the same node values.
    fn clone(&self) -> (r: Self)
        ensures
            r@ == self@,
    {
        Model { nodes: self.get_nodes() }
    }
}

impl View for Model {
    type V = Seq<NodeView>;

    closed spec fn view(&self) -> Seq<NodeView> {
        self.nodes.deep_view()
    }
}

/// A directory snapshot loads to exactly the node sequence `m`: the directory
/// could be enumerated, every entry could be read, and each entry parsed to
/// its node, in enumeration order.
pub open spec fn loads_to(dir: Option<Seq<Option<NodeInputView>>>, m: Seq<NodeView>) -> bool {
    &&& dir matches Some(entries)
    &&& m.len() == entries.len()
    &&& forall|k: int|
        0 <= k < entries.len() ==> ((#[trigger] entries[k]) matches Some(iv) && m[k]
            == parsed_node(iv))
}

/// Loading the same directory snapshot twice yields node sequences with
/// identical field values.
pub proof fn lemma_load_idempotent(
    dir: Option<Seq<Option<NodeInputView>>>,
    m1: Seq<NodeView>,
    m2: Seq<NodeView>,
)
    requires
        loads_to(dir, m1),
        loads_to(dir, m2),
    ensures
        m1 == m2,
{
    match dir {
        Some(es) => {
            assert forall|k: int| 0 <= k < m1.len() implies m1[k] == m2[k] by {
                assert(es[k] matches Some(iv) && m1[k] == parsed_node(iv));
                assert(es[k] matches Some(iv2) && m2[k] == parsed_node(iv2));
            }
            assert(m1 =~= m2);
        },
        None => {
            assert(false);
        },
    }
}

/// The edges contributed by one node: one `[source id, referenced id]` pair
/// per referenced id, in scan order.
pub open spec fn node_edges(n: NodeView) -> Seq<Seq<Seq<u8>>> {
    connections_of(n.short, n.long).map(|k: int, c: Seq<u8>| seq![n.id, c])
}

/// The full edge list of a node sequence: each node's edges in turn, in node
/// order.
pub open spec fn edges_of(nodes: Seq<NodeView>) -> Seq<Seq<Seq<u8>>> {
    nodes.map_values(|n: NodeView| node_edges(n)).flatten()
}

/// How many references the nodes make in all.
pub open spec fn connection_count(nodes: Seq<NodeView>) -> nat
    decreases nodes.len(),
{
    if nodes.len() == 0 {
        0
    } else {
        connections_of(nodes[0].short, nodes[0].long).len() + connection_count(nodes.drop_first())
    }
}

/// The edge list of a non-empty node sequence opens with the first node's
/// edges, followed by the edges of the rest.
proof fn lemma_edges_of_unfold(nodes: Seq<NodeView>)
    requires
        nodes.len() > 0,
    ensures
        edges_of(nodes) == node_edges(nodes[0]) + edges_of(nodes.drop_first()),
{
    let f = |n: NodeView| node_edges(n);
    assert(nodes.map_values(f).drop_first() =~= nodes.drop_first().map_values(f));
    assert(nodes.map_values(f).first() == node_edges(nodes[0]));
}

/// A model of `N` nodes where node `i` makes `k_i` references yields exactly
/// `k_1 + ... + k_N` edges.
pub proof fn lemma_edge_count(nodes: Seq<NodeView>)
    ensures
        edges_of(nodes).len() == connection_count(nodes),
    decreases nodes.len(),
{
    let f = |n: NodeView| node_edges(n);
    if nodes.len() == 0 {
        assert(nodes.map_values(f) =~= Seq::<Seq<Seq<Seq<u8>>>>::empty());
    } else {
        lemma_edge_count(nodes.drop_first());
        lemma_edges_of_unfold(nodes);
    }
}

/// The edge list is grouped by source in model order: node `i` contributes
/// one contiguous block, standing after all edges of the earlier nodes and
/// before all edges of the later ones, and each edge in the block pairs that
/// node's id with one referenced id, in scan order.
pub proof fn lemma_edges_grouped(nodes: Seq<NodeView>, i: int)
    requires
        0 <= i < nodes.len(),
    ensures
        edges_of(nodes) == edges_of(nodes.take(i)) + node_edges(nodes[i]) + edges_of(
            nodes.skip(i + 1),
        ),
        forall|j: int|
            0 <= j < node_edges(nodes[i]).len() ==> (#[trigger] node_edges(nodes[i])[j])
                == seq![nodes[i].id, connections_of(nodes[i].short, nodes[i].long)[j]],
    decreases i,
{
    let f = |n: NodeView| node_edges(n);
    lemma_edges_of_unfold(nodes);
    if i == 0 {
        assert(nodes.take(0) =~= Seq::<NodeView>::empty());
        assert(nodes.take(0).map_values(f) =~= Seq::<Seq<Seq<Seq<u8>>>>::empty());
        assert(edges_of(nodes.take(0)) =~= Seq::<Seq<Seq<u8>>>::empty());
        assert(nodes.skip(1) =~= nodes.drop_first());
        assert(edges_of(nodes.take(0)) + node_edges(nodes[0]) =~= node_edges(nodes[0]));
    } else {
        let rest = nodes.drop_first();
        lemma_edges_grouped(rest, i - 1);
        lemma_edges_of_unfold(nodes.take(i));
        assert(nodes.take(i).drop_first() =~= rest.take(i - 1));
        assert(rest.skip(i) =~= nodes.skip(i + 1));
        assert(rest[i - 1] == nodes[i]);
        assert(node_edges(nodes[0]) + (edges_of(rest.take(i - 1)) + node_edges(nodes[i])
            + edges_of(nodes.skip(i + 1))) =~= (node_edges(nodes[0]) + edges_of(rest.take(i - 1)))
            + node_edges(nodes[i]) + edges_of(nodes.skip(i + 1)));
    }
}

/// One more node extends the edge list by exactly that node's edges.
proof fn lemma_edges_take_step(nodes: Seq<NodeView>, i: int)
    requires
        0 <= i < nodes.len(),
    ensures
        edges_of(nodes.take(i + 1)) == edges_of(nodes.take(i)) + node_edges(nodes[i]),
{
    let f = |n: NodeView| node_edges(n);
    assert(nodes.take(i + 1).map_values(f) =~= nodes.take(i).map_values(f).push(
        node_edges(nodes[i]),
    ));
    nodes.take(i).map_values(f).lemma_flatten_push(node_edges(nodes[i]));
}

/// Relies on rayon's `par_iter().map(..).collect_into_vec(..)`: it fills the
/// output with exactly one entry per input node, in input order, whatever the
/// parallel scheduling; the mapped closure only calls the verified
/// `Node::get_connections`.
#[verifier::external_body]
fn par_connections(nodes: &Vec<Node>) -> (r: Vec<Vec<Vec<u8>>>)
    ensures
        r@.len() == nodes@.len(),
        forall|i: int|
            0 <= i < nodes@.len() ==> (#[trigger] r@[i]).deep_view() == connections_of(
                nodes@[i]@.short,
                nodes@[i]@.long,
            ),
{
    let mut r = Vec::new();
    nodes.par_iter().map(|n| n.get_connections()).collect_into_vec(&mut r);
    r
}

impl Model {
    /// Load a model from one directory snapshot. `None` stands for a path
    /// that could not be enumerated as a directory; a `None` entry stands for
    /// an entry whose name or content could not be read. The load fails fast:
    /// any unreadable entry fails the whole load, and on success there is
    /// exactly one node per entry, in enumeration order.
    #[verifier::loop_isolation(false)]
    pub fn read(dir: Option<Vec<Option<NodeInput>>>) -> (r: Result<Model, OpenModelError>)
        ensures
            match r {
                Ok(m) => loads_to(dir.deep_view(), m@),
                Err(e) => match e {
                    OpenModelError::NotADir => dir is None,
                    OpenModelError::CantParseNode => dir.deep_view() matches Some(es)
                        && exists|k: int| 0 <= k < es.len() && es[k] is None,
                },
            },
    {
        match &dir {
            None => Err(OpenModelError::NotADir),
            Some(entries) => {
                let mut nodes: Vec<Node> = Vec::new();
                let mut i: usize = 0;
                while i < entries.len()
                    invariant
                        0 <= i <= entries@.len(),
                        nodes.deep_view().len() == i,
                        forall|k: int|
                            0 <= k < i ==> ((#[trigger] entries.deep_view()[k]) matches Some(
                            iv) && nodes.deep_view()[k] == parsed_node(iv)),
                    decreases entries@.len() - i,
                {
                    match &entries[i] {
                        Some(inp) => {
                            let ghost nodes0 = nodes.deep_view();
                            let node = Node::parse(inp);
                            nodes.push(node);
                            proof {
                                assert(nodes.deep_view() =~= nodes0.push(node@));
                                assert(entries.deep_view()[i as int] == Some(inp@));
                            }
                        },
                        None => {
                            proof {
                                assert(dir.deep_view() == Some(entries.deep_view()));
                                assert(entries.deep_view()[i as int] is None);
                                assert(exists|k: int|
                                    0 <= k < entries.deep_view().len()
                                        && entries.deep_view()[k] is None);
                            }
                            return Err(OpenModelError::CantParseNode);
                        },
                    }
                    i += 1;
                }
                Ok(Model { nodes })
            },
        }
    }

    /// A copy of the node sequence, in load order.
    pub fn get_nodes(&self) -> (r: Vec<Node>)
        ensures
            r.deep_view() == self@,
    {
        let mut r: Vec<Node> = Vec::new();
        let mut i: usize = 0;
        while i < self.nodes.len()
            invariant
                0 <= i <= self.nodes@.len(),
                r.deep_view() =~= self@.take(i as int),
            decreases self.nodes@.len() - i,
        {
            let ghost r0 = r.deep_view();
            r.push(self.nodes[i].clone());
            proof {
                assert(r.deep_view() =~= r0.push(self.nodes@[i as int]@));
                assert(r.deep_view() =~= self@.take(i as int + 1));
            }
            i += 1;
        }
        proof {
            assert(self@.take(self@.len() as int) =~= self@);
        }
        r
    }

    /// The full edge list: for every node, one `[source id, referenced id]`
    /// pair per reference its text makes, concatenated in model node order.
    /// Extraction runs in parallel across nodes; the output does not depend
    /// on the scheduling. Edges are not deduplicated and targets are not
    /// checked to name existing nodes.
    #[verifier::loop_isolation(false)]
    pub fn get_edges(&self) -> (r: Vec<Vec<Vec<u8>>>)
        ensures
            r.deep_view() == edges_of(self@),
    {
        let conns = par_connections(&self.nodes);
        let mut edges: Vec<Vec<Vec<u8>>> = Vec::new();
        let mut i: usize = 0;
        proof {
            assert(self@.take(0) =~= Seq::<NodeView>::empty());
            assert(Seq::<NodeView>::empty().map_values(
                |n: NodeView| node_edges(n),
            ) =~= Seq::<Seq<Seq<Seq<u8>>>>::empty());
            assert(edges.deep_view() =~= edges_of(self@.take(0)));
        }
        while i < self.nodes.len()
            invariant
                0 <= i <= self.nodes@.len(),
                self@.len() == self.nodes@.len(),
                conns@.len() == self.nodes@.len(),
                forall|t: int|
                    0 <= t < self.nodes@.len() ==> (#[trigger] conns@[t]).deep_view()
                        == connections_of(self.nodes@[t]@.short, self.nodes@[t]@.long),
                edges.deep_view() == edges_of(self@.take(i as int)),
            decreases self.nodes@.len() - i,
        {
            let node_conns = &conns[i];
            let mut j: usize = 0;
            while j < node_conns.len()
                invariant
                    0 <= i < self.nodes@.len(),
                    self@.len() == self.nodes@.len(),
                    0 <= j <= node_conns@.len(),
                    node_conns.deep_view() == connections_of(
                        self.nodes@[i as int]@.short,
                        self.nodes@[i as int]@.long,
                    ),
                    edges.deep_view() == edges_of(self@.take(i as int)) + node_edges(
                        self@[i as int],
                    ).take(j as int),
                decreases node_conns@.len() - j,
            {
                let ghost edges0 = edges.deep_view();
                let mut pair: Vec<Vec<u8>> = Vec::new();
                pair.push(clone_bytes(&self.nodes[i].id));
                pair.push(clone_bytes(&node_conns[j]));
                edges.push(pair);
                proof {
                    assert(pair.deep_view() =~~= node_edges(self@[i as int])[j as int]);
                    assert(edges.deep_view() =~= edges0.push(pair.deep_view()));
                    assert(node_edges(self@[i as int]).take(j as int + 1) =~= node_edges(
                        self@[i as int],
                    ).take(j as int).push(node_edges(self@[i as int])[j as int]));
                    assert(edges.deep_view() =~= edges_of(self@.take(i as int)) + node_edges(
                        self@[i as int],
                    ).take(j as int + 1));
                }
                j += 1;
            }
            proof {
                lemma_edges_take_step(self@, i as int);
                assert(node_edges(self@[i as int]).take(node_conns@.len() as int) =~= node_edges(
                    self@[i as int],
                ));
            }
            i += 1;
        }
        proof {
            assert(self@.take(self@.len() as int) =~= self@);
        }
        edges
    }
}

} // verus!
