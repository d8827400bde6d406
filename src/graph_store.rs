use vstd::prelude::*;

use crate::error::MindGraphError;
use crate::geometry::Point;
use petgraph::graph::{NodeIndex, UnGraph};

verus! {

#[verifier::external_type_specification]
#[verifier::external_body]
#[verifier::reject_recursive_types(N)]
#[verifier::reject_recursive_types(E)]
#[verifier::reject_recursive_types(Ty)]
#[verifier::reject_recursive_types(Ix)]
pub struct ExGraph<N, E, Ty, Ix>(petgraph::graph::Graph<N, E, Ty, Ix>);

#[verifier::external_type_specification]
#[verifier::external_body]
pub struct ExUndirected(petgraph::Undirected);

/// Number of nodes held by a petgraph graph.
pub uninterp spec fn topology_node_count(g: UnGraph<(), ()>) -> nat;

/// The edges held by a petgraph graph, as (source, target) node indices, in
/// the order in which they were added.
pub uninterp spec fn topology_edges(g: UnGraph<(), ()>) -> Seq<(nat, nat)>;

/// The largest number of nodes, and of edges, that a petgraph graph with
/// 32-bit indices holds.
pub const TOPOLOGY_LIMIT: usize = 0xffff_ffff;

/// Targets of the edges whose source is `a`, newest edge first.
pub open spec fn out_neighbors(edges: Seq<(nat, nat)>, a: nat) -> Seq<nat>
    decreases edges.len(),
{
    if edges.len() == 0 {
        seq![]
    } else {
        let e = edges.last();
        let rest = out_neighbors(edges.drop_last(), a);
        if e.0 == a {
            seq![e.1] + rest
        } else {
            rest
        }
    }
}

/// Sources of the edges whose target is `a` and whose source is another
/// node, newest edge first.
pub open spec fn in_neighbors(edges: Seq<(nat, nat)>, a: nat) -> Seq<nat>
    decreases edges.len(),
{
    if edges.len() == 0 {
        seq![]
    } else {
        let e = edges.last();
        let rest = in_neighbors(edges.drop_last(), a);
        if e.1 == a && e.0 != a {
            seq![e.0] + rest
        } else {
            rest
        }
    }
}

/// The neighbours of `a` in the order petgraph walks an undirected node's
/// adjacency lists: first its outgoing list, then its incoming list, each
/// newest edge first.
pub open spec fn adjacency(edges: Seq<(nat, nat)>, a: nat) -> Seq<nat> {
    out_neighbors(edges, a) + in_neighbors(edges, a)
}

/// Relies on petgraph's `Graph::new_undirected`: the graph starts empty.
#[verifier::external_body]
fn topology_new() -> (g: UnGraph<(), ()>)
    ensures
        topology_node_count(g) == 0,
        topology_edges(g) == Seq::<(nat, nat)>::empty(),
{
    UnGraph::new_undirected()
}

/// Relies on petgraph's `Graph::add_node`: the new node takes the next index
/// and no edge changes. It panics when the node count reaches the index
/// type's maximum, which `requires` excludes.
#[verifier::external_body]
fn topology_add_node(g: &mut UnGraph<(), ()>) -> (r: usize)
    requires
        topology_node_count(*old(g)) < TOPOLOGY_LIMIT,
    ensures
        r == topology_node_count(*old(g)),
        topology_node_count(*final(g)) == topology_node_count(*old(g)) + 1,
        topology_edges(*final(g)) == topology_edges(*old(g)),
{
    g.add_node(()).index()
}

/// Relies on petgraph's `Graph::add_edge`: the edge (a, b) is appended and no
/// node changes. It panics on an index out of bounds or when the edge count
/// reaches the index type's maximum, which `requires` excludes.
#[verifier::external_body]
fn topology_add_edge(g: &mut UnGraph<(), ()>, a: usize, b: usize)
    requires
        a < topology_node_count(*old(g)),
        b < topology_node_count(*old(g)),
        topology_edges(*old(g)).len() < TOPOLOGY_LIMIT,
    ensures
        topology_node_count(*final(g)) == topology_node_count(*old(g)),
        topology_edges(*final(g)) == topology_edges(*old(g)).push((a as nat, b as nat)),
{
    g.add_edge(NodeIndex::new(a), NodeIndex::new(b), ());
}

/// Relies on petgraph's `Graph::neighbors` on an undirected graph: its
/// iterator walks the node's outgoing edge list and then its incoming list
/// (skipping self-loops there). `Graph::add_edge` links each new edge at the
/// head of both lists, and graphs here only ever grow (nothing is removed),
/// so each list runs newest edge first.
#[verifier::external_body]
fn topology_neighbors(g: &UnGraph<(), ()>, a: usize) -> (r: Vec<usize>)
    requires
        a < topology_node_count(*g),
    ensures
        r@.map_values(|i: usize| i as nat) == adjacency(topology_edges(*g), a as nat),
{
    g.neighbors(NodeIndex::new(a)).map(|n| n.index()).collect()
}

/// Relies on petgraph's `Graph::edge_count`: the number of edges held.
#[verifier::external_body]
fn topology_edge_count(g: &UnGraph<(), ()>) -> (r: usize)
    ensures
        r == topology_edges(*g).len(),
{
    g.edge_count()
}

/// Radius that every node is created with.
pub const NODE_RADIUS: i32 = 65;

/// One idea of the mind map, drawn as a circle.
pub struct Circle {
    /// Center of the circle; recomputed whenever the node orbits the focus.
    pub position: Point,
    pub radius: i32,
    /// Short label shown above the circle.
    pub title: String,
    /// Longer free text, shown for the focus node only.
    pub notes: String,
}

/// What a `Circle` holds, as mathematical values.
pub struct CircleView {
    pub position: Point,
    pub radius: int,
    pub title: Seq<char>,
    pub notes: Seq<char>,
}

impl View for Circle {
    type V = CircleView;

    open spec fn view(&self) -> CircleView {
        CircleView {
            position: self.position,
            radius: self.radius as int,
            title: self.title@,
            notes: self.notes@,
        }
    }
}

/// A freshly created node: empty title and notes, the standard radius.
pub open spec fn blank_circle(position: Point) -> CircleView {
    CircleView { position, radius: NODE_RADIUS as int, title: seq![], notes: seq![] }
}

/// The node `c` moved to `p`.
pub open spec fn moved(c: CircleView, p: Point) -> CircleView {
    CircleView { position: p, ..c }
}

/// Edge `j` joins node `j + 1` to a node created before it.
pub open spec fn creation_edges(edges: Seq<(nat, nat)>) -> bool {
    forall|j: int| 0 <= j < edges.len() ==> (#[trigger] edges[j]).1 == j + 1 && edges[j].0 < j + 1
}

/// Edges that make a tree of `n` nodes rooted at node 0, in which each node
/// but the root was created from an older one.
pub open spec fn tree_edges(edges: Seq<(nat, nat)>, n: nat) -> bool {
    &&& n >= 1
    &&& edges.len() + 1 == n
    &&& creation_edges(edges)
}

/// Some edge joins `a` and `b`, in either direction.
pub open spec fn linked(edges: Seq<(nat, nat)>, a: nat, b: nat) -> bool {
    exists|j: int| 0 <= j < edges.len() && (#[trigger] edges[j] == (a, b) || edges[j] == (b, a))
}

/// `w` is a non-empty walk: each two consecutive nodes of it are linked.
pub open spec fn is_walk(edges: Seq<(nat, nat)>, w: Seq<nat>) -> bool {
    &&& w.len() >= 1
    &&& forall|i: int| 0 <= i < w.len() - 1 ==> linked(edges, #[trigger] w[i], w[i + 1])
}

/// Some walk leads from `a` to `b`.
pub open spec fn connected(edges: Seq<(nat, nat)>, a: nat, b: nat) -> bool {
    exists|w: Seq<nat>| is_walk(edges, w) && w[0] == a && #[trigger] w.last() == b
}

/// Every node created by `edges` can be reached from the root.
proof fn lemma_walk_from_root(edges: Seq<(nat, nat)>, v: nat)
    requires
        creation_edges(edges),
        v <= edges.len(),
    ensures
        connected(edges, 0, v),
    decreases v,
{
    if v == 0 {
        let w = seq![0nat];
        assert(is_walk(edges, w) && w[0] == 0 && w.last() == v);
    } else {
        let p = edges[v - 1].0;
        lemma_walk_from_root(edges, p);
        let w = choose|w: Seq<nat>| is_walk(edges, w) && w[0] == 0 && #[trigger] w.last() == p;
        let w2 = w.push(v);
        assert(edges[v - 1] == (p, v));
        assert forall|i: int| 0 <= i < w2.len() - 1 implies linked(edges, #[trigger] w2[i], w2[i + 1]) by {
            if i < w.len() - 1 {
                assert(w2[i] == w[i] && w2[i + 1] == w[i + 1]);
            } else {
                assert(w2[i] == p && w2[i + 1] == v);
            }
        }
        assert(is_walk(edges, w2) && w2[0] == 0 && w2.last() == v);
    }
}

/// The nodes created from `a` come out newest first: each is newer than `a`,
/// and they strictly decrease.
proof fn lemma_out_neighbors(edges: Seq<(nat, nat)>, a: nat)
    requires
        creation_edges(edges),
    ensures
        forall|i: int|
            0 <= i < out_neighbors(edges, a).len() ==> a < #[trigger] out_neighbors(edges, a)[i]
                <= edges.len(),
        forall|i: int, k: int|
            0 <= i < k < out_neighbors(edges, a).len() ==> #[trigger] out_neighbors(edges, a)[i]
                > #[trigger] out_neighbors(edges, a)[k],
    decreases edges.len(),
{
    if edges.len() > 0 {
        let rest = edges.drop_last();
        assert(creation_edges(rest)) by {
            assert forall|j: int| 0 <= j < rest.len() implies (#[trigger] rest[j]).1 == j + 1
                && rest[j].0 < j + 1 by {
                assert(rest[j] == edges[j]);
            }
        }
        lemma_out_neighbors(rest, a);
        let e = edges.last();
        assert(edges[edges.len() - 1] == e);
        let o = out_neighbors(edges, a);
        let ro = out_neighbors(rest, a);
        if e.0 == a {
            assert(o == seq![e.1] + ro);
            assert forall|i: int| 0 <= i < o.len() implies a < #[trigger] o[i] <= edges.len() by {
                if i > 0 {
                    assert(o[i] == ro[i - 1]);
                }
            }
            assert forall|i: int, k: int| 0 <= i < k < o.len() implies #[trigger] o[i]
                > #[trigger] o[k] by {
                assert(o[k] == ro[k - 1]);
                if i > 0 {
                    assert(o[i] == ro[i - 1]);
                }
            }
        } else {
            assert(o == ro);
        }
    }
}

/// Only the edge that created `a` enters it.
proof fn lemma_in_neighbors(edges: Seq<(nat, nat)>, a: nat)
    requires
        creation_edges(edges),
    ensures
        in_neighbors(edges, a) == (if 1 <= a <= edges.len() {
            seq![edges[a - 1].0]
        } else {
            Seq::<nat>::empty()
        }),
    decreases edges.len(),
{
    if edges.len() > 0 {
        let rest = edges.drop_last();
        assert(creation_edges(rest)) by {
            assert forall|j: int| 0 <= j < rest.len() implies (#[trigger] rest[j]).1 == j + 1
                && rest[j].0 < j + 1 by {
                assert(rest[j] == edges[j]);
            }
        }
        lemma_in_neighbors(rest, a);
        assert(edges[edges.len() - 1] == edges.last());
        if 1 <= a <= rest.len() {
            assert(rest[a - 1] == edges[a - 1]);
        }
    }
}

/// In a tree, the neighbours of a node are distinct nodes of the tree, other
/// than the node itself.
pub(crate) proof fn lemma_adjacency_distinct(edges: Seq<(nat, nat)>, n: nat, a: nat)
    requires
        tree_edges(edges, n),
        a < n,
    ensures
        adjacency(edges, a).no_duplicates(),
        forall|i: int|
            0 <= i < adjacency(edges, a).len() ==> #[trigger] adjacency(edges, a)[i] < n
                && adjacency(edges, a)[i] != a,
{
    lemma_out_neighbors(edges, a);
    lemma_in_neighbors(edges, a);
    let o = out_neighbors(edges, a);
    let adj = adjacency(edges, a);
    if 1 <= a {
        assert(edges[a - 1].0 < a);
    }
    assert forall|i: int| 0 <= i < adj.len() implies #[trigger] adj[i] < n && adj[i] != a by {
        if i < o.len() {
            assert(adj[i] == o[i]);
        }
    }
    assert forall|i: int, k: int| 0 <= i < adj.len() && 0 <= k < adj.len() && i != k implies adj[i]
        != adj[k] by {
        if i < o.len() && k < o.len() {
            if i < k {
                assert(o[i] > o[k]);
            } else {
                assert(o[k] > o[i]);
            }
        } else if i < o.len() {
            assert(adj[i] == o[i]);
        } else if k < o.len() {
            assert(adj[k] == o[k]);
        }
    }
}

/// Tree-shaped edges over `n` nodes number one fewer than the nodes, and
/// every node can be reached from the root.
pub proof fn lemma_tree_shape(edges: Seq<(nat, nat)>, n: nat)
    requires
        tree_edges(edges, n),
    ensures
        edges.len() == n - 1,
        forall|v: nat| v < n ==> #[trigger] connected(edges, 0, v),
{
    assert forall|v: nat| v < n implies #[trigger] connected(edges, 0, v) by {
        lemma_walk_from_root(edges, v);
    }
}

/// The graph store: the topology lives in a petgraph undirected graph, the
/// node data in a vector indexed by the same node indices.
pub struct CircleGraph {
    topology: UnGraph<(), ()>,
    circles: Vec<Circle>,
}

impl CircleGraph {
    /// The nodes, by index.
    pub closed spec fn circles(&self) -> Seq<CircleView> {
        self.circles@.map_values(|c: Circle| c@)
    }

    /// The edges, as (older node, newer node), in creation order.
    pub closed spec fn edges(&self) -> Seq<(nat, nat)> {
        topology_edges(self.topology)
    }

    /// The topology and the node data describe the same nodes.
    pub closed spec fn in_sync(&self) -> bool {
        topology_node_count(self.topology) == self.circles@.len()
    }

    pub open spec fn node_total(&self) -> nat {
        self.circles().len()
    }

    /// The neighbours of node `a`, in enumeration order: the nodes created
    /// from `a`, newest first, then the node `a` was created from.
    pub open spec fn neighbor_seq(&self, a: nat) -> Seq<nat> {
        adjacency(self.edges(), a)
    }

    pub open spec fn wf(&self) -> bool {
        &&& self.in_sync()
        &&& tree_edges(self.edges(), self.node_total())
    }

    /// A graph holding only a root node, centered at `position`.
    pub fn with_root(position: Point) -> (g: Self)
        ensures
            g.wf(),
            g.circles() == seq![blank_circle(position)],
            g.edges() == Seq::<(nat, nat)>::empty(),
    {
        let mut topology = topology_new();
        let root = topology_add_node(&mut topology);
        let mut circles: Vec<Circle> = Vec::new();
        circles.push(
            Circle {
                position,
                radius: NODE_RADIUS,
                title: String::new(),
                notes: String::new(),
            },
        );
        let g = CircleGraph { topology, circles };
        assert(g.circles() =~= seq![blank_circle(position)]);
        g
    }

    /// Adds a node with empty title and notes, created from `parent`: it is
    /// joined to `parent` by a new edge. Fails if `parent` is not a node.
    pub fn add_node(&mut self, parent: usize) -> (r: Result<usize, MindGraphError>)
        requires
            old(self).wf(),
            old(self).node_total() < TOPOLOGY_LIMIT,
        ensures
            final(self).wf(),
            parent < old(self).node_total() ==> {
                &&& r == Ok::<usize, MindGraphError>(old(self).node_total() as usize)
                &&& final(self).circles() == old(self).circles().push(
                    blank_circle(Point { x: 0, y: 0 }),
                )
                &&& final(self).edges() == old(self).edges().push(
                    (parent as nat, old(self).node_total()),
                )
            },
            parent >= old(self).node_total() ==> {
                &&& r == Err::<usize, MindGraphError>(MindGraphError::InvalidParent)
                &&& *final(self) == *old(self)
            },
    {
        if parent >= self.circles.len() {
            return Err(MindGraphError::InvalidParent);
        }
        Ok(self.push_child(parent))
    }

    /// Adds a node created from the existing node `parent`.
    pub(crate) fn push_child(&mut self, parent: usize) -> (id: usize)
        requires
            old(self).wf(),
            old(self).node_total() < TOPOLOGY_LIMIT,
            parent < old(self).node_total(),
        ensures
            final(self).wf(),
            id == old(self).node_total(),
            final(self).circles() == old(self).circles().push(blank_circle(Point { x: 0, y: 0 })),
            final(self).edges() == old(self).edges().push((parent as nat, old(self).node_total())),
    {
        let id = topology_add_node(&mut self.topology);
        topology_add_edge(&mut self.topology, parent, id);
        self.circles.push(
            Circle {
                position: Point { x: 0, y: 0 },
                radius: NODE_RADIUS,
                title: String::new(),
                notes: String::new(),
            },
        );
        assert(self.circles() =~= old(self).circles().push(blank_circle(Point { x: 0, y: 0 })));
        assert(creation_edges(self.edges())) by {
            let e = self.edges();
            assert forall|j: int| 0 <= j < e.len() implies (#[trigger] e[j]).1 == j + 1 && e[j].0
                < j + 1 by {
                if j < e.len() - 1 {
                    assert(e[j] == old(self).edges()[j]);
                }
            }
        }
        id
    }

    /// The node `id`, which must exist.
    pub fn node(&self, id: usize) -> (r: &Circle)
        requires
            id < self.node_total(),
        ensures
            r@ == self.circles()[id as int],
    {
        &self.circles[id]
    }

    /// The node `id`, or `NotFound` if there is none.
    pub fn get(&self, id: usize) -> (r: Result<&Circle, MindGraphError>)
        ensures
            id < self.node_total() ==> r is Ok && r->Ok_0@ == self.circles()[id as int],
            id >= self.node_total() ==> r == Err::<&Circle, MindGraphError>(
                MindGraphError::NotFound,
            ),
    {
        if id < self.circles.len() {
            Ok(&self.circles[id])
        } else {
            Err(MindGraphError::NotFound)
        }
    }

    /// The neighbours of `id`, in enumeration order (see `neighbor_seq`).
    pub fn neighbors(&self, id: usize) -> (r: Vec<usize>)
        requires
            self.wf(),
            id < self.node_total(),
        ensures
            r@.map_values(|i: usize| i as nat) == self.neighbor_seq(id as nat),
            r@.no_duplicates(),
            forall|i: int| 0 <= i < r.len() ==> #[trigger] r[i] < self.node_total() && r[i] != id,
    {
        let r = topology_neighbors(&self.topology, id);
        proof {
            lemma_adjacency_distinct(self.edges(), self.node_total(), id as nat);
            let m = r@.map_values(|i: usize| i as nat);
            assert forall|i: int| 0 <= i < r.len() implies #[trigger] r[i] < self.node_total()
                && r[i] != id by {
                assert(m[i] == r[i] as nat);
            }
            assert forall|i: int, k: int| 0 <= i < r.len() && 0 <= k < r.len() && i != k implies r[i]
                != r[k] by {
                assert(m[i] == r[i] as nat && m[k] == r[k] as nat);
            }
        }
        r
    }

    /// Moves node `id` to `p`; nothing else changes.
    pub(crate) fn set_position(&mut self, id: usize, p: Point)
        requires
            old(self).wf(),
            id < old(self).node_total(),
        ensures
            final(self).wf(),
            final(self).edges() == old(self).edges(),
            final(self).circles() == old(self).circles().update(
                id as int,
                moved(old(self).circles()[id as int], p),
            ),
    {
        self.circles[id].position = p;
        assert(self.circles() =~= old(self).circles().update(
            id as int,
            moved(old(self).circles()[id as int], p),
        ));
    }

    /// Replaces the title of node `id`; fails with `NotFound` if there is no
    /// such node.
    pub fn set_title(&mut self, id: usize, title: String) -> (r: Result<(), MindGraphError>)
        requires
            old(self).wf(),
        ensures
            final(self).wf(),
            final(self).edges() == old(self).edges(),
            id < old(self).node_total() ==> r is Ok && final(self).circles() == old(
                self,
            ).circles().update(id as int, CircleView { title: title@, ..old(self).circles()[id as int] }),
            id >= old(self).node_total() ==> r == Err::<(), MindGraphError>(
                MindGraphError::NotFound,
            ) && *final(self) == *old(self),
    {
        if id >= self.circles.len() {
            return Err(MindGraphError::NotFound);
        }
        self.circles[id].title = title;
        assert(self.circles() =~= old(self).circles().update(
            id as int,
            CircleView { title: title@, ..old(self).circles()[id as int] },
        ));
        Ok(())
    }

    /// Replaces the notes of node `id`; fails with `NotFound` if there is no
    /// such node.
    pub fn set_notes(&mut self, id: usize, notes: String) -> (r: Result<(), MindGraphError>)
        requires
            old(self).wf(),
        ensures
            final(self).wf(),
            final(self).edges() == old(self).edges(),
            id < old(self).node_total() ==> r is Ok && final(self).circles() == old(
                self,
            ).circles().update(id as int, CircleView { notes: notes@, ..old(self).circles()[id as int] }),
            id >= old(self).node_total() ==> r == Err::<(), MindGraphError>(
                MindGraphError::NotFound,
            ) && *final(self) == *old(self),
    {
        if id >= self.circles.len() {
            return Err(MindGraphError::NotFound);
        }
        self.circles[id].notes = notes;
        assert(self.circles() =~= old(self).circles().update(
            id as int,
            CircleView { notes: notes@, ..old(self).circles()[id as int] },
        ));
        Ok(())
    }

    /// Number of nodes.
    pub fn node_count(&self) -> (r: usize)
        ensures
            r == self.node_total(),
    {
        self.circles.len()
    }

    /// Number of edges.
    pub fn edge_count(&self) -> (r: usize)
        ensures
            r == self.edges().len(),
    {
        topology_edge_count(&self.topology)
    }
}

} // verus!
