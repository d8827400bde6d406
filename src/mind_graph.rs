use vstd::prelude::*;

use crate::error::MindGraphError;
use crate::geometry::{inside_circle, translate, Point};
use crate::graph_store::{
    adjacency, blank_circle, connected, lemma_adjacency_distinct, lemma_tree_shape, moved,
    tree_edges, CircleGraph, CircleView, TOPOLOGY_LIMIT,
};
use crate::layout::{is_orbit, orbit_fits};

verus! {

/// Distance from the focus at which its neighbours are placed.
pub const ORBIT_RADIUS: i32 = 300;

/// Where the root node starts.
pub const ROOT_X: i32 = 200;

pub const ROOT_Y: i32 = 200;

/// What a `MindGraph` holds, as mathematical values.
pub struct MindGraphView {
    pub circles: Seq<CircleView>,
    pub edges: Seq<(nat, nat)>,
    pub focus: nat,
    pub original: nat,
    pub orbit_radius: int,
}

/// The neighbours of the focus, in enumeration order.
pub open spec fn focus_neighbors(v: MindGraphView) -> Seq<nat> {
    adjacency(v.edges, v.focus)
}

/// Center of the focus node.
pub open spec fn focus_center(v: MindGraphView) -> Point {
    v.circles[v.focus as int].position
}

/// A mind map: a tree rooted at the original focus, a focus that is one of
/// its nodes, and the fixed orbit radius.
pub open spec fn valid(v: MindGraphView) -> bool {
    &&& tree_edges(v.edges, v.circles.len())
    &&& v.focus < v.circles.len()
    &&& v.original == 0
    &&& v.orbit_radius == ORBIT_RADIUS
}

/// `orbit` fits the focus of `v`: one offset per neighbour, slot 0 due east at
/// the orbit radius, and each slot in coordinate range.
pub open spec fn orbit_ok(v: MindGraphView, orbit: Seq<Point>) -> bool {
    &&& is_orbit(orbit, focus_neighbors(v).len(), v.orbit_radius)
    &&& orbit_fits(focus_center(v), orbit)
}

/// `new` is `old` after a relayout with `orbit`: neighbour `i` of the focus
/// is moved to the focus's center plus `orbit[i]`; the focus, the other
/// nodes, every title and note, and the topology are left as they were.
pub open spec fn relaid(old: MindGraphView, new: MindGraphView, orbit: Seq<Point>) -> bool {
    let nb = focus_neighbors(old);
    let c = focus_center(old);
    &&& new.edges == old.edges
    &&& new.focus == old.focus
    &&& new.original == old.original
    &&& new.orbit_radius == old.orbit_radius
    &&& new.circles.len() == old.circles.len()
    &&& forall|i: int|
        0 <= i < nb.len() ==> new.circles[#[trigger] nb[i] as int] == moved(
            old.circles[nb[i] as int],
            translate(c, orbit[i]),
        )
    &&& forall|j: int|
        0 <= j < old.circles.len() && !nb.contains(j as nat) ==> #[trigger] new.circles[j]
            == old.circles[j]
}

/// The neighbours of the focus of `v` sit on the orbit described by `orbit`.
pub open spec fn laid_out(v: MindGraphView, orbit: Seq<Point>) -> bool {
    forall|i: int|
        0 <= i < focus_neighbors(v).len() ==> v.circles[#[trigger] focus_neighbors(v)[i] as int].position
            == translate(focus_center(v), orbit[i])
}

/// `v` with a blank node added as a child of the focus.
pub open spec fn with_child(v: MindGraphView) -> MindGraphView {
    MindGraphView {
        circles: v.circles.push(blank_circle(Point { x: 0, y: 0 })),
        edges: v.edges.push((v.focus, v.circles.len())),
        ..v
    }
}

/// `v` with `a` as its focus.
pub open spec fn focused(v: MindGraphView, a: nat) -> MindGraphView {
    MindGraphView { focus: a, ..v }
}

/// `v` with its focus node moved to `p`.
pub open spec fn centered(v: MindGraphView, p: Point) -> MindGraphView {
    MindGraphView {
        circles: v.circles.update(v.focus as int, moved(v.circles[v.focus as int], p)),
        ..v
    }
}

/// `p` lies inside the circle of neighbour `i` of the focus.
pub open spec fn hits(v: MindGraphView, p: Point, i: int) -> bool {
    let c = v.circles[focus_neighbors(v)[i] as int];
    inside_circle(p, c.position, c.radius)
}

/// `r` names the first neighbour of the focus, in enumeration order, whose
/// circle holds `p`, or is `None` when no neighbour's circle holds it.
pub open spec fn is_first_hit(v: MindGraphView, p: Point, r: Option<usize>) -> bool {
    let nb = focus_neighbors(v);
    match r {
        Some(id) => exists|i: int|
            0 <= i < nb.len() && nb[i] == id && #[trigger] hits(v, p, i) && forall|m: int|
                0 <= m < i ==> !#[trigger] hits(v, p, m),
        None => forall|i: int| 0 <= i < nb.len() ==> !#[trigger] hits(v, p, i),
    }
}

/// The mind map: the graph of circles, the node currently in focus, and the
/// node the map was started from.
pub struct MindGraph {
    graph: CircleGraph,
    current_central_node_index: usize,
    original_central_node_index: usize,
    orbit_radius: i32,
}

impl View for MindGraph {
    type V = MindGraphView;

    closed spec fn view(&self) -> MindGraphView {
        MindGraphView {
            circles: self.graph.circles(),
            edges: self.graph.edges(),
            focus: self.current_central_node_index as nat,
            original: self.original_central_node_index as nat,
            orbit_radius: self.orbit_radius as int,
        }
    }
}

impl Default for MindGraph {
    /// A map holding one node, the original focus, centered at
    /// (`ROOT_X`, `ROOT_Y`).
    fn default() -> (g: Self)
        ensures
            g.wf(),
            g@.circles == seq![blank_circle(Point { x: ROOT_X, y: ROOT_Y })],
            g@.edges == Seq::<(nat, nat)>::empty(),
            g@.focus == 0,
            g@.original == 0,
            g@.orbit_radius == ORBIT_RADIUS,
    {
        let graph = CircleGraph::with_root(Point { x: ROOT_X, y: ROOT_Y });
        MindGraph {
            graph,
            current_central_node_index: 0,
            original_central_node_index: 0,
            orbit_radius: ORBIT_RADIUS,
        }
    }
}

impl MindGraph {
    pub closed spec fn store_ok(&self) -> bool {
        self.graph.wf()
    }

    pub open spec fn wf(&self) -> bool {
        &&& self.store_ok()
        &&& valid(self@)
    }

    /// Places each neighbour of the focus on its orbit: neighbour `i`, in
    /// enumeration order, goes to the focus's center plus `orbit[i]`, where
    /// `orbit` gives the slots of `slot_angle` scaled to the orbit radius.
    /// A focus without neighbours moves nothing.
    pub fn recalculate_node_positions(&mut self, orbit: &Vec<Point>)
        requires
            old(self).wf(),
            orbit_ok(old(self)@, orbit@),
        ensures
            final(self).wf(),
            relaid(old(self)@, final(self)@, orbit@),
            laid_out(final(self)@, orbit@),
    {
        let focus = self.current_central_node_index;
        let neighbors = self.graph.neighbors(focus);
        let center = self.graph.node(focus).position;
        let ghost nb = focus_neighbors(old(self)@);
        let ghost start = old(self)@;
        proof {
            assert(neighbors@.map_values(|i: usize| i as nat) == nb);
            assert forall|m: int| 0 <= m < nb.len() implies #[trigger] nb[m] == neighbors[m] as nat by {
                assert(neighbors@.map_values(|i: usize| i as nat)[m] == neighbors[m] as nat);
            }
        }
        let mut i: usize = 0;
        while i < neighbors.len()
            invariant
                self.wf(),
                0 <= i <= neighbors.len(),
                nb.len() == neighbors.len(),
                forall|m: int| 0 <= m < nb.len() ==> #[trigger] nb[m] == neighbors[m] as nat,
                neighbors@.no_duplicates(),
                forall|m: int|
                    0 <= m < neighbors.len() ==> #[trigger] neighbors[m] < start.circles.len()
                        && neighbors[m] != focus,
                focus == start.focus,
                center == focus_center(start),
                orbit.len() == nb.len(),
                orbit_fits(center, orbit@),
                self@.edges == start.edges,
                self@.focus == start.focus,
                self@.original == start.original,
                self@.orbit_radius == start.orbit_radius,
                self@.circles.len() == start.circles.len(),
                forall|m: int|
                    0 <= m < i ==> self@.circles[#[trigger] nb[m] as int] == moved(
                        start.circles[nb[m] as int],
                        translate(center, orbit@[m]),
                    ),
                forall|j: int|
                    0 <= j < start.circles.len() && (forall|m: int|
                        0 <= m < i ==> #[trigger] nb[m] != j as nat) ==> #[trigger] self@.circles[j]
                        == start.circles[j],
            decreases neighbors.len() - i,
        {
            let id = neighbors[i];
            let p = center.offset(orbit[i]);
            let ghost before = self@;
            self.graph.set_position(id, p);
            proof {
                assert(self@.circles == before.circles.update(
                    id as int,
                    moved(before.circles[id as int], p),
                ));
                assert(before.circles[id as int] == start.circles[id as int]) by {
                    assert forall|m: int| 0 <= m < i implies #[trigger] nb[m] != id as nat by {
                        assert(neighbors[m] != neighbors[i as int]);
                    }
                }
                assert forall|j: int|
                    0 <= j < start.circles.len() && (forall|m: int|
                        0 <= m < i + 1 ==> #[trigger] nb[m] != j as nat) implies #[trigger] self@.circles[j]
                    == start.circles[j] by {
                    assert(nb[i as int] != j as nat);
                    assert(before.circles[j] == start.circles[j]);
                }
                assert forall|m: int| 0 <= m < i + 1 implies self@.circles[#[trigger] nb[m] as int]
                    == moved(start.circles[nb[m] as int], translate(center, orbit@[m])) by {
                    if m < i {
                        assert(neighbors[m] != neighbors[i as int]);
                    }
                }
            }
            i += 1;
        }
        proof {
            assert forall|j: int|
                0 <= j < start.circles.len() && !nb.contains(j as nat) implies #[trigger] self@.circles[j]
                == start.circles[j] by {
                assert forall|m: int| 0 <= m < i implies #[trigger] nb[m] != j as nat by {
                    if nb[m] == j as nat {
                        assert(nb.contains(j as nat));
                    }
                }
            }
            assert(focus_center(self@) == center) by {
                assert forall|m: int| 0 <= m < i implies #[trigger] nb[m] != focus as nat by {
                    assert(neighbors[m] != focus);
                }
            }
        }
    }

    /// Adds a blank node as a child of the focus, then lays out the focus's
    /// neighbours, the new node among them, with `orbit`. Returns the new
    /// node's index.
    pub fn add_node(&mut self, orbit: &Vec<Point>) -> (id: usize)
        requires
            old(self).wf(),
            old(self)@.circles.len() < TOPOLOGY_LIMIT,
            orbit_ok(with_child(old(self)@), orbit@),
        ensures
            final(self).wf(),
            id == old(self)@.circles.len(),
            relaid(with_child(old(self)@), final(self)@, orbit@),
            laid_out(final(self)@, orbit@),
    {
        let id = self.graph.push_child(self.current_central_node_index);
        assert(self@ == with_child(old(self)@));
        self.recalculate_node_positions(orbit);
        id
    }

    /// Makes the existing node `new_central_node_index` the focus, then lays
    /// out its neighbours with `orbit`.
    pub fn set_new_central_node(&mut self, new_central_node_index: usize, orbit: &Vec<Point>)
        requires
            old(self).wf(),
            new_central_node_index < old(self)@.circles.len(),
            orbit_ok(focused(old(self)@, new_central_node_index as nat), orbit@),
        ensures
            final(self).wf(),
            relaid(focused(old(self)@, new_central_node_index as nat), final(self)@, orbit@),
            laid_out(final(self)@, orbit@),
    {
        self.current_central_node_index = new_central_node_index;
        assert(self@ == focused(old(self)@, new_central_node_index as nat));
        self.recalculate_node_positions(orbit);
    }

    /// Makes `new_focus` the focus and lays out its neighbours with `orbit`;
    /// fails with `InvalidFocus`, changing nothing, if there is no such node.
    pub fn set_focus(&mut self, new_focus: usize, orbit: &Vec<Point>) -> (r: Result<
        (),
        MindGraphError,
    >)
        requires
            old(self).wf(),
            new_focus < old(self)@.circles.len() ==> orbit_ok(
                focused(old(self)@, new_focus as nat),
                orbit@,
            ),
        ensures
            final(self).wf(),
            new_focus < old(self)@.circles.len() ==> {
                &&& r is Ok
                &&& relaid(focused(old(self)@, new_focus as nat), final(self)@, orbit@)
                &&& laid_out(final(self)@, orbit@)
            },
            new_focus >= old(self)@.circles.len() ==> {
                &&& r == Err::<(), MindGraphError>(MindGraphError::InvalidFocus)
                &&& final(self)@ == old(self)@
            },
    {
        if new_focus >= self.graph.node_count() {
            return Err(MindGraphError::InvalidFocus);
        }
        self.set_new_central_node(new_focus, orbit);
        Ok(())
    }

    /// Moves the focus node to `p` (the middle of the drawing area), then lays
    /// out its neighbours around it with `orbit`.
    pub fn set_central_position(&mut self, p: Point, orbit: &Vec<Point>)
        requires
            old(self).wf(),
            orbit_ok(centered(old(self)@, p), orbit@),
        ensures
            final(self).wf(),
            relaid(centered(old(self)@, p), final(self)@, orbit@),
            laid_out(final(self)@, orbit@),
    {
        self.graph.set_position(self.current_central_node_index, p);
        assert(self@ == centered(old(self)@, p));
        self.recalculate_node_positions(orbit);
    }

    /// The neighbour of the focus hit by a pointer at `p`: the first one, in
    /// enumeration order, whose circle holds `p` strictly inside, even when a
    /// later one's center is nearer. `None` if no neighbour's circle holds it.
    pub fn hit_test(&self, p: Point) -> (r: Option<usize>)
        requires
            self.wf(),
        ensures
            is_first_hit(self@, p, r),
    {
        let neighbors = self.graph.neighbors(self.current_central_node_index);
        let ghost nb = focus_neighbors(self@);
        proof {
            assert forall|m: int| 0 <= m < nb.len() implies #[trigger] nb[m] == neighbors[m] as nat by {
                assert(neighbors@.map_values(|i: usize| i as nat)[m] == neighbors[m] as nat);
            }
        }
        let mut i: usize = 0;
        while i < neighbors.len()
            invariant
                self.wf(),
                0 <= i <= neighbors.len(),
                nb == focus_neighbors(self@),
                nb.len() == neighbors.len(),
                forall|m: int| 0 <= m < nb.len() ==> #[trigger] nb[m] == neighbors[m] as nat,
                forall|m: int| 0 <= m < neighbors.len() ==> #[trigger] neighbors[m] < self@.circles.len(),
                forall|m: int| 0 <= m < i ==> !#[trigger] hits(self@, p, m),
            decreases neighbors.len() - i,
        {
            let c = self.graph.node(neighbors[i]);
            if p.is_inside(c.position, c.radius) {
                assert(hits(self@, p, i as int));
                return Some(neighbors[i]);
            }
            assert(!hits(self@, p, i as int));
            i += 1;
        }
        None
    }

    /// Index of the node in focus.
    pub fn focus(&self) -> (r: usize)
        ensures
            r == self@.focus,
    {
        self.current_central_node_index
    }

    /// Index of the node the map was started from.
    pub fn original_focus(&self) -> (r: usize)
        ensures
            r == self@.original,
    {
        self.original_central_node_index
    }

    /// Distance from the focus at which its neighbours are placed.
    pub fn orbit_radius(&self) -> (r: i32)
        ensures
            r == self@.orbit_radius,
    {
        self.orbit_radius
    }

    /// The graph of circles.
    pub fn graph(&self) -> (r: &CircleGraph)
        ensures
            r.circles() == self@.circles,
            r.edges() == self@.edges,
            self.wf() ==> r.wf(),
    {
        &self.graph
    }

    /// The neighbours of the focus, in enumeration order: these are the nodes
    /// that are drawn around it and that a pointer can select.
    pub fn neighbors_of_focus(&self) -> (r: Vec<usize>)
        requires
            self.wf(),
        ensures
            r@.map_values(|i: usize| i as nat) == focus_neighbors(self@),
    {
        self.graph.neighbors(self.current_central_node_index)
    }

    /// The notes of the focus node.
    pub fn focus_notes(&self) -> (r: &String)
        requires
            self.wf(),
        ensures
            r@ == self@.circles[self@.focus as int].notes,
    {
        &self.graph.node(self.current_central_node_index).notes
    }

    /// Replaces the notes of node `id`; fails with `NotFound`, changing
    /// nothing, if there is no such node.
    pub fn set_notes(&mut self, id: usize, notes: String) -> (r: Result<(), MindGraphError>)
        requires
            old(self).wf(),
        ensures
            final(self).wf(),
            id < old(self)@.circles.len() ==> r is Ok && final(self)@ == (MindGraphView {
                circles: old(self)@.circles.update(
                    id as int,
                    CircleView { notes: notes@, ..old(self)@.circles[id as int] },
                ),
                ..old(self)@
            }),
            id >= old(self)@.circles.len() ==> r == Err::<(), MindGraphError>(
                MindGraphError::NotFound,
            ) && final(self)@ == old(self)@,
    {
        self.graph.set_notes(id, notes)
    }

    /// Replaces the title of node `id`; fails with `NotFound`, changing
    /// nothing, if there is no such node.
    pub fn set_title(&mut self, id: usize, title: String) -> (r: Result<(), MindGraphError>)
        requires
            old(self).wf(),
        ensures
            final(self).wf(),
            id < old(self)@.circles.len() ==> r is Ok && final(self)@ == (MindGraphView {
                circles: old(self)@.circles.update(
                    id as int,
                    CircleView { title: title@, ..old(self)@.circles[id as int] },
                ),
                ..old(self)@
            }),
            id >= old(self)@.circles.len() ==> r == Err::<(), MindGraphError>(
                MindGraphError::NotFound,
            ) && final(self)@ == old(self)@,
    {
        self.graph.set_title(id, title)
    }
}

/// However a map grew, its nodes and edges form a tree around the original
/// focus: one edge fewer than nodes, and every node reachable from it.
pub proof fn lemma_map_is_tree(v: MindGraphView)
    requires
        valid(v),
    ensures
        v.edges.len() == v.circles.len() - 1,
        forall|n: nat| n < v.circles.len() ==> #[trigger] connected(v.edges, v.original, n),
{
    lemma_tree_shape(v.edges, v.circles.len());
}

/// A focus with a single neighbour gets it placed due east, at the orbit
/// radius from the focus's center.
pub proof fn lemma_orbit_placement(old: MindGraphView, new: MindGraphView, orbit: Seq<Point>)
    requires
        valid(old),
        focus_neighbors(old).len() == 1,
        orbit_ok(old, orbit),
        relaid(old, new, orbit),
    ensures
        new.circles[focus_neighbors(old)[0] as int].position == (Point {
            x: (focus_center(old).x + old.orbit_radius) as i32,
            y: focus_center(old).y,
        }),
{
    let nb = focus_neighbors(old);
    assert(new.circles[nb[0] as int] == moved(
        old.circles[nb[0] as int],
        translate(focus_center(old), orbit[0]),
    ));
}

/// Laying out twice with the same orbit, focus and topology gives the same
/// map as laying out once.
pub proof fn lemma_relayout_idempotent(
    g0: MindGraphView,
    g1: MindGraphView,
    g2: MindGraphView,
    orbit: Seq<Point>,
)
    requires
        valid(g0),
        orbit_ok(g0, orbit),
        relaid(g0, g1, orbit),
        relaid(g1, g2, orbit),
    ensures
        g2 == g1,
{
    let nb = focus_neighbors(g0);
    lemma_adjacency_distinct(g0.edges, g0.circles.len(), g0.focus);
    assert(focus_neighbors(g1) == nb);
    assert(!nb.contains(g0.focus)) by {
        if nb.contains(g0.focus) {
            let k = nb.index_of(g0.focus);
            assert(nb[k] != g0.focus);
        }
    }
    assert(g1.circles[g0.focus as int] == g0.circles[g0.focus as int]);
    assert(focus_center(g1) == focus_center(g0));
    assert forall|j: int| 0 <= j < g1.circles.len() implies #[trigger] g2.circles[j] == g1.circles[j] by {
        if nb.contains(j as nat) {
            let k = nb.index_of(j as nat);
            assert(nb[k] == j as nat);
            assert(g2.circles[nb[k] as int] == moved(
                g1.circles[nb[k] as int],
                translate(focus_center(g1), orbit[k]),
            ));
            assert(g1.circles[nb[k] as int] == moved(
                g0.circles[nb[k] as int],
                translate(focus_center(g0), orbit[k]),
            ));
        }
    }
    assert(g2.circles =~= g1.circles);
}

/// Focusing node `a` and then the original focus again puts the original
/// focus's neighbours back where they were before `a` was focused: their
/// places depend on the topology, the focus and the orbit, not on history.
/// This holds when the original focus is not itself a neighbour of `a`;
/// when it is, focusing `a` moves the original focus onto `a`'s orbit, and
/// its neighbours follow it there.
pub proof fn lemma_focus_round_trip(
    g0: MindGraphView,
    g1: MindGraphView,
    g2: MindGraphView,
    a: nat,
    orbit_a: Seq<Point>,
    orbit: Seq<Point>,
)
    requires
        valid(g0),
        g0.focus == g0.original,
        laid_out(g0, orbit),
        a < g0.circles.len(),
        !adjacency(g0.edges, a).contains(g0.original),
        relaid(focused(g0, a), g1, orbit_a),
        relaid(focused(g1, g0.original), g2, orbit),
    ensures
        g2.focus == g0.original,
        focus_neighbors(g2) == focus_neighbors(g0),
        forall|i: int|
            0 <= i < focus_neighbors(g0).len() ==> (#[trigger] g2.circles[focus_neighbors(
                g0,
            )[i] as int]).position == g0.circles[focus_neighbors(g0)[i] as int].position,
{
    let o = g0.original;
    assert(g1.circles[o as int] == g0.circles[o as int]);
    let h = focused(g1, o);
    assert(focus_neighbors(h) == focus_neighbors(g0));
    assert(focus_center(h) == focus_center(g0));
    let nb = focus_neighbors(g0);
    assert forall|i: int| 0 <= i < nb.len() implies (#[trigger] g2.circles[nb[i] as int]).position
        == g0.circles[nb[i] as int].position by {
        assert(g2.circles[nb[i] as int] == moved(
            h.circles[nb[i] as int],
            translate(focus_center(h), orbit[i]),
        ));
    }
}

/// When `p` lies inside the circles of two neighbours `i < j` of the focus,
/// the hit goes by enumeration order, not by nearness: it is never
/// neighbour `j`, but the first neighbour, at or before `i`, that holds `p`.
pub proof fn lemma_first_match(v: MindGraphView, p: Point, r: Option<usize>, i: int, j: int)
    requires
        valid(v),
        0 <= i < j < focus_neighbors(v).len(),
        hits(v, p, i),
        hits(v, p, j),
        is_first_hit(v, p, r),
    ensures
        r is Some,
        r->Some_0 as nat != focus_neighbors(v)[j],
        exists|m: int|
            0 <= m <= i && focus_neighbors(v)[m] == r->Some_0 as nat && #[trigger] hits(v, p, m),
{
    let nb = focus_neighbors(v);
    lemma_adjacency_distinct(v.edges, v.circles.len(), v.focus);
    match r {
        Some(id) => {
            let k = choose|k: int|
                0 <= k < nb.len() && nb[k] == id && #[trigger] hits(v, p, k) && forall|m: int|
                    0 <= m < k ==> !#[trigger] hits(v, p, m);
            assert(k <= i);
            assert(nb[k] != nb[j]);
        },
        None => {
            assert(!hits(v, p, i));
        },
    }
}

} // verus!
