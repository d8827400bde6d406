use mind_graph::geometry::Point;
use mind_graph::graph_store::{CircleGraph, NODE_RADIUS};
use mind_graph::layout::slot_angle;
use mind_graph::mind_graph::{MindGraph, ORBIT_RADIUS};
use mind_graph::MindGraphError;

/// Offsets of the `k` slots of an orbit of radius `r`, rounded to whole
/// coordinates.
fn orbit(k: usize, r: i32) -> Vec<Point> {
    let mut offsets = Vec::new();
    for i in 0..k {
        let a = slot_angle(i, k);
        let degrees = a.numer as f64 / a.denom as f64;
        let rad = degrees.to_radians();
        offsets.push(Point {
            x: (r as f64 * rad.cos()).round() as i32,
            y: (r as f64 * rad.sin()).round() as i32,
        });
    }
    offsets
}

fn focus_orbit(g: &MindGraph) -> Vec<Point> {
    orbit(g.neighbors_of_focus().len(), g.orbit_radius())
}

fn add_child(g: &mut MindGraph) -> usize {
    let o = orbit(g.neighbors_of_focus().len() + 1, g.orbit_radius());
    g.add_node(&o)
}

fn focus_on(g: &mut MindGraph, id: usize) {
    let o = orbit(g.graph().neighbors(id).len(), g.orbit_radius());
    g.set_focus(id, &o).unwrap();
}

fn position(g: &MindGraph, id: usize) -> Point {
    g.graph().get(id).unwrap().position
}

#[test]
fn test_recalculate_node_positions() {
    // creating a graph with one central node
    let mut mind_graph = MindGraph::default();
    let central_node_position = position(&mind_graph, mind_graph.focus());

    // adding one node
    let new_node_index = add_child(&mut mind_graph);
    mind_graph.set_title(new_node_index, "Test Node".to_string()).unwrap();
    mind_graph.set_notes(new_node_index, "Test notes".to_string()).unwrap();
    assert_eq!(mind_graph.graph().get(new_node_index).unwrap().radius, 65);

    // call recalculate_node_positions
    let o = focus_orbit(&mind_graph);
    mind_graph.recalculate_node_positions(&o);

    // the new node is 300 directly to the right (default orbit)
    let expected_x = central_node_position.x as f32 + 300.0;
    let expected_y = central_node_position.y as f32;
    let recalculated_node = mind_graph.graph().get(new_node_index).unwrap();
    assert!((recalculated_node.position.x as f32 - expected_x).abs() < f32::EPSILON);
    assert!((recalculated_node.position.y as f32 - expected_y).abs() < f32::EPSILON);
}

#[test]
fn single_neighbor_lands_due_east() {
    let mut g = MindGraph::default();
    assert_eq!(position(&g, 0), Point { x: 200, y: 200 });
    assert_eq!(g.orbit_radius(), 300);
    let id = add_child(&mut g);
    assert_eq!(id, 1);
    assert_eq!(position(&g, 1), Point { x: 500, y: 200 });
}

#[test]
fn default_map_has_one_root_node() {
    let g = MindGraph::default();
    assert_eq!(g.graph().node_count(), 1);
    assert_eq!(g.graph().edge_count(), 0);
    assert_eq!(g.focus(), 0);
    assert_eq!(g.original_focus(), 0);
    assert_eq!(g.orbit_radius(), ORBIT_RADIUS);
    let root = g.graph().get(0).unwrap();
    assert_eq!(root.radius, NODE_RADIUS);
    assert_eq!(root.title, "");
    assert_eq!(g.focus_notes(), "");
    assert!(g.neighbors_of_focus().is_empty());
}

#[test]
fn slot_angles_are_evenly_spaced() {
    for k in 1..12usize {
        for i in 0..k {
            let a = slot_angle(i, k);
            assert_eq!(a.numer, 360 * i as u64);
            assert_eq!(a.denom, k as u64);
        }
        for i in 0..k - 1 {
            let a = slot_angle(i, k);
            let b = slot_angle(i + 1, k);
            let gap = b.numer as f64 / b.denom as f64 - a.numer as f64 / a.denom as f64;
            assert!((gap - 360.0 / k as f64).abs() < 1e-9);
        }
    }
    let quarter = slot_angle(1, 4);
    assert_eq!(quarter.numer / quarter.denom, 90);
}

#[test]
fn four_neighbors_sit_at_right_angles() {
    let mut g = MindGraph::default();
    for _ in 0..4 {
        add_child(&mut g);
    }
    let nb = g.neighbors_of_focus();
    // newest child first
    assert_eq!(nb, vec![4, 3, 2, 1]);
    assert_eq!(position(&g, 4), Point { x: 500, y: 200 });
    assert_eq!(position(&g, 3), Point { x: 200, y: 500 });
    assert_eq!(position(&g, 2), Point { x: -100, y: 200 });
    assert_eq!(position(&g, 1), Point { x: 200, y: -100 });
    // the focus itself stays put
    assert_eq!(position(&g, 0), Point { x: 200, y: 200 });
}

#[test]
fn relayout_is_idempotent() {
    let mut g = MindGraph::default();
    for _ in 0..5 {
        add_child(&mut g);
    }
    let o = focus_orbit(&g);
    g.recalculate_node_positions(&o);
    let first: Vec<Point> = (0..g.graph().node_count()).map(|i| position(&g, i)).collect();
    g.recalculate_node_positions(&o);
    let second: Vec<Point> = (0..g.graph().node_count()).map(|i| position(&g, i)).collect();
    assert_eq!(first, second);
}

#[test]
fn relayout_without_neighbors_moves_nothing() {
    let mut g = MindGraph::default();
    g.recalculate_node_positions(&Vec::new());
    assert_eq!(position(&g, 0), Point { x: 200, y: 200 });
    assert_eq!(g.graph().node_count(), 1);
}

#[test]
fn growth_keeps_a_tree() {
    let mut g = MindGraph::default();
    let a = add_child(&mut g);
    let b = add_child(&mut g);
    focus_on(&mut g, a);
    let c = add_child(&mut g);
    add_child(&mut g);
    focus_on(&mut g, c);
    add_child(&mut g);
    focus_on(&mut g, b);
    add_child(&mut g);
    let n = g.graph().node_count();
    assert_eq!(n, 7);
    assert_eq!(g.graph().edge_count(), n - 1);
    // every node is reachable from the original focus
    let mut seen = vec![false; n];
    let mut stack = vec![g.original_focus()];
    seen[g.original_focus()] = true;
    while let Some(v) = stack.pop() {
        for w in g.graph().neighbors(v) {
            if !seen[w] {
                seen[w] = true;
                stack.push(w);
            }
        }
    }
    assert!(seen.iter().all(|s| *s));
}

#[test]
fn neighbors_list_children_newest_first_then_parent() {
    let mut g = MindGraph::default();
    let a = add_child(&mut g);
    focus_on(&mut g, a);
    let b = add_child(&mut g);
    let c = add_child(&mut g);
    assert_eq!(g.graph().neighbors(a), vec![c, b, 0]);
    assert_eq!(g.graph().neighbors(0), vec![a]);
    assert_eq!(g.graph().neighbors(b), vec![a]);
    // slot 0 goes to the newest child
    assert_eq!(
        position(&g, c),
        Point { x: position(&g, a).x + 300, y: position(&g, a).y }
    );
}

#[test]
fn focus_round_trip_restores_positions() {
    let mut g = MindGraph::default();
    let a = add_child(&mut g);
    add_child(&mut g);
    add_child(&mut g);
    focus_on(&mut g, a);
    let grandchild = add_child(&mut g);
    focus_on(&mut g, 0);
    let nb = g.neighbors_of_focus();
    let before: Vec<Point> = nb.iter().map(|i| position(&g, *i)).collect();

    focus_on(&mut g, grandchild);
    assert_eq!(g.focus(), grandchild);
    // the parent of the grandchild was moved onto the grandchild's orbit
    assert_ne!(position(&g, a), before[nb.len() - 1]);

    let original = g.original_focus();
    focus_on(&mut g, original);
    assert_eq!(g.focus(), 0);
    let after: Vec<Point> = nb.iter().map(|i| position(&g, *i)).collect();
    assert_eq!(before, after);
}

#[test]
fn hit_test_prefers_first_enumerated_over_nearest() {
    let mut g = MindGraph::default();
    for _ in 0..20 {
        add_child(&mut g);
    }
    let nb = g.neighbors_of_focus();
    let first_center = position(&g, nb[0]);
    let second_center = position(&g, nb[1]);
    // a point 60% of the way from the first neighbour to the second: inside
    // both circles, nearer the second
    let p = Point {
        x: first_center.x + (second_center.x - first_center.x) * 6 / 10,
        y: first_center.y + (second_center.y - first_center.y) * 6 / 10,
    };
    assert!(p.is_inside(first_center, NODE_RADIUS));
    assert!(p.is_inside(second_center, NODE_RADIUS));
    let d0 = (p.x - first_center.x).pow(2) + (p.y - first_center.y).pow(2);
    let d1 = (p.x - second_center.x).pow(2) + (p.y - second_center.y).pow(2);
    assert!(d1 < d0);
    assert_eq!(g.hit_test(p), Some(nb[0]));
}

#[test]
fn hit_test_misses_and_ignores_the_focus() {
    let mut g = MindGraph::default();
    add_child(&mut g);
    assert_eq!(g.hit_test(Point { x: 200, y: 200 }), None);
    assert_eq!(g.hit_test(Point { x: 800, y: 800 }), None);
    assert_eq!(g.hit_test(Point { x: 510, y: 190 }), Some(1));
    // exactly on the rim is outside
    assert_eq!(g.hit_test(Point { x: 565, y: 200 }), None);
    assert_eq!(g.hit_test(Point { x: 564, y: 200 }), Some(1));
}

#[test]
fn unknown_focus_is_rejected() {
    let mut g = MindGraph::default();
    add_child(&mut g);
    let before = position(&g, 1);
    assert_eq!(g.set_focus(42, &Vec::new()), Err(MindGraphError::InvalidFocus));
    assert_eq!(g.focus(), 0);
    assert_eq!(position(&g, 1), before);
}

#[test]
fn setting_focus_lays_out_its_neighbors() {
    let mut g = MindGraph::default();
    let a = add_child(&mut g);
    assert_eq!(g.set_focus(a, &orbit(1, 300)), Ok(()));
    assert_eq!(g.focus(), a);
    // the root is now east of the new focus
    assert_eq!(position(&g, 0), Point { x: 800, y: 200 });
    g.set_new_central_node(0, &orbit(1, 300));
    assert_eq!(g.focus(), 0);
    assert_eq!(position(&g, a), Point { x: 1100, y: 200 });
}

#[test]
fn centering_the_focus_moves_its_orbit() {
    let mut g = MindGraph::default();
    add_child(&mut g);
    add_child(&mut g);
    let o = focus_orbit(&g);
    g.set_central_position(Point { x: 400, y: 300 }, &o);
    assert_eq!(position(&g, 0), Point { x: 400, y: 300 });
    assert_eq!(position(&g, 2), Point { x: 700, y: 300 });
    assert_eq!(position(&g, 1), Point { x: 100, y: 300 });
}

#[test]
fn titles_and_notes_are_stored() {
    let mut g = MindGraph::default();
    let a = add_child(&mut g);
    assert_eq!(g.set_title(a, "branch".to_string()), Ok(()));
    assert_eq!(g.set_notes(0, "root notes".to_string()), Ok(()));
    assert_eq!(g.graph().get(a).unwrap().title, "branch");
    assert_eq!(g.focus_notes(), "root notes");
    assert_eq!(g.set_title(9, "x".to_string()), Err(MindGraphError::NotFound));
    assert_eq!(g.set_notes(9, "x".to_string()), Err(MindGraphError::NotFound));
}

#[test]
fn graph_store_add_and_get() {
    let mut g = CircleGraph::with_root(Point::new(10, 20));
    assert_eq!(g.add_node(5), Err(MindGraphError::InvalidParent));
    assert_eq!(g.node_count(), 1);
    assert_eq!(g.add_node(0), Ok(1));
    assert_eq!(g.add_node(1), Ok(2));
    assert_eq!(g.node_count(), 3);
    assert_eq!(g.edge_count(), 2);
    let fresh = g.get(2).unwrap();
    assert_eq!(fresh.position, Point { x: 0, y: 0 });
    assert_eq!(fresh.title, "");
    assert_eq!(fresh.notes, "");
    assert!(matches!(g.get(3), Err(MindGraphError::NotFound)));
    assert_eq!(g.neighbors(1), vec![2, 0]);
    assert_eq!(g.set_title(1, "t".to_string()), Ok(()));
    assert_eq!(g.node(1).title, "t");
    assert_eq!(g.set_notes(3, "n".to_string()), Err(MindGraphError::NotFound));
}

#[test]
fn point_helpers() {
    let p = Point::new(3, -4);
    assert_eq!(p.offset(Point { x: 10, y: 10 }), Point { x: 13, y: 6 });
    assert!(p.is_inside(Point::new(0, 0), 6));
    assert!(!p.is_inside(Point::new(0, 0), 5));
    assert!(!Point::new(i32::MAX, i32::MAX).is_inside(Point::new(i32::MIN, i32::MIN), i32::MAX));
}
