use raphtory::core_deletion_ops::CoreDeletionOps;
use raphtory::core_ops::{Base, CoreGraphOps};
use raphtory::entities::{EdgeRef, VID};
use raphtory::graph::Graph;
use raphtory::graph_view_ops::GraphViewOps;
use raphtory::layered_graph::LayeredGraph;
use raphtory::layers::LayerIds;
use raphtory::mutation::{AdditionOps, DeletionOps, PropertyAdditionOps};
use raphtory::props::Prop;
use raphtory::time_semantics::{DelegateTimeSemantics, TimeSemantics};
use raphtory::windowed_graph::WindowedGraph;

fn no_props() -> Vec<(String, Prop)> {
    Vec::new()
}

fn named(name: &str, value: i64) -> Vec<(String, Prop)> {
    vec![(name.to_string(), Prop::I64(value))]
}

fn values(pairs: &Vec<(i64, Prop)>) -> Vec<(i64, String)> {
    pairs.iter().map(|(t, p)| (*t, format!("{:?}", p))).collect()
}

fn sample() -> Graph {
    let mut g = Graph::new();
    g.add_vertex(0, 1, &named("rank", 10)).unwrap();
    g.add_vertex(4, 1, &named("rank", 14)).unwrap();
    g.add_vertex(8, 9, &named("rank", 98)).unwrap();
    g.add_edge(1, 1, 2, &named("w", 1), Some("a")).unwrap();
    g.add_edge(2, 2, 3, &named("w", 2), Some("b")).unwrap();
    g.add_edge(5, 1, 2, &named("w", 5), Some("b")).unwrap();
    g.add_edge(6, 3, 4, &named("w", 6), None).unwrap();
    g.add_edge(7, 4, 1, &named("w", 7), Some("a")).unwrap();
    g.delete_edge(3, 1, 2, Some("a")).unwrap();
    g.add_properties(2, &named("load", 20)).unwrap();
    g.add_properties(6, &named("load", 60)).unwrap();
    g
}

fn edge_of(g: &Graph, src: u64, dst: u64) -> EdgeRef {
    let e = g.find_edge(src, dst).unwrap();
    let rec = g.edge(e);
    EdgeRef::new(e, rec.src(), rec.dst())
}

#[test]
fn window_includes_an_edge_added_inside_it_and_excludes_one_closed_before_it() {
    let mut g = Graph::new();
    g.add_edge(1, 1, 2, &no_props(), None).unwrap();
    g.delete_edge(5, 1, 2, None).unwrap();
    let early = g.window(0, 3);
    assert!(early.has_edge(1, 2));
    assert_eq!(early.num_edges(), 1);
    let late = g.window(6, 10);
    assert!(!late.has_edge(1, 2));
    assert_eq!(late.num_edges(), 0);
    assert_eq!(late.num_vertices(), 0);
    let e = edge_of(&g, 1, 2);
    assert!(g.include_edge_window(g.core_edge(e.e_pid), 0..3, &LayerIds::All));
    assert!(!g.include_edge_window(g.core_edge(e.e_pid), 6..10, &LayerIds::All));
    assert_eq!(late.edge_deletions(e).iter_t(), vec![5]);
    assert_eq!(early.edge_deletions(e).iter_t(), vec![5]);
}

#[test]
fn an_addition_inside_the_window_reopens_a_deleted_edge() {
    let mut g = Graph::new();
    g.add_edge(1, 1, 2, &no_props(), None).unwrap();
    g.delete_edge(5, 1, 2, None).unwrap();
    g.add_edge(8, 1, 2, &no_props(), None).unwrap();
    assert!(g.window(6, 10).has_edge(1, 2));
    assert!(!g.window(6, 8).has_edge(1, 2));
}

#[test]
fn an_edge_added_and_deleted_at_one_time_inside_the_window_is_included() {
    let mut g = Graph::new();
    g.add_edge(4, 1, 2, &no_props(), None).unwrap();
    g.delete_edge(4, 1, 2, None).unwrap();
    assert!(g.window(4, 5).has_edge(1, 2));
    assert!(!g.window(5, 9).has_edge(1, 2));
}

#[test]
fn window_shows_what_is_active_inside_it() {
    let g = sample();
    let w = g.window(2, 7);
    assert_eq!(w.vertex_ids(), vec![1, 2, 3, 4]);
    assert_eq!(w.num_vertices(), 4);
    let pairs: Vec<(VID, VID)> = w.edges().iter().map(|e| (e.src_pid, e.dst_pid)).collect();
    assert_eq!(pairs, vec![(VID(0), VID(2)), (VID(2), VID(3)), (VID(3), VID(4))]);
    assert!(w.has_vertex(1));
    assert!(!w.has_vertex(9));
    assert!(!w.has_vertex(77));
    assert!(!w.has_edge(4, 1));
    assert_eq!(w.earliest_time(), Some(2));
    assert_eq!(w.latest_time(), Some(6));
    assert_eq!(w.view_start(), Some(2));
    assert_eq!(w.view_end(), Some(7));
    let v = g.vertex_id(1).unwrap();
    assert_eq!(g.vertex_history(v), vec![0, 1, 4, 5, 7]);
    assert_eq!(w.vertex_history(v), vec![4, 5]);
    assert_eq!(w.vertex_earliest_time(v), Some(4));
    assert_eq!(w.vertex_latest_time(v), Some(5));
    assert_eq!(w.vertex_history_window(v, 0..5), vec![4]);
    assert_eq!(w.vertex_earliest_time_window(v, 5, 100), Some(5));
    assert_eq!(w.vertex_latest_time_window(v, 0, 5), Some(4));
    assert_eq!(g.vertex_history_window(v, 1..5), vec![1, 4]);
    assert!(w.include_vertex_window(v, 0..5, &LayerIds::All));
    assert!(!w.include_vertex_window(v, 0..4, &LayerIds::All));
    assert_eq!(values(&w.temporal_vertex_prop_vec(v, "rank")), vec![(4, "I64(14)".to_string())]);
    assert_eq!(values(&w.temporal_vertex_prop_vec_window(v, "rank", 0, 4)), vec![]);
    assert_eq!(values(&w.temporal_prop_vec("load")), vec![(2, "I64(20)".to_string()), (6, "I64(60)".to_string())]);
    assert_eq!(values(&w.temporal_prop_vec_window("load", 3, 9)), vec![(6, "I64(60)".to_string())]);
    assert_eq!(w.earliest_time_window(3, 6), Some(4));
    assert_eq!(w.latest_time_window(0, 6), Some(5));
    assert_eq!(g.earliest_time_window(3, 6), Some(4));
    assert_eq!(g.latest_time_window(9, 12), None);
}

#[test]
fn window_of_a_window_is_the_intersection() {
    let g = sample();
    let outer = g.window(1, 6);
    let inner = outer.window(4, 9);
    let direct = g.window(4, 6);
    let other = g.window(4, 9);
    let swapped = other.window(1, 6);
    for view_ids in [inner.vertex_ids(), swapped.vertex_ids()] {
        assert_eq!(view_ids, direct.vertex_ids());
    }
    assert_eq!(inner.edges(), direct.edges());
    assert_eq!(swapped.edges(), direct.edges());
    assert_eq!(inner.window_bounds(), Some((4, 6)));
    assert_eq!(inner.view_start(), Some(4));
    assert_eq!(inner.view_end(), Some(6));
    assert_eq!(inner.actual_start(0), 4);
    assert_eq!(inner.actual_end(100), 9);
    let empty = outer.window(6, 10);
    assert_eq!(empty.num_vertices(), 0);
    assert_eq!(empty.num_edges(), 0);
    assert_eq!(empty.earliest_time(), None);
}

#[test]
fn layer_view_shows_the_edges_of_its_layers() {
    let g = sample();
    let a = g.layer_named("a").unwrap();
    let pairs: Vec<(VID, VID)> = a.edges().iter().map(|e| (e.src_pid, e.dst_pid)).collect();
    assert_eq!(pairs, vec![(VID(0), VID(2)), (VID(4), VID(0))]);
    assert!(a.has_edge(1, 2));
    assert!(!a.has_edge(2, 3));
    assert_eq!(a.num_vertices(), g.num_vertices());
    assert!(g.layer_named("zzz").is_none());
    let both = g.layer(LayerIds::Multiple(vec![1, 2]));
    assert_eq!(both.num_edges(), 3);
    let none = g.layer(LayerIds::NoLayers);
    assert_eq!(none.num_edges(), 0);
    let narrowed = a.layer(LayerIds::Multiple(vec![0, 1]));
    assert_eq!(narrowed.edges(), a.edges());
    let disjoint = a.layer(LayerIds::One(2));
    assert_eq!(disjoint.num_edges(), 0);
    assert_eq!(a.degree(VID(0)), 2);
    assert_eq!(g.degree(VID(0)), 2);
    assert_eq!(g.degree(VID(2)), 2);
    assert_eq!(g.degree(VID(1)), 0);
}

#[test]
fn window_and_layer_commute() {
    let g = sample();
    for (start, end) in [(0, 9), (2, 6), (5, 6), (7, 3), (i64::MIN, i64::MAX)] {
        for layers in [
            LayerIds::All,
            LayerIds::NoLayers,
            LayerIds::One(0),
            LayerIds::One(1),
            LayerIds::Multiple(vec![2, 1]),
        ] {
            let w = g.window(start, end);
            let wl = w.layer(layers.clone());
            let l = g.layer(layers.clone());
            let lw = l.window(start, end);
            assert_eq!(wl.vertices(), lw.vertices());
            assert_eq!(wl.edges(), lw.edges());
            assert_eq!(wl.num_vertices(), lw.num_vertices());
            assert_eq!(wl.num_edges(), lw.num_edges());
            assert_eq!(values(&wl.temporal_prop_vec("load")), values(&lw.temporal_prop_vec("load")));
            assert_eq!(wl.earliest_time(), lw.earliest_time());
            assert_eq!(wl.latest_time(), lw.latest_time());
            assert_eq!(wl.view_start(), lw.view_start());
            assert_eq!(wl.view_end(), lw.view_end());
            for v in 0..g.num_vertex_records() {
                assert_eq!(wl.vertex_history(VID(v)), lw.vertex_history(VID(v)));
                assert_eq!(
                    values(&wl.temporal_vertex_prop_vec(VID(v), "rank")),
                    values(&lw.temporal_vertex_prop_vec(VID(v), "rank"))
                );
                assert_eq!(wl.degree(VID(v)), lw.degree(VID(v)));
            }
            for e in g.edges() {
                assert_eq!(
                    values(&wl.temporal_edge_prop_vec(e, "w", wl.layer_ids())),
                    values(&lw.temporal_edge_prop_vec(e, "w", lw.layer_ids()))
                );
                assert_eq!(wl.edge_exploded(e, wl.layer_ids()), lw.edge_exploded(e, lw.layer_ids()));
                assert_eq!(wl.edge_layers(e, wl.layer_ids()), lw.edge_layers(e, lw.layer_ids()));
                assert_eq!(
                    wl.edge_earliest_time(e, wl.layer_ids()),
                    lw.edge_earliest_time(e, lw.layer_ids())
                );
                assert_eq!(
                    wl.edge_latest_time(e, wl.layer_ids()),
                    lw.edge_latest_time(e, lw.layer_ids())
                );
                assert_eq!(
                    wl.edge_deletion_history(e, wl.layer_ids()),
                    lw.edge_deletion_history(e, lw.layer_ids())
                );
            }
        }
    }
}

#[test]
fn stacked_views_answer_like_the_store_with_both_restrictions() {
    let g = sample();
    let w = g.window(2, 7);
    let wl = w.layer(LayerIds::One(2));
    let e = edge_of(&g, 1, 2);
    assert_eq!(wl.edge_earliest_time(e, wl.layer_ids()), Some(5));
    assert_eq!(g.edge_earliest_time_window(e, 2..7, LayerIds::One(2)), Some(5));
    assert_eq!(wl.edge_exploded(e, wl.layer_ids()), g.edge_window_exploded(e, 2..7, LayerIds::One(2)));
    assert_eq!(
        values(&wl.temporal_edge_prop_vec(e, "w", wl.layer_ids())),
        vec![(5, "I64(5)".to_string())]
    );
    assert_eq!(wl.edge_deletion_history(e, LayerIds::All), vec![3]);
    assert_eq!(g.edge_history(e), vec![1, 5]);
    assert_eq!(w.edge_history(e), vec![5]);
    assert_eq!(wl.edge_history(e), vec![5]);
    assert_eq!(g.edge_history_window(e, 0, 5), vec![1]);
    assert_eq!(wl.edge_history_window(e, 0, 5), Vec::<i64>::new());
    assert_eq!(g.layer_named("a").unwrap().edge_history(e), vec![1]);
    assert_eq!(wl.edge_deletion_history_window(e, 4..9, LayerIds::All), Vec::<i64>::new());
    assert_eq!(wl.edge_window_layers(e, 0..9, LayerIds::All).len(), 1);
    assert_eq!(wl.edge_window_exploded(e, 0..5, LayerIds::All).len(), 0);
    assert_eq!(wl.edge_earliest_time_window(e, 0..9, LayerIds::All), Some(5));
    assert_eq!(wl.edge_latest_time_window(e, 0..9, LayerIds::One(1)), None);
    assert_eq!(values(&wl.temporal_edge_prop_vec_window(e, "w", 0, 5, LayerIds::All)), vec![]);
    assert_eq!(wl.window_bounds(), Some((2, 7)));
    assert_eq!(wl.unfiltered_num_vertices(), 5);
    assert_eq!(wl.unfiltered_num_edges(), 4);
    assert_eq!(wl.get_layer_id("b"), Some(2));
    assert_eq!(wl.internal_vertex(9), Some(VID(1)));
    assert_eq!(wl.internal_edge(VID(0), VID(2)), Some(e.e_pid));
}

#[test]
fn a_layered_view_delegates_to_its_base() {
    let g = sample();
    let l = LayeredGraph::new(&g, LayerIds::One(1));
    assert_eq!(l.base().num_vertex_records(), g.num_vertex_records());
    assert_eq!(DelegateTimeSemantics::graph(&l).num_edge_records(), g.num_edge_records());
    assert_eq!(l.window_bounds(), None);
    assert_eq!(l.view_start(), g.view_start());
    assert_eq!(l.view_end(), g.view_end());
    let w = WindowedGraph::new(&l, 0, 2);
    assert_eq!(w.base().window_bounds(), None);
    assert_eq!(w.num_edges(), 1);
    let e = edge_of(&g, 1, 2);
    assert_eq!(l.edge_deletions(e).iter_t(), vec![3]);
}

#[test]
fn views_do_not_change_the_graph() {
    let mut g = sample();
    let before = format!("{:?}", g);
    {
        let w = g.window(0, 5);
        let l = w.layer(LayerIds::One(1));
        let _ = (l.vertices(), l.edges(), l.earliest_time());
    }
    assert_eq!(format!("{:?}", g), before);
    g.add_vertex_properties(1, &named("seen", 1)).unwrap();
    assert_ne!(format!("{:?}", g), before);
}

#[test]
fn subgraph_shows_its_vertices_and_the_edges_between_them() {
    let g = sample();
    let s = g.subgraph(vec![VID(0), VID(2), VID(3), VID(40)]);
    assert_eq!(s.vertex_ids(), vec![1, 2, 3]);
    let pairs: Vec<(VID, VID)> = s.edges().iter().map(|e| (e.src_pid, e.dst_pid)).collect();
    assert_eq!(pairs, vec![(VID(0), VID(2)), (VID(2), VID(3))]);
    assert!(s.has_vertex(1));
    assert!(!s.has_vertex(4));
    assert!(s.has_edge(2, 3));
    assert!(!s.has_edge(3, 4));
    assert_eq!(s.degree(VID(3)), 1);
    assert_eq!(g.degree(VID(3)), 2);
    assert!(s.lists(VID(40)));
    assert!(!s.lists(VID(1)));
    assert_eq!(s.vertex_history(VID(4)), g.vertex_history(VID(4)));
    let inner = s.subgraph(vec![VID(3), VID(4)]);
    assert_eq!(inner.vertex_ids(), vec![3]);
    assert_eq!(inner.num_edges(), 0);
    assert_eq!(g.subgraph(Vec::new()).num_vertices(), 0);
}

#[test]
fn subgraph_and_window_commute() {
    let g = sample();
    for (start, end) in [(0, 9), (2, 6), (6, 8), (8, 2)] {
        for vertices in [vec![], vec![VID(0), VID(2)], vec![VID(4), VID(3), VID(0)], vec![VID(1)]] {
            let w = g.window(start, end);
            let ws = w.subgraph(vertices.clone());
            let s = g.subgraph(vertices.clone());
            let sw = s.window(start, end);
            assert_eq!(ws.vertices(), sw.vertices());
            assert_eq!(ws.edges(), sw.edges());
            assert_eq!(ws.earliest_time(), sw.earliest_time());
            for v in 0..g.num_vertex_records() {
                assert_eq!(ws.degree(VID(v)), sw.degree(VID(v)));
                assert_eq!(ws.vertex_history(VID(v)), sw.vertex_history(VID(v)));
            }
        }
    }
}

#[test]
fn an_edge_is_alive_after_its_last_addition_until_its_next_deletion() {
    let mut g = Graph::new();
    g.add_edge(1, 1, 2, &no_props(), None).unwrap();
    g.delete_edge(5, 1, 2, None).unwrap();
    g.add_edge(8, 1, 2, &no_props(), None).unwrap();
    g.add_edge(9, 1, 2, &no_props(), Some("x")).unwrap();
    g.delete_edge(9, 1, 2, None).unwrap();
    let e = edge_of(&g, 1, 2);
    let alive: Vec<bool> = (0..11).map(|t| g.edge_alive_at(e, t)).collect();
    assert_eq!(
        alive,
        vec![false, true, true, true, true, false, false, false, true, false, false]
    );
    let x = g.layer_named("x").unwrap();
    assert!(x.edge_alive_at(e, 9));
    assert!(x.edge_alive_at(e, i64::MAX));
    assert!(!x.edge_alive_at(e, 8));
    let w = g.window(0, 3);
    assert!(!w.edge_alive_at(e, 6));
    assert!(w.edge_alive_at(e, 8));
}

#[test]
fn at_one_timestamp_the_later_event_decides() {
    let mut g = Graph::new();
    g.add_edge(4, 1, 2, &no_props(), None).unwrap();
    g.delete_edge(4, 1, 2, None).unwrap();
    g.delete_edge(7, 3, 4, None).unwrap();
    g.add_edge(7, 3, 4, &no_props(), None).unwrap();
    assert!(!g.edge_alive_at(edge_of(&g, 1, 2), 4));
    assert!(g.edge_alive_at(edge_of(&g, 3, 4), 7));
}

#[test]
fn a_materialized_view_answers_as_the_view_does() {
    let g = sample();
    let w = g.window(2, 7);
    let wl = w.layer(LayerIds::Multiple(vec![0, 2]));
    let view = wl.subgraph(vec![VID(0), VID(2), VID(3), VID(4)]);
    let m = view.materialize();
    assert_eq!(m.num_vertex_records(), g.num_vertex_records());
    assert_eq!(m.num_edge_records(), g.num_edge_records());
    assert_eq!(m.num_layers(), g.num_layers());
    assert_eq!(m.next_event_id(), g.next_event_id());
    assert_eq!(m.vertices(), view.vertices());
    assert_eq!(m.vertex_ids(), view.vertex_ids());
    assert_eq!(m.edges(), view.edges());
    assert_eq!(m.window_bounds(), None);
    for v in view.vertices() {
        assert_eq!(m.vertex_history(v), view.vertex_history(v));
        assert_eq!(m.vertex_earliest_time(v), view.vertex_earliest_time(v));
        assert_eq!(m.vertex_latest_time(v), view.vertex_latest_time(v));
        assert_eq!(m.vertex_history_window(v, 3..6), view.vertex_history_window(v, 3..6));
        assert_eq!(m.degree(v), view.degree(v));
        assert_eq!(
            values(&m.temporal_vertex_prop_vec(v, "rank")),
            values(&view.temporal_vertex_prop_vec(v, "rank"))
        );
    }
    for e in view.edges() {
        for layers in [LayerIds::All, LayerIds::One(2), LayerIds::One(1)] {
            let both = view.layer_ids().constrain(&layers);
            assert_eq!(m.edge_exploded(e, layers.clone()), view.edge_exploded(e, both.clone()));
            assert_eq!(m.edge_layers(e, layers.clone()), view.edge_layers(e, both.clone()));
            assert_eq!(m.edge_earliest_time(e, layers.clone()), view.edge_earliest_time(e, both.clone()));
            assert_eq!(m.edge_latest_time(e, layers.clone()), view.edge_latest_time(e, both.clone()));
            assert_eq!(
                m.edge_deletion_history(e, layers.clone()),
                view.edge_deletion_history(e, both.clone())
            );
            assert_eq!(
                values(&m.temporal_edge_prop_vec(e, "w", layers.clone())),
                values(&view.temporal_edge_prop_vec(e, "w", both.clone()))
            );
            assert_eq!(
                m.edge_window_exploded(e, 0..6, layers.clone()),
                view.edge_window_exploded(e, 0..6, both.clone())
            );
        }
    }
    assert_eq!(values(&m.temporal_prop_vec("load")), values(&view.temporal_prop_vec("load")));
    assert_eq!(g.materialize().vertices(), g.vertices());
    assert_eq!(format!("{:?}", g.materialize()), format!("{:?}", g));
    let empty = g.window(50, 60);
    let none = empty.materialize();
    assert_eq!(none.num_vertices(), 0);
    assert_eq!(none.num_edges(), 0);
    assert_eq!(none.num_vertex_records(), 5);
}
