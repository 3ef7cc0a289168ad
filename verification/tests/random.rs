use std::collections::BTreeSet;

use rand::Rng;
use raphtory::core_ops::CoreGraphOps;
use raphtory::entities::{EdgeRef, VID};
use raphtory::graph::Graph;
use raphtory::graph_view_ops::GraphViewOps;
use raphtory::layers::LayerIds;
use raphtory::mutation::{AdditionOps, DeletionOps};
use raphtory::props::Prop;
use raphtory::time_index::{TimeIndex, TimeIndexEntry};
use raphtory::time_semantics::TimeSemantics;

#[test]
fn random_insertions_agree_with_an_ordered_set() {
    let mut rng = rand::thread_rng();
    for _ in 0..50 {
        let mut idx = TimeIndex::new();
        let mut set: BTreeSet<(i64, usize)> = BTreeSet::new();
        let n = rng.gen_range(0..60);
        for _ in 0..n {
            let e = (rng.gen_range(-10..10), rng.gen_range(0..3));
            assert_eq!(idx.insert(TimeIndexEntry(e.0, e.1)), set.insert(e));
        }
        let all: Vec<(i64, usize)> = (0..idx.len()).map(|i| idx.get(i).unwrap()).map(|e| (e.0, e.1)).collect();
        assert_eq!(all, set.iter().copied().collect::<Vec<_>>());
        assert_eq!(idx.first_t(), set.iter().next().map(|e| e.0));
        assert_eq!(idx.last_t(), set.iter().next_back().map(|e| e.0));
        for _ in 0..10 {
            let a = rng.gen_range(-12..12);
            let b = rng.gen_range(-12..12);
            let want: Vec<i64> = set.iter().filter(|e| a <= e.0 && e.0 < b).map(|e| e.0).collect();
            assert_eq!(idx.range(a, b).iter_t(), want);
            assert_eq!(idx.active(a, b), !want.is_empty());
            let last = set.iter().filter(|e| e.0 <= a).next_back().map(|e| TimeIndexEntry(e.0, e.1));
            assert_eq!(idx.last_at(a), last);
        }
    }
}

struct Event {
    t: i64,
    src: u64,
    dst: u64,
    layer: usize,
    deletion: bool,
}

fn random_graph(rng: &mut impl Rng) -> (Graph, Vec<Event>) {
    let names = [None, Some("a"), Some("b")];
    let mut g = Graph::new();
    let first = vec![("w".to_string(), Prop::I64(0))];
    g.add_edge(0, 0, 0, &first, Some("a")).unwrap();
    g.add_edge(0, 0, 0, &first, Some("b")).unwrap();
    let mut events = vec![
        Event { t: 0, src: 0, dst: 0, layer: 1, deletion: false },
        Event { t: 0, src: 0, dst: 0, layer: 2, deletion: false },
    ];
    for _ in 0..rng.gen_range(0..40) {
        let e = Event {
            t: rng.gen_range(0..20),
            src: rng.gen_range(0..6),
            dst: rng.gen_range(0..6),
            layer: rng.gen_range(0..3),
            deletion: rng.gen_bool(0.3),
        };
        if e.deletion {
            g.delete_edge(e.t, e.src, e.dst, names[e.layer]).unwrap();
        } else {
            let props = vec![("w".to_string(), Prop::I64(e.t))];
            g.add_edge(e.t, e.src, e.dst, &props, names[e.layer]).unwrap();
        }
        events.push(e);
    }
    (g, events)
}

#[test]
fn views_agree_with_the_list_of_events() {
    let mut rng = rand::thread_rng();
    for _ in 0..40 {
        let (g, events) = random_graph(&mut rng);
        let start = rng.gen_range(0..20);
        let end = rng.gen_range(0..22);
        let layer = rng.gen_range(0..3usize);
        let w = g.window(start, end);
        let view = w.layer(LayerIds::One(layer));
        for src in 0..6u64 {
            for dst in 0..6u64 {
                let additions: Vec<i64> = events
                    .iter()
                    .filter(|e| !e.deletion && e.src == src && e.dst == dst && e.layer == layer)
                    .filter(|e| start <= e.t && e.t < end)
                    .map(|e| e.t)
                    .collect();
                assert_eq!(view.has_edge(src, dst), !additions.is_empty());
                if let Some(e) = g.find_edge(src, dst) {
                    let rec = g.edge(e);
                    let r = EdgeRef::new(e, rec.src(), rec.dst());
                    let mut sorted = additions.clone();
                    sorted.sort();
                    let exploded: Vec<i64> = view
                        .edge_exploded(r, LayerIds::One(layer))
                        .iter()
                        .map(|x| x.time.unwrap().t())
                        .collect();
                    assert_eq!(exploded, sorted);
                    assert_eq!(view.edge_earliest_time(r, LayerIds::One(layer)), sorted.first().copied());
                    assert_eq!(view.edge_latest_time(r, LayerIds::One(layer)), sorted.last().copied());
                    let mut deletions: Vec<i64> = events
                        .iter()
                        .filter(|e| e.deletion && e.src == src && e.dst == dst && e.layer == layer)
                        .filter(|e| start <= e.t && e.t < end)
                        .map(|e| e.t)
                        .collect();
                    deletions.sort();
                    assert_eq!(view.edge_deletion_history(r, LayerIds::One(layer)), deletions);
                    let values: Vec<i64> =
                        view.temporal_edge_prop_vec(r, "w", LayerIds::One(layer)).iter().map(|p| p.0).collect();
                    let mut distinct = sorted.clone();
                    distinct.dedup();
                    assert_eq!(values, distinct);
                }
            }
            let mut active: Vec<i64> = events
                .iter()
                .filter(|e| !e.deletion && (e.src == src || e.dst == src))
                .filter(|e| start <= e.t && e.t < end)
                .map(|e| e.t)
                .collect();
            active.sort();
            active.dedup();
            assert_eq!(view.has_vertex(src), !active.is_empty());
            if let Some(v) = g.vertex_id(src) {
                assert_eq!(view.vertex_history(v), active);
            }
        }
    }
}

#[test]
fn restrictions_commute_on_random_graphs() {
    let mut rng = rand::thread_rng();
    for _ in 0..40 {
        let (g, _) = random_graph(&mut rng);
        let start = rng.gen_range(0..20);
        let end = rng.gen_range(0..22);
        let layers = match rng.gen_range(0..4) {
            0 => LayerIds::All,
            1 => LayerIds::NoLayers,
            2 => LayerIds::One(rng.gen_range(0..3)),
            _ => LayerIds::Multiple(vec![rng.gen_range(0..3), rng.gen_range(0..3)]),
        };
        let subset: Vec<VID> =
            (0..g.num_vertex_records()).filter(|_| rng.gen_bool(0.6)).map(VID).collect();
        let w = g.window(start, end);
        let wl = w.layer(layers.clone());
        let wls = wl.subgraph(subset.clone());
        let s = g.subgraph(subset.clone());
        let sl = s.layer(layers.clone());
        let slw = sl.window(start, end);
        let l = g.layer(layers.clone());
        let lw = l.window(start, end);
        let lws = lw.subgraph(subset.clone());
        assert_eq!(wls.vertices(), slw.vertices());
        assert_eq!(wls.edges(), slw.edges());
        assert_eq!(wls.vertices(), lws.vertices());
        assert_eq!(wls.edges(), lws.edges());
        assert_eq!(wls.earliest_time(), slw.earliest_time());
        assert_eq!(wls.latest_time(), lws.latest_time());
        for e in g.edges() {
            assert_eq!(
                wls.edge_exploded(e, wls.layer_ids()),
                slw.edge_exploded(e, slw.layer_ids())
            );
        }
    }
}

#[test]
fn materialized_views_agree_with_their_views() {
    let mut rng = rand::thread_rng();
    for _ in 0..40 {
        let (g, _) = random_graph(&mut rng);
        let start = rng.gen_range(0..20);
        let end = rng.gen_range(0..22);
        let layers = match rng.gen_range(0..3) {
            0 => LayerIds::All,
            1 => LayerIds::One(rng.gen_range(0..3)),
            _ => LayerIds::Multiple(vec![rng.gen_range(0..3), rng.gen_range(0..3)]),
        };
        let subset: Vec<VID> =
            (0..g.num_vertex_records()).filter(|_| rng.gen_bool(0.7)).map(VID).collect();
        let w = g.window(start, end);
        let wl = w.layer(layers.clone());
        let view = wl.subgraph(subset);
        let m = view.materialize();
        assert_eq!(m.vertices(), view.vertices());
        assert_eq!(m.edges(), view.edges());
        for v in view.vertices() {
            assert_eq!(m.vertex_history(v), view.vertex_history(v));
            assert_eq!(m.degree(v), view.degree(v));
        }
        for e in view.edges() {
            assert_eq!(m.edge_exploded(e, LayerIds::All), view.edge_exploded(e, view.layer_ids()));
            assert_eq!(
                m.edge_deletion_history(e, LayerIds::All),
                view.edge_deletion_history(e, view.layer_ids())
            );
            let got: Vec<i64> = m.temporal_edge_prop_vec(e, "w", LayerIds::All).iter().map(|p| p.0).collect();
            let want: Vec<i64> =
                view.temporal_edge_prop_vec(e, "w", view.layer_ids()).iter().map(|p| p.0).collect();
            assert_eq!(got, want);
        }
        let again = m.materialize();
        assert_eq!(format!("{:?}", again), format!("{:?}", m));
    }
}
