use raphtory::core_deletion_ops::CoreDeletionOps;
use raphtory::core_ops::CoreGraphOps;
use raphtory::entities::{EdgeRef, EID, VID};
use raphtory::errors::GraphError;
use raphtory::graph::Graph;
use raphtory::graph_view_ops::GraphViewOps;
use raphtory::layers::LayerIds;
use raphtory::mutation::{AdditionOps, DeletionOps, FormattedTime, PropertyAdditionOps};
use raphtory::props::Prop;
use raphtory::time_index::TimeIndexEntry;
use raphtory::time_semantics::TimeSemantics;

fn no_props() -> Vec<(String, Prop)> {
    Vec::new()
}

fn named(name: &str, value: Prop) -> Vec<(String, Prop)> {
    vec![(name.to_string(), value)]
}

fn values(pairs: &Vec<(i64, Prop)>) -> Vec<(i64, String)> {
    pairs.iter().map(|(t, p)| (*t, format!("{:?}", p))).collect()
}

fn edge_of(g: &Graph, src: u64, dst: u64) -> EdgeRef {
    let e = g.find_edge(src, dst).unwrap();
    let rec = g.edge(e);
    EdgeRef::new(e, rec.src(), rec.dst())
}

#[test]
fn new_graph_is_empty() {
    let g = Graph::new();
    assert_eq!(g.num_vertex_records(), 0);
    assert_eq!(g.num_edge_records(), 0);
    assert_eq!(g.num_layers(), 1);
    assert_eq!(g.layer_id("_default"), Some(0));
    assert_eq!(g.num_vertices(), 0);
    assert_eq!(g.num_edges(), 0);
    assert_eq!(g.earliest_time(), None);
    assert_eq!(g.latest_time(), None);
    assert_eq!(g.view_start(), None);
    assert_eq!(g.view_end(), None);
}

#[test]
fn add_vertex_twice_is_add_vertex_once() {
    let props = named("kind", Prop::Str("person".to_string()));
    let mut once = Graph::new();
    once.add_vertex(5, 7, &props).unwrap();
    let mut twice = Graph::new();
    twice.add_vertex(5, 7, &props).unwrap();
    twice.add_vertex(5, 7, &props).unwrap();
    assert_eq!(twice.num_vertex_records(), 1);
    let v = twice.vertex_id(7).unwrap();
    assert_eq!(twice.vertex_history(v), vec![5]);
    assert_eq!(
        values(&twice.temporal_vertex_prop_vec(v, "kind")),
        values(&once.temporal_vertex_prop_vec(v, "kind"))
    );
    assert_eq!(twice.temporal_vertex_prop_vec(v, "kind").len(), 1);
    assert_eq!(format!("{:?}", twice), format!("{:?}", once));
}

#[test]
fn add_vertex_at_another_time_adds_an_entry_and_new_values() {
    let mut g = Graph::new();
    g.add_vertex(5, 7, &named("kind", Prop::Str("person".to_string()))).unwrap();
    g.add_vertex(3, 7, &named("kind", Prop::Str("child".to_string()))).unwrap();
    g.add_vertex(5, 7, &named("kind", Prop::Str("adult".to_string()))).unwrap();
    let v = g.vertex_id(7).unwrap();
    assert_eq!(g.vertex_history(v), vec![3, 5]);
    assert_eq!(
        values(&g.temporal_vertex_prop_vec(v, "kind")),
        vec![
            (3, "Str(\"child\")".to_string()),
            (5, "Str(\"person\")".to_string()),
            (5, "Str(\"adult\")".to_string()),
        ]
    );
    assert_eq!(g.temporal_vertex_prop_vec(v, "age").len(), 0);
}

#[test]
fn add_edge_creates_both_endpoints() {
    let mut g = Graph::new();
    g.add_vertex(1, 100, &no_props()).unwrap();
    g.add_edge(9, 4, 6, &no_props(), None).unwrap();
    assert_eq!(g.num_vertex_records(), 3);
    let s = g.vertex_id(4).unwrap();
    let d = g.vertex_id(6).unwrap();
    assert_eq!(s, VID(1));
    assert_eq!(d, VID(2));
    assert_eq!(g.vertex_history(s), vec![9]);
    assert_eq!(g.vertex_history(d), vec![9]);
    assert_eq!(g.vertex_history(VID(0)), vec![1]);
    assert_eq!(g.num_edge_records(), 1);
    let e = edge_of(&g, 4, 6);
    assert_eq!(e, EdgeRef { e_pid: EID(0), src_pid: VID(1), dst_pid: VID(2), time: None, layer: None });
    assert_eq!(g.find_edge(6, 4), None);
}

#[test]
fn self_loop_creates_one_vertex() {
    let mut g = Graph::new();
    g.add_edge(2, 8, 8, &no_props(), None).unwrap();
    assert_eq!(g.num_vertex_records(), 1);
    assert_eq!(g.num_edge_records(), 1);
    assert_eq!(g.degree(VID(0)), 1);
}

#[test]
fn edge_activity_is_recorded_on_the_endpoints() {
    let mut g = Graph::new();
    g.add_vertex(1, 1, &no_props()).unwrap();
    g.add_edge(4, 1, 2, &no_props(), None).unwrap();
    g.add_edge(2, 3, 1, &no_props(), None).unwrap();
    let v = g.vertex_id(1).unwrap();
    assert_eq!(g.vertex_history(v), vec![1, 2, 4]);
    assert_eq!(g.vertex_earliest_time(v), Some(1));
    assert_eq!(g.vertex_latest_time(v), Some(4));
    assert_eq!(g.earliest_time(), Some(1));
    assert_eq!(g.latest_time(), Some(4));
    assert_eq!(g.view_start(), Some(1));
    assert_eq!(g.view_end(), Some(5));
}

#[test]
fn view_end_saturates() {
    let mut g = Graph::new();
    g.add_vertex(i64::MAX, 1, &no_props()).unwrap();
    assert_eq!(g.view_end(), Some(i64::MAX));
}

#[test]
fn each_edge_event_gets_the_next_secondary_key() {
    let mut g = Graph::new();
    assert_eq!(g.next_event_id(), 0);
    g.add_vertex(1, 1, &no_props()).unwrap();
    assert_eq!(g.next_event_id(), 0);
    g.add_edge(5, 1, 2, &no_props(), None).unwrap();
    g.add_edge(5, 1, 2, &no_props(), None).unwrap();
    g.delete_edge(5, 1, 2, None).unwrap();
    assert_eq!(g.next_event_id(), 3);
    assert_eq!(TimeIndexEntry::from_input(&g, 8i64), Ok(TimeIndexEntry(8, 3)));
    assert_eq!(
        TimeIndexEntry::from_input(&g, FormattedTime { time: "1970-01-01", format: "%Y-%m-%d" }),
        Ok(TimeIndexEntry(0, 3))
    );
    assert_eq!(
        TimeIndexEntry::from_input(&g, FormattedTime { time: "1970", format: "%Y-%m-%d" }),
        Err(GraphError::ParseTime)
    );
    let e = edge_of(&g, 1, 2);
    let exploded = g.edge_exploded(e, LayerIds::All);
    assert_eq!(exploded.len(), 2);
    assert_eq!(exploded[0].time, Some(TimeIndexEntry(5, 0)));
    assert_eq!(exploded[1].time, Some(TimeIndexEntry(5, 1)));
}

#[test]
fn deletions_keep_additions_and_properties() {
    let mut g = Graph::new();
    g.add_edge(1, 1, 2, &named("weight", Prop::I64(3)), None).unwrap();
    g.add_edge(4, 1, 2, &named("weight", Prop::I64(5)), None).unwrap();
    let e = edge_of(&g, 1, 2);
    let before_times = g.core_edge(e.e_pid).additions_in(&LayerIds::All, None).iter_t();
    let before_props = values(&g.temporal_edge_prop_vec(e, "weight", LayerIds::All));
    let before_vertices = (g.vertex_history(VID(0)), g.vertex_history(VID(1)));
    g.delete_edge(3, 1, 2, None).unwrap();
    g.delete_edge(2, 1, 2, None).unwrap();
    g.delete_edge(3, 1, 2, None).unwrap();
    assert_eq!(g.core_edge(e.e_pid).additions_in(&LayerIds::All, None).iter_t(), before_times);
    assert_eq!(values(&g.temporal_edge_prop_vec(e, "weight", LayerIds::All)), before_props);
    assert_eq!((g.vertex_history(VID(0)), g.vertex_history(VID(1))), before_vertices);
    assert_eq!(g.edge_deletion_history(e, LayerIds::All), vec![2, 3, 3]);
    assert_eq!(g.edge_deletions(e).len(), 3);
}

#[test]
fn n_deletions_add_n_entries() {
    let mut g = Graph::new();
    g.add_edge(0, 1, 2, &no_props(), Some("a")).unwrap();
    g.delete_edge(7, 1, 2, Some("a")).unwrap();
    let e = edge_of(&g, 1, 2);
    let before = g.edge_deletion_history(e, LayerIds::All).len();
    assert_eq!(before, 1);
    for _ in 0..25 {
        g.delete_edge(7, 1, 2, Some("a")).unwrap();
    }
    for t in 0..25 {
        g.delete_edge(t, 1, 2, None).unwrap();
    }
    assert_eq!(g.edge_deletion_history(e, LayerIds::All).len(), before + 50);
    assert_eq!(g.edge_deletion_history(e, LayerIds::One(1)).len(), 26);
    assert_eq!(g.edge_deletion_history(e, LayerIds::One(0)), (0..25).collect::<Vec<i64>>());
}

#[test]
fn delete_before_add_creates_an_invisible_edge() {
    let mut g = Graph::new();
    g.delete_edge(3, 1, 2, None).unwrap();
    assert_eq!(g.num_vertex_records(), 2);
    assert_eq!(g.num_edge_records(), 1);
    assert_eq!(g.num_vertices(), 0);
    assert_eq!(g.num_edges(), 0);
    assert!(!g.has_edge(1, 2));
    g.add_edge(5, 1, 2, &no_props(), None).unwrap();
    assert_eq!(g.num_edge_records(), 1);
    assert_eq!(g.num_edges(), 1);
    assert!(g.has_edge(1, 2));
    assert_eq!(g.edge_deletion_history(edge_of(&g, 1, 2), LayerIds::All), vec![3]);
}

#[test]
fn delete_in_an_unknown_layer_fails_without_effect() {
    let mut g = Graph::new();
    g.add_edge(1, 1, 2, &no_props(), None).unwrap();
    let before = format!("{:?}", g);
    assert_eq!(g.delete_edge(2, 1, 2, Some("nowhere")), Err(GraphError::InvalidLayer));
    assert_eq!(g.delete_edge(2, 8, 9, Some("nowhere")), Err(GraphError::InvalidLayer));
    assert_eq!(format!("{:?}", g), before);
}

#[test]
fn custom_time_format_is_parsed_or_refused() {
    let mut g = Graph::new();
    g.add_edge(1, 1, 2, &no_props(), None).unwrap();
    let before = format!("{:?}", g);
    assert_eq!(
        g.delete_edge_with_custom_time_format("not a time", "%Y-%m-%d", 1, 2, None),
        Err(GraphError::ParseTime)
    );
    assert_eq!(
        g.delete_edge_with_custom_time_format("2021-02-30", "%Y-%m-%d", 1, 2, None),
        Err(GraphError::ParseTime)
    );
    assert_eq!(format!("{:?}", g), before);
    assert_eq!(g.delete_edge_with_custom_time_format("1970-01-02", "%Y-%m-%d", 1, 2, None), Ok(()));
    assert_eq!(g.edge_deletion_history(edge_of(&g, 1, 2), LayerIds::All), vec![86400000]);
    assert_eq!(
        g.delete_edge_with_custom_time_format("1970-01-02", "%Y-%m-%d", 1, 2, Some("x")),
        Err(GraphError::InvalidLayer)
    );
}

#[test]
fn formatted_time_works_for_every_operation() {
    let mut g = Graph::new();
    let day = |d: &'static str| FormattedTime { time: d, format: "%Y-%m-%d" };
    assert_eq!(g.add_vertex(day("1970-01-03"), 1, &no_props()), Ok(()));
    assert_eq!(g.add_edge(day("1970-01-02"), 1, 2, &no_props(), None), Ok(()));
    assert_eq!(g.delete_edge(day("1970-01-04"), 1, 2, None), Ok(()));
    assert_eq!(g.add_properties(day("1970-01-05"), &named("p", Prop::Bool(true))), Ok(()));
    assert_eq!(g.vertex_history(VID(0)), vec![86400000, 2 * 86400000]);
    assert_eq!(g.temporal_prop_vec("p")[0].0, 4 * 86400000);
    let before = format!("{:?}", g);
    assert_eq!(g.add_vertex(day("1970-1-3"), 9, &no_props()), Err(GraphError::ParseTime));
    assert_eq!(g.add_edge(day("soon"), 1, 2, &no_props(), None), Err(GraphError::ParseTime));
    assert_eq!(g.delete_edge(day(""), 1, 2, None), Err(GraphError::ParseTime));
    assert_eq!(g.add_properties(day("1970-13-01"), &no_props()), Err(GraphError::ParseTime));
    assert_eq!(format!("{:?}", g), before);
}

#[test]
fn static_properties_overwrite_and_temporal_properties_append() {
    let mut g = Graph::new();
    g.add_vertex(1, 1, &no_props()).unwrap();
    g.add_edge(1, 1, 2, &no_props(), None).unwrap();
    assert_eq!(g.add_vertex_properties(1, &named("colour", Prop::Str("red".to_string()))), Ok(()));
    assert_eq!(g.add_vertex_properties(1, &named("colour", Prop::Str("blue".to_string()))), Ok(()));
    assert_eq!(g.add_vertex_properties(1, &named("size", Prop::U64(4))), Ok(()));
    let v = g.vertex_id(1).unwrap();
    assert_eq!(
        format!("{:?}", g.vertex(v).props().static_value(&"colour".to_string())),
        "Some(Str(\"blue\"))"
    );
    assert_eq!(format!("{:?}", g.vertex(v).props().static_value(&"size".to_string())), "Some(U64(4))");
    assert_eq!(format!("{:?}", g.vertex(v).props().static_value(&"age".to_string())), "None");
    assert_eq!(g.add_edge_properties(1, 2, &named("price", Prop::I64(100)), None), Ok(()));
    let e = g.find_edge(1, 2).unwrap();
    assert_eq!(
        format!("{:?}", g.edge(e).props().static_value(&"price".to_string())),
        "Some(I64(100))"
    );
    assert_eq!(g.add_static_properties(&named("name", Prop::Str("g".to_string()))), Ok(()));
    assert_eq!(g.add_static_properties(&named("name", Prop::Str("h".to_string()))), Ok(()));
    assert_eq!(
        format!("{:?}", g.graph_props().static_value(&"name".to_string())),
        "Some(Str(\"h\"))"
    );
    assert_eq!(g.add_properties(9, &named("load", Prop::I64(1))), Ok(()));
    assert_eq!(g.add_properties(3, &named("load", Prop::I64(2))), Ok(()));
    assert_eq!(g.add_properties(9, &named("load", Prop::I64(3))), Ok(()));
    assert_eq!(g.add_properties(9, &named("load", Prop::I64(1))), Ok(()));
    assert_eq!(
        values(&g.temporal_prop_vec("load")),
        vec![(3, "I64(2)".to_string()), (9, "I64(1)".to_string()), (9, "I64(3)".to_string())]
    );
    assert_eq!(values(&g.temporal_prop_vec_window("load", 4, 10)).len(), 2);
    assert_eq!(values(&g.temporal_prop_vec_window("load", 3, 9)), vec![(3, "I64(2)".to_string())]);
}

#[test]
fn property_operations_on_missing_entities_fail_without_effect() {
    let mut g = Graph::new();
    g.add_edge(1, 1, 2, &no_props(), Some("a")).unwrap();
    let before = format!("{:?}", g);
    let p = named("k", Prop::Bool(false));
    assert_eq!(g.add_vertex_properties(3, &p), Err(GraphError::VertexNotFound));
    assert_eq!(g.add_edge_properties(2, 1, &p, None), Err(GraphError::EdgeNotFound));
    assert_eq!(g.add_edge_properties(1, 3, &p, None), Err(GraphError::EdgeNotFound));
    assert_eq!(g.add_edge_properties(1, 2, &p, Some("b")), Err(GraphError::InvalidLayer));
    assert_eq!(format!("{:?}", g), before);
    assert_eq!(g.add_edge_properties(1, 2, &p, Some("a")), Ok(()));
}

#[test]
fn errors_describe_themselves() {
    assert_eq!(GraphError::ParseTime.message(), "the time does not match the format");
    assert_eq!(GraphError::VertexNotFound.message(), "no vertex has this identifier");
    assert_eq!(GraphError::EdgeNotFound.message(), "no edge joins these vertices");
    assert_eq!(GraphError::InvalidLayer.message(), "no layer has this name");
}

#[test]
fn layers_have_independent_histories() {
    let mut g = Graph::new();
    g.add_edge(1, 1, 2, &named("w", Prop::I64(1)), Some("a")).unwrap();
    g.add_edge(2, 1, 2, &named("w", Prop::I64(2)), Some("b")).unwrap();
    g.add_edge(3, 1, 2, &named("w", Prop::I64(3)), Some("a")).unwrap();
    g.add_edge(0, 1, 2, &named("w", Prop::I64(0)), None).unwrap();
    g.delete_edge(4, 1, 2, Some("b")).unwrap();
    assert_eq!(g.num_layers(), 3);
    let a = g.layer_id("a").unwrap();
    let b = g.layer_id("b").unwrap();
    assert_eq!((a, b), (1, 2));
    let e = edge_of(&g, 1, 2);
    assert_eq!(g.edge_earliest_time(e, LayerIds::All), Some(0));
    assert_eq!(g.edge_latest_time(e, LayerIds::All), Some(3));
    assert_eq!(g.edge_earliest_time(e, LayerIds::One(a)), Some(1));
    assert_eq!(g.edge_latest_time(e, LayerIds::One(b)), Some(2));
    assert_eq!(g.edge_earliest_time(e, LayerIds::NoLayers), None);
    assert_eq!(g.edge_earliest_time(e, LayerIds::One(7)), None);
    assert_eq!(g.edge_deletion_history(e, LayerIds::One(a)), Vec::<i64>::new());
    assert_eq!(g.edge_deletion_history(e, LayerIds::Multiple(vec![a, b])), vec![4]);
    let layers: Vec<Option<usize>> = g.edge_layers(e, LayerIds::All).iter().map(|r| r.layer).collect();
    assert_eq!(layers, vec![Some(0), Some(1), Some(2)]);
    let exploded: Vec<(Option<usize>, i64)> =
        g.edge_exploded(e, LayerIds::All).iter().map(|r| (r.layer, r.time.unwrap().t())).collect();
    assert_eq!(exploded, vec![(Some(0), 0), (Some(1), 1), (Some(1), 3), (Some(2), 2)]);
    assert_eq!(
        values(&g.temporal_edge_prop_vec(e, "w", LayerIds::One(a))),
        vec![(1, "I64(1)".to_string()), (3, "I64(3)".to_string())]
    );
    assert_eq!(values(&g.temporal_edge_prop_vec(e, "w", LayerIds::All)).len(), 4);
    assert_eq!(
        values(&g.temporal_edge_prop_vec_window(e, "w", 2, 4, LayerIds::All)),
        vec![(2, "I64(2)".to_string()), (3, "I64(3)".to_string())]
    );
}

#[test]
fn an_exploded_reference_stands_for_one_occurrence() {
    let mut g = Graph::new();
    g.add_edge(1, 1, 2, &no_props(), None).unwrap();
    g.add_edge(6, 1, 2, &no_props(), None).unwrap();
    let e = edge_of(&g, 1, 2);
    let occurrences = g.edge_exploded(e, LayerIds::All);
    assert_eq!(occurrences.len(), 2);
    let second = occurrences[1];
    assert_eq!(g.edge_exploded(second, LayerIds::All), vec![second]);
    assert_eq!(g.edge_earliest_time(second, LayerIds::All), Some(6));
    assert_eq!(g.edge_latest_time(second, LayerIds::All), Some(6));
    assert_eq!(g.edge_window_exploded(second, 0..6, LayerIds::All), Vec::<EdgeRef>::new());
    assert_eq!(g.edge_earliest_time_window(second, 0..6, LayerIds::All), None);
    assert_eq!(g.edge_latest_time_window(e, 0..6, LayerIds::All), Some(1));
    assert_eq!(g.edge_window_exploded(e, 2..7, LayerIds::All), vec![second]);
    assert_eq!(g.edge_window_layers(e, 2..7, LayerIds::All).len(), 1);
    assert_eq!(g.edge_window_layers(e, 2..6, LayerIds::All).len(), 0);
    assert_eq!(g.edge_deletion_history_window(e, 0..9, LayerIds::All), Vec::<i64>::new());
}
