use raphtory::graph::Graph;
use raphtory::graph_view_ops::GraphViewOps;
use raphtory::graphgen::{
    attach, attachment_fits, ba_preferential_attachment, choose_targets, collect_degrees,
    pick_position, sum_degrees, try_ba_preferential_attachment,
};
use raphtory::mutation::AdditionOps;
use raphtory::props::Prop;
use rand::Rng;

fn no_props() -> Vec<(String, Prop)> {
    Vec::new()
}

/// Adds `vertices_to_add` vertices, each joined to `edges_per_step`
/// distinct vertices picked at random among those that are there.
fn random_attachment(graph: &mut Graph, vertices_to_add: usize, edges_per_step: usize) {
    let mut rng = rand::thread_rng();
    let mut latest_time = graph.latest_time().unwrap_or(0);
    let mut ids: Vec<u64> = graph.vertex_ids();
    let mut max_id = ids.iter().max().copied().unwrap_or(0);
    while ids.len() < edges_per_step {
        max_id += 1;
        latest_time += 1;
        graph.add_vertex(latest_time, max_id, &no_props()).unwrap();
        ids.push(max_id);
    }
    for _ in 0..vertices_to_add {
        let mut picked: Vec<usize> = Vec::new();
        while picked.len() < edges_per_step {
            let pos = rng.gen_range(0..ids.len());
            if !picked.contains(&pos) {
                picked.push(pos);
            }
        }
        max_id += 1;
        latest_time += 1;
        for pos in picked {
            graph.add_edge(latest_time, max_id, ids[pos], &no_props(), None).unwrap();
        }
        ids.push(max_id);
    }
}

#[test]
fn blank_graph() {
    let mut graph = Graph::new();
    assert!(attachment_fits(&graph, 1000, 10));
    ba_preferential_attachment(&mut graph, 1000, 10);
    assert_eq!(graph.num_edges(), 10009);
    assert_eq!(graph.num_vertices(), 1010);
}

#[test]
fn only_nodes() {
    let mut graph = Graph::new();
    for i in 0..10 {
        graph.add_vertex(i, i as u64, &no_props()).map_err(|err| println!("{:?}", err)).ok();
    }
    assert!(attachment_fits(&graph, 1000, 5));
    ba_preferential_attachment(&mut graph, 1000, 5);
    assert_eq!(graph.num_edges(), 5009);
    assert_eq!(graph.num_vertices(), 1010);
}

#[test]
fn prior_graph() {
    let mut graph = Graph::new();
    random_attachment(&mut graph, 1000, 3);
    assert!(attachment_fits(&graph, 500, 4));
    ba_preferential_attachment(&mut graph, 500, 4);
    assert_eq!(graph.num_edges(), 5000);
    assert_eq!(graph.num_vertices(), 1503);
}

#[test]
fn new_vertices_follow_the_greatest_identifier_and_the_latest_time() {
    let mut graph = Graph::new();
    graph.add_edge(40, 7, 3, &no_props(), None).unwrap();
    graph.add_edge(50, 3, 20, &no_props(), None).unwrap();
    assert!(try_ba_preferential_attachment(&mut graph, 4, 2));
    assert_eq!(graph.vertex_ids(), vec![7, 3, 20, 21, 22, 23, 24]);
    assert_eq!(graph.num_edges(), 2 + 4 * 2);
    assert_eq!(graph.latest_time(), Some(54));
    for (i, id) in [21u64, 22, 23, 24].iter().enumerate() {
        let v = graph.vertex_id(*id).unwrap();
        assert_eq!(graph.vertex(v).additions().first_t(), Some(51 + i as i64));
        assert_eq!(graph.degree(v) >= 2, true);
    }
}

#[test]
fn seeds_and_chain_are_laid_at_the_latest_time() {
    let mut graph = Graph::new();
    graph.add_vertex(9, 5, &no_props()).unwrap();
    assert!(try_ba_preferential_attachment(&mut graph, 0, 3));
    assert_eq!(graph.vertex_ids(), vec![5, 6, 7]);
    assert_eq!(graph.num_edges(), 2);
    assert!(graph.has_edge(6, 5));
    assert!(graph.has_edge(7, 6));
    assert_eq!(graph.latest_time(), Some(9));
    assert_eq!(graph.earliest_time(), Some(9));
}

#[test]
fn no_edges_per_step_adds_isolated_vertices() {
    let mut graph = Graph::new();
    assert!(try_ba_preferential_attachment(&mut graph, 5, 0));
    assert_eq!(graph.num_vertices(), 5);
    assert_eq!(graph.num_edges(), 0);
    assert_eq!(graph.vertex_ids(), vec![1, 2, 3, 4, 5]);
}

#[test]
fn a_vertex_without_neighbours_to_choose_stays_alone() {
    let mut graph = Graph::new();
    assert!(try_ba_preferential_attachment(&mut graph, 1, 1));
    assert_eq!(graph.num_vertices(), 2);
    assert_eq!(graph.num_edges(), 0);
}

#[test]
fn growth_that_does_not_fit_is_refused() {
    let mut graph = Graph::new();
    graph.add_vertex(i64::MAX - 1, u64::MAX - 2, &no_props()).unwrap();
    let before = format!("{:?}", graph);
    assert!(!attachment_fits(&graph, 2, 0));
    assert!(!try_ba_preferential_attachment(&mut graph, 2, 0));
    assert!(!try_ba_preferential_attachment(&mut graph, usize::MAX, usize::MAX));
    assert_eq!(format!("{:?}", graph), before);
    assert!(try_ba_preferential_attachment(&mut graph, 1, 0));
    assert_eq!(graph.vertex_ids(), vec![u64::MAX - 2, u64::MAX - 1]);
    assert_eq!(graph.latest_time(), Some(i64::MAX));
}

#[test]
fn pick_position_walks_the_running_sum() {
    let degrees = vec![2usize, 0, 3, 1];
    let none = vec![false; 4];
    assert_eq!(pick_position(&degrees, &none, 1), 0);
    assert_eq!(pick_position(&degrees, &none, 2), 0);
    assert_eq!(pick_position(&degrees, &none, 3), 2);
    assert_eq!(pick_position(&degrees, &none, 5), 2);
    assert_eq!(pick_position(&degrees, &none, 6), 3);
    let skipped = vec![true, false, false, false];
    assert_eq!(pick_position(&degrees, &skipped, 1), 2);
    assert_eq!(pick_position(&degrees, &skipped, 3), 2);
    assert_eq!(pick_position(&degrees, &skipped, 4), 3);
}

#[test]
fn chosen_targets_are_distinct_and_have_positive_weight() {
    let mut rng = rand::thread_rng();
    let degrees = vec![1usize, 0, 4, 0, 2, 7];
    for _ in 0..50 {
        let chosen = choose_targets(&mut rng, &degrees, 14, 3);
        assert_eq!(chosen.len(), 3);
        for (i, pos) in chosen.iter().enumerate() {
            assert!(degrees[*pos] > 0);
            assert!(!chosen[..i].contains(pos));
        }
        let all = choose_targets(&mut rng, &degrees, 14, 6);
        let mut sorted = all.clone();
        sorted.sort();
        assert_eq!(sorted, vec![0, 2, 4, 5]);
    }
    assert_eq!(choose_targets(&mut rng, &vec![0, 0], 0, 2), Vec::<usize>::new());
    assert_eq!(choose_targets(&mut rng, &vec![0, 3], 3, 1), vec![1]);
    assert_eq!(choose_targets(&mut rng, &Vec::new(), 0, 4), Vec::<usize>::new());
}

#[test]
fn the_generator_does_not_always_pick_the_same_target() {
    let mut rng = rand::thread_rng();
    let degrees = vec![1usize; 100];
    let first = choose_targets(&mut rng, &degrees, 100, 1);
    let mut differs = false;
    for _ in 0..200 {
        if choose_targets(&mut rng, &degrees, 100, 1) != first {
            differs = true;
        }
    }
    assert!(differs);
}

#[test]
fn degrees_and_sums_are_collected() {
    let mut graph = Graph::new();
    graph.add_edge(1, 10, 20, &no_props(), None).unwrap();
    graph.add_edge(2, 20, 30, &no_props(), None).unwrap();
    graph.add_edge(3, 20, 20, &no_props(), None).unwrap();
    graph.add_vertex(4, 5, &no_props()).unwrap();
    let (degrees, max_id) = collect_degrees(&graph);
    assert_eq!(degrees, vec![1, 3, 1, 0]);
    assert_eq!(max_id, 30);
    assert_eq!(sum_degrees(&degrees), Some(5));
    assert_eq!(sum_degrees(&vec![usize::MAX, 1]), None);
    assert_eq!(sum_degrees(&Vec::new()), Some(0));
}

#[test]
fn attach_joins_the_new_vertex_to_the_chosen_positions() {
    let mut graph = Graph::new();
    graph.add_vertex(0, 11, &no_props()).unwrap();
    graph.add_vertex(0, 12, &no_props()).unwrap();
    graph.add_vertex(0, 13, &no_props()).unwrap();
    attach(&mut graph, 6, 99, &vec![2, 0]);
    assert_eq!(graph.num_vertices(), 4);
    assert_eq!(graph.num_edges(), 2);
    assert!(graph.has_edge(99, 13));
    assert!(graph.has_edge(99, 11));
    assert!(!graph.has_edge(99, 12));
    assert_eq!(graph.latest_time(), Some(6));
}
