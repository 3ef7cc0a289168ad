//! What the mutation operations keep and what they add: idempotent vertex
//! addition, the vertices that an edge addition creates, and the history
//! that a deletion leaves in place.

use vstd::prelude::*;
use crate::entities::{lemma_merge_layers, lemma_touch, EdgeView, VertexView, VID};
use crate::graph::{
    events_below, lemma_add_vertex, lemma_delete_edge, lemma_edge_index, lemma_resolve_edge,
    lemma_resolve_vertex, lemma_vertex_index, GraphView,
};
use crate::props::{lemma_add_records_idempotent, PropValue, PropsView};
use crate::time_index::{
    insert_entry, lemma_insert_entry, lemma_sorted_unique, TimeIndexEntry,
};

verus! {

/// Vertex addition is idempotent: adding a vertex a second time, with the
/// same time, identifier and properties, leaves the store as the first
/// addition left it.
pub proof fn lemma_add_vertex_idempotent(
    g: GraphView,
    t: i64,
    gid: u64,
    props: Seq<(Seq<char>, PropValue)>,
)
    requires
        g.wf(),
        g.add_vertex(t, gid, props).fits(),
    ensures
        g.add_vertex(t, gid, props).add_vertex(t, gid, props) == g.add_vertex(t, gid, props),
{
    let (g1, v) = g.resolve_vertex(gid);
    lemma_resolve_vertex(g, gid);
    lemma_add_vertex(g, t, gid, props);
    let h = g.add_vertex(t, gid, props);
    assert(h.resolve_vertex(gid) == (h, v));
    let rec = g1.vertices[v];
    assert(rec.wf());
    lemma_touch(rec, t);
    lemma_add_records_idempotent(rec.props.temporal, t, 0, props);
    let once = rec.touch(t).add_props(t, props);
    assert(h.vertices[v] == once);
    assert(once.touch(t).add_props(t, props) == once);
    assert(h.add_vertex(t, gid, props).vertices =~= h.vertices);
}

/// An edge addition between two distinct identifiers that the store has
/// not seen creates exactly two vertices, each with the one addition entry
/// at `t`, and leaves the vertices that were there as they were.
pub proof fn lemma_add_edge_creates_endpoints(
    g: GraphView,
    t: i64,
    src: u64,
    dst: u64,
    props: Seq<(Seq<char>, PropValue)>,
    layer: Option<Seq<char>>,
)
    requires
        g.wf(),
        src != dst,
        g.vertex_index(src) is None,
        g.vertex_index(dst) is None,
        g.add_edge(t, src, dst, props, layer).fits(),
    ensures
        ({
            let h = g.add_edge(t, src, dst, props, layer);
            let n = g.vertices.len() as int;
            &&& h.vertices.len() == n + 2
            &&& h.vertices[n] == (VertexView {
                gid: src,
                additions: seq![TimeIndexEntry(t, 0)],
                props: PropsView::empty(),
            })
            &&& h.vertices[n + 1] == (VertexView {
                gid: dst,
                additions: seq![TimeIndexEntry(t, 0)],
                props: PropsView::empty(),
            })
            &&& forall|i: int| 0 <= i < n ==> #[trigger] h.vertices[i] == g.vertices[i]
        }),
{
    let n = g.vertices.len() as int;
    let (g1, s) = g.resolve_vertex(src);
    lemma_resolve_vertex(g, src);
    assert(g1.vertex_index(dst) is None) by {
        if exists|i: int| 0 <= i < g1.vertices.len() && (#[trigger] g1.vertices[i]).gid == dst {
            let i = choose|i: int| 0 <= i < g1.vertices.len() && (#[trigger] g1.vertices[i]).gid == dst;
            if i < n {
                assert(g.vertices[i].gid == dst);
            }
        }
    }
    let (g2, d) = g1.resolve_vertex(dst);
    assert(s == n && d == n + 1);
    let one = seq![TimeIndexEntry(t, 0)];
    assert(insert_entry(Seq::<TimeIndexEntry>::empty(), TimeIndexEntry(t, 0)) =~= one);
    let h = g.add_edge(t, src, dst, props, layer);
    assert(h.vertices[n].additions == one);
    assert(h.vertices[n + 1].additions == one);
}

/// The number of deletions recorded for the edge between the vertices
/// `src` and `dst`, over all layers; zero if there is no such edge.
pub open spec fn deletion_count(g: GraphView, src: u64, dst: u64) -> nat {
    match g.find_edge(src, dst) {
        Some(e) => g.edges[e].deletions_in(Set::full(), None).len(),
        None => 0,
    }
}

/// The store after the deletions of the edge at the times `ts`, first to last.
pub open spec fn delete_edges(g: GraphView, ts: Seq<i64>, src: u64, dst: u64, layer: int) -> GraphView
    decreases ts.len(),
{
    if ts.len() == 0 {
        g
    } else {
        delete_edges(g, ts.drop_last(), src, dst, layer).delete_edge(ts.last(), src, dst, layer)
    }
}

/// A deletion removes and reorders nothing: it leaves every vertex record,
/// and the additions, the properties and the earlier deletions of every
/// edge, as they were.
pub proof fn lemma_delete_edge_keeps_history(g: GraphView, t: i64, src: u64, dst: u64, layer: int)
    requires
        g.wf(),
        0 <= layer < g.layer_names.len(),
        g.delete_edge(t, src, dst, layer).fits(),
    ensures
        ({
            let h = g.delete_edge(t, src, dst, layer);
            &&& h.extends(g)
            &&& h.layer_names == g.layer_names
            &&& h.props == g.props
            &&& forall|i: int| 0 <= i < g.vertices.len() ==> #[trigger] h.vertices[i] == g.vertices[i]
            &&& forall|j: int|
                0 <= j < g.edges.len() ==> (#[trigger] h.edges[j]).props == g.edges[j].props
            &&& forall|j: int, l: int|
                0 <= j < g.edges.len() ==> #[trigger] h.edges[j].additions(l)
                    == g.edges[j].additions(l)
            &&& forall|j: int, l: int, x: TimeIndexEntry|
                0 <= j < g.edges.len() && g.edges[j].deletions(l).contains(x)
                    ==> #[trigger] h.edges[j].deletions(l).contains(x)
        }),
{
    let h = g.delete_edge(t, src, dst, layer);
    lemma_delete_edge(g, t, src, dst, layer);
    let (g1, s) = g.resolve_vertex(src);
    lemma_resolve_vertex(g, src);
    let (g2, d) = g1.resolve_vertex(dst);
    lemma_resolve_vertex(g1, dst);
    let (g3, e) = g2.resolve_edge(VID(s as usize), VID(d as usize));
    lemma_resolve_edge(g2, VID(s as usize), VID(d as usize));
    let x0 = TimeIndexEntry(t, g3.next_event);
    let r0 = g3.edges[e];
    let gr = r0.grown(layer as usize);
    lemma_insert_entry(gr.layers[layer].deletions, x0);
    assert forall|i: int| 0 <= i < g.vertices.len() implies #[trigger] h.vertices[i]
        == g.vertices[i] by {
        assert(g1.vertices[i] == g.vertices[i]);
        assert(g2.vertices[i] == g1.vertices[i]);
    }
    assert forall|j: int| 0 <= j < g.edges.len() implies (#[trigger] h.edges[j]).props
        == g.edges[j].props by {
        assert(g3.edges[j] == g.edges[j]);
    }
    assert forall|j: int, l: int| 0 <= j < g.edges.len() implies #[trigger] h.edges[j].additions(l)
        == g.edges[j].additions(l) by {
        assert(g3.edges[j] == g.edges[j]);
        if j == e {
            if 0 <= l < r0.layers.len() {
                assert(gr.layers[l] == r0.layers[l]);
            }
        }
    }
    assert forall|j: int, l: int, x: TimeIndexEntry|
        0 <= j < g.edges.len() && g.edges[j].deletions(l).contains(x) implies #[trigger] h.edges[j].deletions(
        l,
    ).contains(x) by {
        assert(g3.edges[j] == g.edges[j]);
        if j == e {
            if 0 <= l < r0.layers.len() {
                assert(gr.layers[l] == r0.layers[l]);
            }
        }
    }
}

/// While secondary keys are left, a deletion adds exactly one entry to the
/// deletions of the edge.
pub proof fn lemma_delete_edge_adds_one(g: GraphView, t: i64, src: u64, dst: u64, layer: int)
    requires
        g.wf(),
        0 <= layer < g.layer_names.len(),
        g.next_event < usize::MAX,
        g.delete_edge(t, src, dst, layer).fits(),
    ensures
        g.delete_edge(t, src, dst, layer).find_edge(src, dst) is Some,
        deletion_count(g.delete_edge(t, src, dst, layer), src, dst) == deletion_count(g, src, dst)
            + 1,
        g.delete_edge(t, src, dst, layer).next_event == g.next_event + 1,
{
    let h = g.delete_edge(t, src, dst, layer);
    lemma_delete_edge(g, t, src, dst, layer);
    let (g1, s) = g.resolve_vertex(src);
    lemma_resolve_vertex(g, src);
    let (g2, d) = g1.resolve_vertex(dst);
    lemma_resolve_vertex(g1, dst);
    let sv = VID(s as usize);
    let dv = VID(d as usize);
    let (g3, e) = g2.resolve_edge(sv, dv);
    lemma_resolve_edge(g2, sv, dv);
    let x = TimeIndexEntry(t, g3.next_event);
    let r0 = g3.edges[e];
    let gr = r0.grown(layer as usize);
    let r1 = r0.delete(layer as usize, x);
    assert(h.edges[e] == r1);
    // the edge is found in the new store
    assert(g2.vertices[s].gid == src) by {
        assert(g1.vertices[s].gid == src);
    }
    lemma_vertex_index(h, src, s);
    lemma_vertex_index(h, dst, d);
    lemma_edge_index(h, sv, dv, e);
    // the count before is that of the record that the deletion extends
    let full = Set::<usize>::full();
    let d0 = r0.deletions_in(full, None);
    let d1 = r1.deletions_in(full, None);
    assert(r0.wf());
    assert(r1.wf());
    lemma_merge_layers(r0.deletion_indices(), full, None, r0.layers.len());
    lemma_merge_layers(r1.deletion_indices(), full, None, r1.layers.len());
    assert(deletion_count(g, src, dst) == d0.len()) by {
        if g.vertex_index(src) is Some && g.vertex_index(dst) is Some && g.edge_index(sv, dv) is Some {
            assert(g.find_edge(src, dst) == Some(e));
        } else {
            if g2.edge_index(sv, dv) is Some {
                let k = g2.edge_index(sv, dv)->0;
                assert(g2.edges[k].src == sv && g2.edges[k].dst == dv);
                assert(g.edges[k].src.0 < g.vertices.len());
                assert(g.edges[k].dst.0 < g.vertices.len());
            }
            assert(r0 == EdgeView::new(sv, dv));
            assert(d0 =~= Seq::empty());
        }
    }
    // the new entry was not there, and nothing else changed
    assert(events_below(r0, g3.next_event));
    assert(!d0.contains(x)) by {
        if d0.contains(x) {
            let l = choose|l: int|
                0 <= l < r0.layers.len() && full.contains(l as usize) && (
                #[trigger] r0.deletion_indices()[l]).contains(x);
            let i = choose|i: int|
                0 <= i < r0.layers[l].deletions.len() && r0.layers[l].deletions[i] == x;
            assert(r0.layers[l].deletions[i].1 < g3.next_event);
        }
    }
    lemma_insert_entry(d0, x);
    lemma_insert_entry(gr.layers[layer].deletions, x);
    let want = insert_entry(d0, x);
    assert forall|y: TimeIndexEntry| d1.contains(y) <==> want.contains(y) by {
        if d1.contains(y) {
            let l = choose|l: int|
                0 <= l < r1.layers.len() && full.contains(l as usize) && (
                #[trigger] r1.deletion_indices()[l]).contains(y);
            if l == layer {
                assert(r1.layers[l].deletions.contains(y));
                if y != x {
                    assert(gr.layers[l].deletions.contains(y));
                    assert(l < r0.layers.len());
                    assert(r0.deletion_indices()[l].contains(y));
                }
            } else {
                assert(gr.layers[l].deletions.contains(y));
                assert(l < r0.layers.len());
                assert(r0.deletion_indices()[l].contains(y));
            }
        }
        if want.contains(y) {
            if y == x {
                assert(r1.layers[layer].deletions.contains(y));
                assert(r1.deletion_indices()[layer].contains(y));
            } else {
                let l = choose|l: int|
                    0 <= l < r0.layers.len() && full.contains(l as usize) && (
                    #[trigger] r0.deletion_indices()[l]).contains(y);
                assert(gr.layers[l] == r0.layers[l]);
                assert(r1.layers[l].deletions.contains(y));
                assert(r1.deletion_indices()[l].contains(y));
            }
        }
    }
    lemma_sorted_unique(d1, want);
}

/// While secondary keys are left, the deletion history of an edge after
/// `ts.len()` deletions has exactly `ts.len()` entries more than it had.
pub proof fn lemma_delete_edges_count(g: GraphView, ts: Seq<i64>, src: u64, dst: u64, layer: int)
    requires
        g.wf(),
        0 <= layer < g.layer_names.len(),
        g.next_event + ts.len() <= usize::MAX,
        delete_edges(g, ts, src, dst, layer).fits(),
    ensures
        delete_edges(g, ts, src, dst, layer).wf(),
        delete_edges(g, ts, src, dst, layer).layer_names == g.layer_names,
        delete_edges(g, ts, src, dst, layer).next_event == g.next_event + ts.len(),
        deletion_count(delete_edges(g, ts, src, dst, layer), src, dst) == deletion_count(
            g,
            src,
            dst,
        ) + ts.len(),
    decreases ts.len(),
{
    if ts.len() > 0 {
        let mid = delete_edges(g, ts.drop_last(), src, dst, layer);
        lemma_delete_edges_count(g, ts.drop_last(), src, dst, layer);
        lemma_delete_edge(mid, ts.last(), src, dst, layer);
        lemma_delete_edge_keeps_history(mid, ts.last(), src, dst, layer);
        lemma_delete_edge_adds_one(mid, ts.last(), src, dst, layer);
    }
}

} // verus!
