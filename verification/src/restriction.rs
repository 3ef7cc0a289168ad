//! What a view shows, as a store of its own: what is left of a store when
//! every time index and every property history is cut down to the window,
//! the layers and the vertices of the view. A view answers every query as
//! a graph without restrictions over that store would.

use vstd::prelude::*;
use crate::entities::{
    active_layers, edge_deletion_times, edge_earliest, edge_history, edge_latest, edge_layers,
    exploded_refs,
    explode_layers, layer_refs, lemma_included, merge_layers, EdgeLayerView, EdgeRef, EdgeView,
    VertexView, VID,
};
use crate::graph::{
    endpoints_distinct, events_below, gids_distinct, GraphView,
};
use crate::graph_view_ops::{edge_shown, vertex_shown, view_degree, view_edges, view_vertices};
use crate::props::{history, selects, time_ordered, PropRecordView, PropsView};
use crate::time_index::{
    clamp, in_bounds, lemma_restrict, lemma_restrict_clamp, restrict, sorted, TimeIndexEntry,
};
use crate::time_semantics::{earliest_upto, latest_upto};

verus! {

/// The bounds `w` narrowed further to the bounds `u`.
pub open spec fn narrowed(w: Option<(i64, i64)>, u: Option<(i64, i64)>) -> Option<(i64, i64)> {
    match u {
        None => w,
        Some((start, end)) => clamp(w, start, end),
    }
}

/// The records within `w` in one of `layers`, in their order.
pub open spec fn cut_records(
    s: Seq<PropRecordView>,
    w: Option<(i64, i64)>,
    layers: Set<usize>,
) -> Seq<PropRecordView> {
    s.filter(|r: PropRecordView| in_bounds(r.t, w) && layers.contains(r.layer))
}

/// The property tables with the temporal records within `w` in one of
/// `layers` only.
pub open spec fn restrict_props(p: PropsView, w: Option<(i64, i64)>, layers: Set<usize>) -> PropsView {
    PropsView { temporal: cut_records(p.temporal, w, layers), ..p }
}

/// The vertex with its activity and its temporal properties within `w`
/// only; with no activity at all unless it is kept.
pub open spec fn restrict_vertex(v: VertexView, w: Option<(i64, i64)>, keep: bool) -> VertexView {
    VertexView {
        additions: if keep {
            restrict(v.additions, w)
        } else {
            Seq::empty()
        },
        props: restrict_props(v.props, w, Set::full()),
        ..v
    }
}

/// The history of an edge in one layer within `w` only; no history at all
/// unless it is kept.
pub open spec fn restrict_layer(l: EdgeLayerView, w: Option<(i64, i64)>, keep: bool) -> EdgeLayerView {
    if keep {
        EdgeLayerView { additions: restrict(l.additions, w), deletions: restrict(l.deletions, w) }
    } else {
        EdgeLayerView::empty()
    }
}

/// The layers that are left of `layers` for an edge: all of them, or none
/// unless the edge is kept.
pub open spec fn kept_layers(layers: Set<usize>, keep: bool) -> Set<usize> {
    if keep {
        layers
    } else {
        Set::empty()
    }
}

/// The edge with its additions, deletions and temporal properties within
/// `w` in the layers `layers` only; with no history at all unless it is kept.
pub open spec fn restrict_edge(
    e: EdgeView,
    w: Option<(i64, i64)>,
    layers: Set<usize>,
    keep: bool,
) -> EdgeView {
    EdgeView {
        layers: Seq::new(
            e.layers.len(),
            |l: int| restrict_layer(e.layers[l], w, kept_layers(layers, keep).contains(l as usize)),
        ),
        props: restrict_props(e.props, w, kept_layers(layers, keep)),
        ..e
    }
}

/// What a view shows, as a store of its own: the same vertices, edges and
/// layers under the same handles, with every history within `w` only, no
/// activity for a vertex outside `subset`, and no history for an edge
/// outside `layers` or with an endpoint outside `subset`.
pub open spec fn restrict_store(
    g: GraphView,
    subset: Set<VID>,
    layers: Set<usize>,
    w: Option<(i64, i64)>,
) -> GraphView {
    GraphView {
        vertices: Seq::new(
            g.vertices.len(),
            |i: int| restrict_vertex(g.vertices[i], w, subset.contains(VID(i as usize))),
        ),
        edges: Seq::new(
            g.edges.len(),
            |i: int|
                restrict_edge(
                    g.edges[i],
                    w,
                    layers,
                    subset.contains(g.edges[i].src) && subset.contains(g.edges[i].dst),
                ),
        ),
        props: restrict_props(g.props, w, Set::full()),
        ..g
    }
}

/// Restricting twice is restricting to the narrowed bounds.
pub proof fn lemma_restrict_twice(
    s: Seq<TimeIndexEntry>,
    w: Option<(i64, i64)>,
    u: Option<(i64, i64)>,
)
    requires
        sorted(s),
    ensures
        restrict(restrict(s, w), u) == restrict(s, narrowed(w, u)),
        sorted(restrict(s, w)),
        restrict(Seq::<TimeIndexEntry>::empty(), u) == Seq::<TimeIndexEntry>::empty(),
{
    lemma_restrict(s, w);
    match u {
        None => {},
        Some((start, end)) => {
            lemma_restrict_clamp(s, w, start, end);
            reveal(Seq::filter);
        },
    }
}

/// Whether `t` lies in the narrowed bounds is whether it lies in both.
pub proof fn lemma_narrowed(w: Option<(i64, i64)>, u: Option<(i64, i64)>, t: i64)
    ensures
        in_bounds(t, narrowed(w, u)) == (in_bounds(t, w) && in_bounds(t, u)),
{
}

/// Cutting records down keeps their order, and the history of a property
/// within `u` in `more` over the records cut down to `w` and `layers` is
/// its history within the narrowed bounds, in the layers of both, over
/// all records.
pub proof fn lemma_restrict_history(
    s: Seq<PropRecordView>,
    w: Option<(i64, i64)>,
    layers: Set<usize>,
    name: Seq<char>,
    u: Option<(i64, i64)>,
    more: Set<usize>,
)
    ensures
        history(cut_records(s, w, layers), name, u, more) == history(
            s,
            name,
            narrowed(w, u),
            layers.intersect(more),
        ),
        time_ordered(s) ==> time_ordered(cut_records(s, w, layers)),
        forall|x: PropRecordView| #[trigger] cut_records(s, w, layers).contains(x) ==> s.contains(x),
    decreases s.len(),
{
    let cut = |r: PropRecordView| in_bounds(r.t, w) && layers.contains(r.layer);
    let sel_u = |r: PropRecordView| selects(r, name, u, more);
    let sel_n = |r: PropRecordView| selects(r, name, narrowed(w, u), layers.intersect(more));
    let pair = |r: PropRecordView| (r.t, r.value);
    reveal(Seq::filter);
    if s.len() > 0 {
        let d = s.drop_last();
        let x = s.last();
        lemma_restrict_history(d, w, layers, name, u, more);
        lemma_narrowed(w, u, x.t);
        let fd = cut_records(d, w, layers);
        let fs = cut_records(s, w, layers);
        assert(fd == d.filter(cut) && fs == s.filter(cut));
        assert(s =~= d.push(x));
        if cut(x) {
            assert(fs == fd.push(x));
            fd.lemma_filter_push(x, sel_u);
        }
        d.lemma_filter_push(x, sel_n);
        assert(s.filter(sel_n).map_values(pair) =~= if sel_n(x) {
            d.filter(sel_n).map_values(pair).push(pair(x))
        } else {
            d.filter(sel_n).map_values(pair)
        });
        assert(fs.filter(sel_u).map_values(pair) =~= if cut(x) && sel_u(x) {
            fd.filter(sel_u).map_values(pair).push(pair(x))
        } else {
            fd.filter(sel_u).map_values(pair)
        });
        assert forall|y: PropRecordView| fs.contains(y) implies s.contains(y) by {
            let k = choose|k: int| 0 <= k < fs.len() && fs[k] == y;
            if k < fd.len() {
                assert(fd[k] == y);
                assert(fd.contains(y));
                assert(d.contains(y));
                let i = choose|i: int| 0 <= i < d.len() && d[i] == y;
                assert(s[i] == y);
            } else {
                assert(s[s.len() - 1] == y);
            }
        }
        if time_ordered(s) {
            assert(time_ordered(d)) by {
                assert forall|i: int, j: int| 0 <= i < j < d.len() implies (#[trigger] d[i]).t <= (
                #[trigger] d[j]).t by {
                    assert(s[i].t <= s[j].t);
                }
            }
            assert forall|i: int, j: int| 0 <= i < j < fs.len() implies (#[trigger] fs[i]).t <= (
            #[trigger] fs[j]).t by {
                if j < fd.len() {
                    assert(fd[i] == fs[i] && fd[j] == fs[j]);
                } else {
                    assert(fd[i] == fs[i]);
                    assert(fd.contains(fd[i]));
                    assert(d.contains(fd[i]));
                    let k = choose|k: int| 0 <= k < d.len() && d[k] == fd[i];
                    assert(s[k].t <= s[s.len() - 1].t);
                }
            }
        }
    }
}

/// The indices cut down to `w`, with the layers outside `layers` emptied.
pub open spec fn cut_indices(
    indices: Seq<Seq<TimeIndexEntry>>,
    w: Option<(i64, i64)>,
    layers: Set<usize>,
) -> Seq<Seq<TimeIndexEntry>> {
    Seq::new(
        indices.len(),
        |l: int|
            if layers.contains(l as usize) {
                restrict(indices[l], w)
            } else {
                Seq::empty()
            },
    )
}

/// Merging, exploding and listing the layers `more` of indices cut down
/// to `w` and `layers`, within `u`, is doing so with the indices
/// themselves in the layers of both within the narrowed bounds.
pub proof fn lemma_restrict_layers(
    indices: Seq<Seq<TimeIndexEntry>>,
    w: Option<(i64, i64)>,
    layers: Set<usize>,
    more: Set<usize>,
    u: Option<(i64, i64)>,
    n: nat,
)
    requires
        n <= indices.len(),
        forall|l: int| 0 <= l < indices.len() ==> sorted(#[trigger] indices[l]),
    ensures
        ({
            let cut = cut_indices(indices, w, layers);
            let both = layers.intersect(more);
            let b = narrowed(w, u);
            &&& merge_layers(cut, more, u, n) == merge_layers(indices, both, b, n)
            &&& explode_layers(cut, more, u, n) == explode_layers(indices, both, b, n)
            &&& active_layers(cut, more, u, n) == active_layers(indices, both, b, n)
        }),
    decreases n,
{
    if n > 0 {
        lemma_restrict_layers(indices, w, layers, more, u, (n - 1) as nat);
        lemma_restrict_twice(indices[n - 1], w, u);
        let cut = cut_indices(indices, w, layers);
        let both = layers.intersect(more);
        let b = narrowed(w, u);
        let empty = Seq::<TimeIndexEntry>::empty();
        if more.contains((n - 1) as usize) && !layers.contains((n - 1) as usize) {
            assert(cut[n - 1] == empty);
            assert(restrict(cut[n - 1], u) == empty);
            assert(empty.map_values(|e: TimeIndexEntry| ((n - 1) as usize, e)) =~= Seq::<
                (usize, TimeIndexEntry),
            >::empty());
            let rest = explode_layers(cut, more, u, (n - 1) as nat);
            assert(rest + Seq::<(usize, TimeIndexEntry)>::empty() =~= rest);
        }
    }
}

/// The edge cut down is valid, and what it shows within `u` in the layers
/// `more` is what the edge shows within the narrowed bounds in the layers
/// that are left.
pub proof fn lemma_restrict_edge(
    e: EdgeView,
    w: Option<(i64, i64)>,
    layers: Set<usize>,
    keep: bool,
    more: Set<usize>,
    u: Option<(i64, i64)>,
)
    requires
        e.wf(),
    ensures
        ({
            let r = restrict_edge(e, w, layers, keep);
            let both = kept_layers(layers, keep).intersect(more);
            let b = narrowed(w, u);
            &&& r.wf()
            &&& r.src == e.src
            &&& r.dst == e.dst
            &&& r.layers.len() == e.layers.len()
            &&& r.additions_in(more, u) == e.additions_in(both, b)
            &&& r.deletions_in(more, u) == e.deletions_in(both, b)
            &&& r.exploded(more, u) == e.exploded(both, b)
            &&& r.layers_in(more, u) == e.layers_in(both, b)
            &&& r.included(more, u) == e.included(both, b)
        }),
{
    let r = restrict_edge(e, w, layers, keep);
    let left = kept_layers(layers, keep);
    let both = left.intersect(more);
    let b = narrowed(w, u);
    let adds = e.addition_indices();
    let dels = e.deletion_indices();
    assert forall|l: int| 0 <= l < adds.len() implies sorted(#[trigger] adds[l]) by {
        assert(sorted(e.layers[l].additions));
    }
    assert forall|l: int| 0 <= l < dels.len() implies sorted(#[trigger] dels[l]) by {
        assert(sorted(e.layers[l].deletions));
    }
    assert(r.addition_indices() =~= cut_indices(adds, w, left));
    assert(r.deletion_indices() =~= cut_indices(dels, w, left));
    lemma_restrict_layers(adds, w, left, more, u, e.layers.len());
    lemma_restrict_layers(dels, w, left, more, u, e.layers.len());
    assert forall|l: int| 0 <= l < r.layers.len() implies sorted(
        (#[trigger] r.layers[l]).additions,
    ) && sorted(r.layers[l].deletions) by {
        lemma_restrict(e.layers[l].additions, w);
        lemma_restrict(e.layers[l].deletions, w);
    }
    lemma_restrict_history(e.props.temporal, w, left, Seq::empty(), None, Set::empty());
    lemma_included(r, more, u);
    lemma_included(e, both, b);
}

/// What a view shows is a valid store.
pub proof fn lemma_restrict_store_wf(
    g: GraphView,
    subset: Set<VID>,
    layers: Set<usize>,
    w: Option<(i64, i64)>,
)
    requires
        g.wf(),
    ensures
        restrict_store(g, subset, layers, w).wf(),
{
    let r = restrict_store(g, subset, layers, w);
    lemma_restrict_history(g.props.temporal, w, Set::full(), Seq::empty(), None, Set::empty());
    assert forall|i: int| 0 <= i < r.vertices.len() implies (#[trigger] r.vertices[i]).wf() by {
        let v = g.vertices[i];
        assert(v.wf());
        lemma_restrict(v.additions, w);
        lemma_restrict_history(v.props.temporal, w, Set::full(), Seq::empty(), None, Set::empty());
        let a = r.vertices[i].additions;
        assert forall|k: int| 0 <= k < a.len() implies (#[trigger] a[k]).1 == 0 by {
            assert(a.contains(a[k]));
            let j = choose|j: int| 0 <= j < v.additions.len() && v.additions[j] == a[k];
        }
    }
    assert(gids_distinct(r.vertices)) by {
        assert forall|i: int, j: int| 0 <= i < j < r.vertices.len() implies (
        #[trigger] r.vertices[i]).gid != (#[trigger] r.vertices[j]).gid by {
            assert(g.vertices[i].gid != g.vertices[j].gid);
        }
    }
    assert forall|i: int| 0 <= i < r.edges.len() implies {
        &&& (#[trigger] r.edges[i]).wf()
        &&& r.edges[i].src.0 < r.vertices.len()
        &&& r.edges[i].dst.0 < r.vertices.len()
        &&& r.edges[i].layers.len() <= r.layer_names.len()
    } by {
        let e = g.edges[i];
        assert(e.wf());
        lemma_restrict_edge(
            e,
            w,
            layers,
            subset.contains(e.src) && subset.contains(e.dst),
            Set::empty(),
            None,
        );
    }
    assert(endpoints_distinct(r.edges)) by {
        assert forall|i: int, j: int| 0 <= i < j < r.edges.len() implies !((
        #[trigger] r.edges[i]).src == (#[trigger] r.edges[j]).src && r.edges[i].dst
            == r.edges[j].dst) by {
            assert(!(g.edges[i].src == g.edges[j].src && g.edges[i].dst == g.edges[j].dst));
        }
    }
    if r.next_event < usize::MAX {
        assert forall|i: int| 0 <= i < r.edges.len() implies events_below(
            #[trigger] r.edges[i],
            r.next_event,
        ) by {
            let e = g.edges[i];
            let c = r.edges[i];
            assert(e.wf());
            assert(events_below(e, g.next_event));
            assert forall|l: int, k: int|
                0 <= l < c.layers.len() && 0 <= k < c.layers[l].additions.len() implies (
            #[trigger] c.layers[l].additions[k]).1 < r.next_event by {
                lemma_restrict(e.layers[l].additions, w);
                let x = c.layers[l].additions[k];
                assert(c.layers[l].additions.contains(x));
                let j = choose|j: int|
                    0 <= j < e.layers[l].additions.len() && e.layers[l].additions[j] == x;
                assert(e.layers[l].additions[j].1 < g.next_event);
            }
            assert forall|l: int, k: int|
                0 <= l < c.layers.len() && 0 <= k < c.layers[l].deletions.len() implies (
            #[trigger] c.layers[l].deletions[k]).1 < r.next_event by {
                lemma_restrict(e.layers[l].deletions, w);
                let x = c.layers[l].deletions[k];
                assert(c.layers[l].deletions.contains(x));
                let j = choose|j: int|
                    0 <= j < e.layers[l].deletions.len() && e.layers[l].deletions[j] == x;
                assert(e.layers[l].deletions[j].1 < g.next_event);
            }
        }
    }
}

/// The vertices that the store of a view shows within `u`, as a graph of
/// its own, are the vertices that the view shows within the narrowed
/// bounds; and each of them is active at the same times.
pub proof fn lemma_restrict_vertices(
    g: GraphView,
    subset: Set<VID>,
    layers: Set<usize>,
    w: Option<(i64, i64)>,
    u: Option<(i64, i64)>,
    n: nat,
)
    requires
        g.wf(),
        n <= g.vertices.len(),
        g.vertices.len() <= usize::MAX,
    ensures
        ({
            let r = restrict_store(g, subset, layers, w);
            let b = narrowed(w, u);
            &&& forall|i: int|
                0 <= i < g.vertices.len() && subset.contains(VID(i as usize)) ==> restrict(
                    (#[trigger] r.vertices[i]).additions,
                    u,
                ) == restrict(g.vertices[i].additions, b)
            &&& view_vertices(r, Set::full(), u, n) == view_vertices(g, subset, b, n)
            &&& subset == Set::<VID>::full() ==> earliest_upto(r.vertices, u, n) == earliest_upto(
                g.vertices,
                b,
                n,
            ) && latest_upto(r.vertices, u, n) == latest_upto(g.vertices, b, n)
        }),
    decreases n,
{
    let r = restrict_store(g, subset, layers, w);
    let b = narrowed(w, u);
    assert forall|i: int|
        0 <= i < g.vertices.len() && subset.contains(VID(i as usize)) implies restrict(
        (#[trigger] r.vertices[i]).additions,
        u,
    ) == restrict(g.vertices[i].additions, b) by {
        assert(g.vertices[i].wf());
        lemma_restrict_twice(g.vertices[i].additions, w, u);
    }
    if n > 0 {
        lemma_restrict_vertices(g, subset, layers, w, u, (n - 1) as nat);
        assert(g.vertices[n - 1].wf());
        lemma_restrict_twice(g.vertices[n - 1].additions, w, u);
        assert(vertex_shown(r, Set::full(), u, n - 1) == vertex_shown(g, subset, b, n - 1));
    }
}

/// The edges that the store of a view shows within `u` in the layers
/// `more`, as a graph of its own, are the edges that the view shows within
/// the narrowed bounds in the layers of both; and every vertex has the
/// same degree.
pub proof fn lemma_restrict_edges(
    g: GraphView,
    subset: Set<VID>,
    layers: Set<usize>,
    w: Option<(i64, i64)>,
    more: Set<usize>,
    u: Option<(i64, i64)>,
    v: VID,
    n: nat,
)
    requires
        g.wf(),
        n <= g.edges.len(),
    ensures
        ({
            let r = restrict_store(g, subset, layers, w);
            let both = layers.intersect(more);
            let b = narrowed(w, u);
            &&& view_edges(r, Set::full(), more, u, n) == view_edges(g, subset, both, b, n)
            &&& view_degree(r, Set::full(), more, u, v, n) == view_degree(g, subset, both, b, v, n)
        }),
    decreases n,
{
    if n > 0 {
        let r = restrict_store(g, subset, layers, w);
        let both = layers.intersect(more);
        let b = narrowed(w, u);
        lemma_restrict_edges(g, subset, layers, w, more, u, v, (n - 1) as nat);
        let e = g.edges[n - 1];
        let keep = subset.contains(e.src) && subset.contains(e.dst);
        assert(e.wf());
        lemma_restrict_edge(e, w, layers, keep, more, u);
        assert(r.edges[n - 1] == restrict_edge(e, w, layers, keep));
        if !keep {
            lemma_included(e, Set::empty(), b);
            assert(Set::<usize>::empty().intersect(more) =~= Set::empty());
            assert(!e.has_addition(Set::empty(), b));
        }
        assert(edge_shown(r, Set::full(), more, u, n - 1) == edge_shown(g, subset, both, b, n - 1));
    }
}

/// The store of a view, as a graph without restrictions, shows the
/// vertices and the edges that the view shows.
pub proof fn lemma_restrict_store_shows(
    g: GraphView,
    subset: Set<VID>,
    layers: Set<usize>,
    w: Option<(i64, i64)>,
)
    requires
        g.wf(),
    ensures
        ({
            let r = restrict_store(g, subset, layers, w);
            &&& r.wf()
            &&& view_vertices(r, Set::full(), None, r.vertices.len()) == view_vertices(
                g,
                subset,
                w,
                g.vertices.len(),
            )
            &&& view_edges(r, Set::full(), Set::full(), None, r.edges.len()) == view_edges(
                g,
                subset,
                layers,
                w,
                g.edges.len(),
            )
        }),
{
    lemma_restrict_store_wf(g, subset, layers, w);
    lemma_restrict_vertices(g, subset, layers, w, None, g.vertices.len());
    lemma_restrict_edges(g, subset, layers, w, Set::full(), None, VID(0), g.edges.len());
    assert(layers.intersect(Set::full()) =~= layers);
}

/// Every query about an edge between two vertices of the view has, over
/// the store of the view and within `u`, the answer that it has over the
/// store itself within the narrowed bounds in the layers of both. A
/// reference to one occurrence is one to an occurrence within `w`.
pub proof fn lemma_restrict_edge_queries(
    g: GraphView,
    subset: Set<VID>,
    layers: Set<usize>,
    w: Option<(i64, i64)>,
    e: EdgeRef,
    name: Seq<char>,
    more: Set<usize>,
    u: Option<(i64, i64)>,
)
    requires
        g.wf(),
        e.e_pid.0 < g.edges.len(),
        subset.contains(g.edges[e.e_pid.0 as int].src),
        subset.contains(g.edges[e.e_pid.0 as int].dst),
        e.time matches Some(t) ==> in_bounds(t.0, w),
    ensures
        ({
            let r = restrict_store(g, subset, layers, w).edges[e.e_pid.0 as int];
            let x = g.edges[e.e_pid.0 as int];
            let both = layers.intersect(more);
            let b = narrowed(w, u);
            &&& exploded_refs(r, e, more, u) == exploded_refs(x, e, both, b)
            &&& layer_refs(r, e, more, u) == layer_refs(x, e, both, b)
            &&& edge_earliest(r, e, more, u) == edge_earliest(x, e, both, b)
            &&& edge_latest(r, e, more, u) == edge_latest(x, e, both, b)
            &&& edge_deletion_times(r, e, more, u) == edge_deletion_times(x, e, both, b)
            &&& edge_history(r, e, name, more, u) == edge_history(x, e, name, both, b)
        }),
{
    let x = g.edges[e.e_pid.0 as int];
    assert(x.wf());
    let sel = edge_layers(e, more);
    let both = layers.intersect(more);
    assert(layers.intersect(sel) =~= edge_layers(e, both));
    lemma_restrict_edge(x, w, layers, true, sel, u);
    lemma_restrict_history(x.props.temporal, w, layers, name, u, sel);
}

/// The histories of the properties of the graph and of a vertex have, over
/// the store of a view and within `u`, the values that they have over the
/// store itself within the narrowed bounds.
pub proof fn lemma_restrict_prop_queries(
    g: GraphView,
    subset: Set<VID>,
    layers: Set<usize>,
    w: Option<(i64, i64)>,
    v: int,
    name: Seq<char>,
    u: Option<(i64, i64)>,
)
    requires
        0 <= v < g.vertices.len(),
    ensures
        ({
            let r = restrict_store(g, subset, layers, w);
            let b = narrowed(w, u);
            &&& history(r.props.temporal, name, u, Set::full()) == history(
                g.props.temporal,
                name,
                b,
                Set::full(),
            )
            &&& history(r.vertices[v].props.temporal, name, u, Set::full()) == history(
                g.vertices[v].props.temporal,
                name,
                b,
                Set::full(),
            )
        }),
{
    lemma_restrict_history(g.props.temporal, w, Set::full(), name, u, Set::full());
    lemma_restrict_history(g.vertices[v].props.temporal, w, Set::full(), name, u, Set::full());
    assert(Set::<usize>::full().intersect(Set::full()) =~= Set::full());
}

} // verus!
