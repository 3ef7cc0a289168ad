//! The graph store: vertex and edge records, layer names and graph
//! properties, with the operations that extend its history.

use vstd::prelude::*;
use crate::entities::{
    lemma_edge_add, lemma_touch, EdgeStore, EdgeView, VertexStore, VertexView, EID, VID,
};
use crate::errors::GraphError;
use crate::props::{
    lemma_add_records, lemma_set_statics, named_values, Prop, PropValue, Props, PropsView,
};
use crate::time_index::{lemma_insert_entry, TimeIndexEntry};

verus! {

/// The name of the layer of an edge for which no layer is named.
pub open spec fn default_layer() -> Seq<char> {
    "_default"@
}

pub open spec fn gids_distinct(vs: Seq<VertexView>) -> bool {
    forall|i: int, j: int| 0 <= i < j < vs.len() ==> (#[trigger] vs[i]).gid != (#[trigger] vs[j]).gid
}

pub open spec fn endpoints_distinct(es: Seq<EdgeView>) -> bool {
    forall|i: int, j: int|
        0 <= i < j < es.len() ==> !((#[trigger] es[i]).src == (#[trigger] es[j]).src && es[i].dst
            == es[j].dst)
}

pub open spec fn layers_distinct(ns: Seq<Seq<char>>) -> bool {
    forall|i: int, j: int| 0 <= i < j < ns.len() ==> #[trigger] ns[i] != #[trigger] ns[j]
}

/// Every event of the edge has a secondary key below `next`.
pub open spec fn events_below(e: EdgeView, next: usize) -> bool {
    &&& forall|l: int, i: int|
        0 <= l < e.layers.len() && 0 <= i < e.layers[l].additions.len() ==> (
        #[trigger] e.layers[l].additions[i]).1 < next
    &&& forall|l: int, i: int|
        0 <= l < e.layers.len() && 0 <= i < e.layers[l].deletions.len() ==> (
        #[trigger] e.layers[l].deletions[i]).1 < next
}

/// The key that follows `next`; the greatest key is followed by itself.
pub open spec fn next_key(next: usize) -> usize {
    if next < usize::MAX {
        (next + 1) as usize
    } else {
        next
    }
}

/// The content of a graph store.
pub struct GraphView {
    /// The vertex records, by [`VID`].
    pub vertices: Seq<VertexView>,
    /// The edge records, by [`EID`].
    pub edges: Seq<EdgeView>,
    /// The layer names, by layer id. Layer 0 is the default layer.
    pub layer_names: Seq<Seq<char>>,
    /// The properties of the graph itself.
    pub props: PropsView,
    /// The secondary key that the next edge event gets.
    pub next_event: usize,
}

impl GraphView {
    pub open spec fn wf(self) -> bool {
        &&& forall|i: int| 0 <= i < self.vertices.len() ==> (#[trigger] self.vertices[i]).wf()
        &&& gids_distinct(self.vertices)
        &&& forall|i: int|
            0 <= i < self.edges.len() ==> {
                &&& (#[trigger] self.edges[i]).wf()
                &&& self.edges[i].src.0 < self.vertices.len()
                &&& self.edges[i].dst.0 < self.vertices.len()
                &&& self.edges[i].layers.len() <= self.layer_names.len()
            }
        &&& endpoints_distinct(self.edges)
        &&& self.layer_names.len() >= 1
        &&& self.fits()
        &&& layers_distinct(self.layer_names)
        &&& self.props.wf()
        &&& self.next_event < usize::MAX ==> forall|i: int|
            0 <= i < self.edges.len() ==> events_below(#[trigger] self.edges[i], self.next_event)
    }

    /// Whether the handles of the store fit the machine's integers.
    pub open spec fn fits(self) -> bool {
        self.vertices.len() <= usize::MAX && self.layer_names.len() <= usize::MAX
    }

    pub open spec fn empty() -> GraphView {
        GraphView {
            vertices: Seq::empty(),
            edges: Seq::empty(),
            layer_names: seq![default_layer()],
            props: PropsView::empty(),
            next_event: 0,
        }
    }

    /// The handle of the vertex with the identifier `gid`, if there is one.
    pub open spec fn vertex_index(self, gid: u64) -> Option<int> {
        if exists|i: int| 0 <= i < self.vertices.len() && (#[trigger] self.vertices[i]).gid == gid {
            Some(
                choose|i: int| 0 <= i < self.vertices.len() && (#[trigger] self.vertices[i]).gid == gid,
            )
        } else {
            None
        }
    }

    /// The id of the layer with the name `name`, if there is one.
    pub open spec fn layer_index(self, name: Seq<char>) -> Option<int> {
        if exists|i: int| 0 <= i < self.layer_names.len() && #[trigger] self.layer_names[i] == name {
            Some(
                choose|i: int| 0 <= i < self.layer_names.len() && #[trigger] self.layer_names[i] == name,
            )
        } else {
            None
        }
    }

    /// The id of the layer that `layer` names; the default layer if it names none.
    pub open spec fn layer_of(self, layer: Option<Seq<char>>) -> Option<int> {
        match layer {
            None => Some(0),
            Some(name) => self.layer_index(name),
        }
    }

    /// The handle of the edge from `src` to `dst`, if there is one.
    pub open spec fn edge_index(self, src: VID, dst: VID) -> Option<int> {
        if exists|i: int|
            0 <= i < self.edges.len() && (#[trigger] self.edges[i]).src == src && self.edges[i].dst
                == dst {
            Some(
                choose|i: int|
                    0 <= i < self.edges.len() && (#[trigger] self.edges[i]).src == src
                        && self.edges[i].dst == dst,
            )
        } else {
            None
        }
    }

    /// The handle of the edge between the vertices with the identifiers
    /// `src` and `dst`, if both vertices and the edge exist.
    pub open spec fn find_edge(self, src: u64, dst: u64) -> Option<int> {
        match (self.vertex_index(src), self.vertex_index(dst)) {
            (Some(s), Some(d)) => self.edge_index(VID(s as usize), VID(d as usize)),
            _ => None,
        }
    }

    /// The store with a record for the vertex `gid`, and the handle of that
    /// vertex. A new record has no activity.
    pub open spec fn resolve_vertex(self, gid: u64) -> (GraphView, int) {
        match self.vertex_index(gid) {
            Some(i) => (self, i),
            None => (
                GraphView { vertices: self.vertices.push(VertexView::new(gid)), ..self },
                self.vertices.len() as int,
            ),
        }
    }

    /// The store with the layer that `layer` names, and the id of that layer.
    pub open spec fn resolve_layer(self, layer: Option<Seq<char>>) -> (GraphView, int) {
        match self.layer_of(layer) {
            Some(i) => (self, i),
            None => (
                GraphView { layer_names: self.layer_names.push(layer->0), ..self },
                self.layer_names.len() as int,
            ),
        }
    }

    /// The store with a record for the edge from `src` to `dst`, and the
    /// handle of that edge. A new record has no history.
    pub open spec fn resolve_edge(self, src: VID, dst: VID) -> (GraphView, int) {
        match self.edge_index(src, dst) {
            Some(i) => (self, i),
            None => (
                GraphView { edges: self.edges.push(EdgeView::new(src, dst)), ..self },
                self.edges.len() as int,
            ),
        }
    }

    /// The store with activity at time `t` recorded for vertex `v`.
    pub open spec fn touch(self, v: int, t: i64) -> GraphView {
        GraphView { vertices: self.vertices.update(v, self.vertices[v].touch(t)), ..self }
    }

    /// The store after a vertex addition: the vertex exists, `t` is in its
    /// addition index, and `props` are merged into its temporal properties
    /// at `t`.
    pub open spec fn add_vertex(
        self,
        t: i64,
        gid: u64,
        props: Seq<(Seq<char>, PropValue)>,
    ) -> GraphView {
        let (g, v) = self.resolve_vertex(gid);
        GraphView {
            vertices: g.vertices.update(v, g.vertices[v].touch(t).add_props(t, props)),
            ..g
        }
    }

    /// The store after an edge addition: both endpoints exist and are
    /// active at `t`, the layer and the edge exist, the edge has the
    /// addition `(t, next_event)` in that layer, and `props` are merged into
    /// its temporal properties at `t` in that layer.
    pub open spec fn add_edge(
        self,
        t: i64,
        src: u64,
        dst: u64,
        props: Seq<(Seq<char>, PropValue)>,
        layer: Option<Seq<char>>,
    ) -> GraphView {
        let (g1, s) = self.resolve_vertex(src);
        let (g2, d) = g1.resolve_vertex(dst);
        let (g3, l) = g2.resolve_layer(layer);
        let (g4, e) = g3.resolve_edge(VID(s as usize), VID(d as usize));
        let g5 = g4.touch(s, t).touch(d, t);
        GraphView {
            edges: g5.edges.update(
                e,
                g5.edges[e].add(l as usize, TimeIndexEntry(t, g5.next_event)).add_props(
                    t,
                    l as usize,
                    props,
                ),
            ),
            next_event: next_key(g5.next_event),
            ..g5
        }
    }

    /// The store after an edge deletion in a layer that exists: both
    /// endpoints and the edge exist, and the edge has the deletion
    /// `(t, next_event)` in that layer. Nothing else changes.
    pub open spec fn delete_edge(self, t: i64, src: u64, dst: u64, layer: int) -> GraphView {
        let (g1, s) = self.resolve_vertex(src);
        let (g2, d) = g1.resolve_vertex(dst);
        let (g3, e) = g2.resolve_edge(VID(s as usize), VID(d as usize));
        GraphView {
            edges: g3.edges.update(
                e,
                g3.edges[e].delete(layer as usize, TimeIndexEntry(t, g3.next_event)),
            ),
            next_event: next_key(g3.next_event),
            ..g3
        }
    }

    /// The store with the static properties `props` set on vertex `v`.
    pub open spec fn set_vertex_static(
        self,
        v: int,
        props: Seq<(Seq<char>, PropValue)>,
    ) -> GraphView {
        GraphView {
            vertices: self.vertices.update(v, self.vertices[v].add_static_props(props)),
            ..self
        }
    }

    /// The store with the static properties `props` set on edge `e`.
    pub open spec fn set_edge_static(
        self,
        e: int,
        props: Seq<(Seq<char>, PropValue)>,
    ) -> GraphView {
        GraphView { edges: self.edges.update(e, self.edges[e].add_static_props(props)), ..self }
    }

    /// The store with `props` merged into the temporal properties of the
    /// graph at time `t`.
    pub open spec fn add_properties(self, t: i64, props: Seq<(Seq<char>, PropValue)>) -> GraphView {
        GraphView { props: self.props.add_temporal(t, 0, props), ..self }
    }

    /// The store with the static properties `props` set on the graph.
    pub open spec fn add_static_properties(self, props: Seq<(Seq<char>, PropValue)>) -> GraphView {
        GraphView { props: self.props.add_static(props), ..self }
    }

    /// Whether `self` is `old` grown: every vertex, edge and layer of `old`
    /// is in `self` under the same handle.
    pub open spec fn extends(self, old: GraphView) -> bool {
        &&& old.vertices.len() <= self.vertices.len()
        &&& old.edges.len() <= self.edges.len()
        &&& old.layer_names.len() <= self.layer_names.len()
        &&& forall|i: int|
            0 <= i < old.vertices.len() ==> (#[trigger] self.vertices[i]).gid == old.vertices[i].gid
        &&& forall|i: int|
            0 <= i < old.edges.len() ==> (#[trigger] self.edges[i]).src == old.edges[i].src
                && self.edges[i].dst == old.edges[i].dst
        &&& forall|i: int|
            0 <= i < old.layer_names.len() ==> #[trigger] self.layer_names[i] == old.layer_names[i]
    }
}

/// With distinct identifiers, the handle of an identifier is the one place
/// where it stands.
pub proof fn lemma_vertex_index(g: GraphView, gid: u64, i: int)
    requires
        gids_distinct(g.vertices),
        0 <= i < g.vertices.len(),
        g.vertices[i].gid == gid,
    ensures
        g.vertex_index(gid) == Some(i),
{
    let k = choose|k: int| 0 <= k < g.vertices.len() && (#[trigger] g.vertices[k]).gid == gid;
    if k < i {
        assert(g.vertices[k].gid != g.vertices[i].gid);
    }
    if i < k {
        assert(g.vertices[i].gid != g.vertices[k].gid);
    }
}

pub proof fn lemma_layer_index(g: GraphView, name: Seq<char>, i: int)
    requires
        layers_distinct(g.layer_names),
        0 <= i < g.layer_names.len(),
        g.layer_names[i] == name,
    ensures
        g.layer_index(name) == Some(i),
{
    let k = choose|k: int| 0 <= k < g.layer_names.len() && #[trigger] g.layer_names[k] == name;
    if k < i {
        assert(g.layer_names[k] != g.layer_names[i]);
    }
    if i < k {
        assert(g.layer_names[i] != g.layer_names[k]);
    }
}

pub proof fn lemma_edge_index(g: GraphView, src: VID, dst: VID, i: int)
    requires
        endpoints_distinct(g.edges),
        0 <= i < g.edges.len(),
        g.edges[i].src == src,
        g.edges[i].dst == dst,
    ensures
        g.edge_index(src, dst) == Some(i),
{
    let k = choose|k: int|
        0 <= k < g.edges.len() && (#[trigger] g.edges[k]).src == src && g.edges[k].dst == dst;
    if k < i {
        assert(!(g.edges[k].src == g.edges[i].src && g.edges[k].dst == g.edges[i].dst));
    }
    if i < k {
        assert(!(g.edges[i].src == g.edges[k].src && g.edges[i].dst == g.edges[k].dst));
    }
}

pub proof fn lemma_resolve_vertex(g: GraphView, gid: u64)
    requires
        g.wf(),
        g.resolve_vertex(gid).0.fits(),
    ensures
        g.resolve_vertex(gid).0.wf(),
        g.resolve_vertex(gid).0.extends(g),
        0 <= g.resolve_vertex(gid).1 < g.resolve_vertex(gid).0.vertices.len(),
        g.resolve_vertex(gid).0.vertices[g.resolve_vertex(gid).1].gid == gid,
        g.resolve_vertex(gid).0.vertex_index(gid) == Some(g.resolve_vertex(gid).1),
        g.resolve_vertex(gid).0.edges == g.edges,
{
    let (h, v) = g.resolve_vertex(gid);
    if g.vertex_index(gid) is None {
        assert forall|i: int, j: int| 0 <= i < j < h.vertices.len() implies (
        #[trigger] h.vertices[i]).gid != (#[trigger] h.vertices[j]).gid by {
            if j < g.vertices.len() {
                assert(g.vertices[i].gid != g.vertices[j].gid);
            } else {
                assert(g.vertices[i].gid != gid);
            }
        }
        assert forall|i: int| 0 <= i < h.vertices.len() implies (#[trigger] h.vertices[i]).wf() by {
            if i < g.vertices.len() {
                assert(g.vertices[i].wf());
            }
        }
    }
    lemma_vertex_index(h, gid, v);
}

pub proof fn lemma_resolve_layer(g: GraphView, layer: Option<Seq<char>>)
    requires
        g.wf(),
        g.resolve_layer(layer).0.fits(),
    ensures
        g.resolve_layer(layer).0.wf(),
        g.resolve_layer(layer).0.extends(g),
        0 <= g.resolve_layer(layer).1 < g.resolve_layer(layer).0.layer_names.len(),
        g.resolve_layer(layer).0.vertices == g.vertices,
        g.resolve_layer(layer).0.edges == g.edges,
{
    let (h, l) = g.resolve_layer(layer);
    if g.layer_of(layer) is None {
        assert forall|i: int, j: int| 0 <= i < j < h.layer_names.len() implies
            #[trigger] h.layer_names[i] != #[trigger] h.layer_names[j] by {
            if j < g.layer_names.len() {
                assert(g.layer_names[i] != g.layer_names[j]);
            } else {
                assert(g.layer_names[i] != layer->0);
            }
        }
    }
}

pub proof fn lemma_resolve_edge(g: GraphView, src: VID, dst: VID)
    requires
        g.wf(),
        src.0 < g.vertices.len(),
        dst.0 < g.vertices.len(),
    ensures
        g.resolve_edge(src, dst).0.wf(),
        g.resolve_edge(src, dst).0.extends(g),
        0 <= g.resolve_edge(src, dst).1 < g.resolve_edge(src, dst).0.edges.len(),
        g.resolve_edge(src, dst).0.edges[g.resolve_edge(src, dst).1].src == src,
        g.resolve_edge(src, dst).0.edges[g.resolve_edge(src, dst).1].dst == dst,
        g.resolve_edge(src, dst).0.vertices == g.vertices,
{
    let (h, e) = g.resolve_edge(src, dst);
    if g.edge_index(src, dst) is None {
        assert forall|i: int, j: int| 0 <= i < j < h.edges.len() implies !((
        #[trigger] h.edges[i]).src == (#[trigger] h.edges[j]).src && h.edges[i].dst
            == h.edges[j].dst) by {
            if j < g.edges.len() {
                assert(!(g.edges[i].src == g.edges[j].src && g.edges[i].dst == g.edges[j].dst));
            } else {
                assert(!(g.edges[i].src == src && g.edges[i].dst == dst));
            }
        }
        assert forall|i: int| 0 <= i < h.edges.len() implies {
            &&& (#[trigger] h.edges[i]).wf()
            &&& h.edges[i].src.0 < h.vertices.len()
            &&& h.edges[i].dst.0 < h.vertices.len()
            &&& h.edges[i].layers.len() <= h.layer_names.len()
        } by {
            if i < g.edges.len() {
                assert(g.edges[i].wf());
            }
        }
        if h.next_event < usize::MAX {
            assert forall|i: int| 0 <= i < h.edges.len() implies events_below(
                #[trigger] h.edges[i],
                h.next_event,
            ) by {
                if i < g.edges.len() {
                    assert(events_below(g.edges[i], g.next_event));
                }
            }
        }
    }
}

pub proof fn lemma_touch_wf(g: GraphView, v: int, t: i64)
    requires
        g.wf(),
        0 <= v < g.vertices.len(),
    ensures
        g.touch(v, t).wf(),
        g.touch(v, t).extends(g),
        g.touch(v, t).edges == g.edges,
{
    let h = g.touch(v, t);
    lemma_touch(g.vertices[v], t);
    assert forall|i: int, j: int| 0 <= i < j < h.vertices.len() implies (
    #[trigger] h.vertices[i]).gid != (#[trigger] h.vertices[j]).gid by {
        assert(g.vertices[i].gid != g.vertices[j].gid);
    }
    assert forall|i: int| 0 <= i < h.vertices.len() implies (#[trigger] h.vertices[i]).wf() by {
        assert(g.vertices[i].wf());
    }
}

/// Replacing an edge record by one with the same endpoints, a history that
/// fits the layers, and events below the next key keeps the store valid.
pub proof fn lemma_update_edge(g: GraphView, e: int, rec: EdgeView, next: usize)
    requires
        g.wf(),
        0 <= e < g.edges.len(),
        rec.wf(),
        rec.src == g.edges[e].src,
        rec.dst == g.edges[e].dst,
        rec.layers.len() <= g.layer_names.len(),
        next == g.next_event || next == next_key(g.next_event),
        next < usize::MAX ==> events_below(rec, next),
    ensures
        (GraphView { edges: g.edges.update(e, rec), next_event: next, ..g }).wf(),
        (GraphView { edges: g.edges.update(e, rec), next_event: next, ..g }).extends(g),
{
    let h = GraphView { edges: g.edges.update(e, rec), next_event: next, ..g };
    assert forall|i: int, j: int| 0 <= i < j < h.edges.len() implies !((#[trigger] h.edges[i]).src
        == (#[trigger] h.edges[j]).src && h.edges[i].dst == h.edges[j].dst) by {
        assert(!(g.edges[i].src == g.edges[j].src && g.edges[i].dst == g.edges[j].dst));
    }
    assert forall|i: int| 0 <= i < h.edges.len() implies {
        &&& (#[trigger] h.edges[i]).wf()
        &&& h.edges[i].src.0 < h.vertices.len()
        &&& h.edges[i].dst.0 < h.vertices.len()
        &&& h.edges[i].layers.len() <= h.layer_names.len()
    } by {
        assert(g.edges[i].wf());
    }
    if next < usize::MAX {
        assert forall|i: int| 0 <= i < h.edges.len() implies events_below(
            #[trigger] h.edges[i],
            next,
        ) by {
            if i != e {
                assert(events_below(g.edges[i], g.next_event));
            }
        }
    }
}

/// An event with the next key keeps the events of the record below the key
/// that follows.
pub proof fn lemma_event(rec: EdgeView, layer: usize, t: i64, next: usize)
    requires
        rec.wf(),
        layer < usize::MAX,
        next < usize::MAX ==> events_below(rec, next),
    ensures
        rec.add(layer, TimeIndexEntry(t, next)).wf(),
        rec.delete(layer, TimeIndexEntry(t, next)).wf(),
        rec.add(layer, TimeIndexEntry(t, next)).layers.len() == rec.grown(layer).layers.len(),
        rec.delete(layer, TimeIndexEntry(t, next)).layers.len() == rec.grown(layer).layers.len(),
        next_key(next) < usize::MAX ==> events_below(
            rec.add(layer, TimeIndexEntry(t, next)),
            next_key(next),
        ) && events_below(rec.delete(layer, TimeIndexEntry(t, next)), next_key(next)),
{
    let x = TimeIndexEntry(t, next);
    let g = rec.grown(layer);
    lemma_edge_add(rec, layer, x);
    lemma_insert_entry(g.layers[layer as int].additions, x);
    lemma_insert_entry(g.layers[layer as int].deletions, x);
    if next_key(next) < usize::MAX {
        let nk = next_key(next);
        let a = rec.add(layer, x);
        let d = rec.delete(layer, x);
        assert forall|l: int, i: int|
            0 <= l < g.layers.len() && 0 <= i < g.layers[l].additions.len() implies (
        #[trigger] g.layers[l].additions[i]).1 < next by {
            if l < rec.layers.len() {
                assert(rec.layers[l].additions[i].1 < next);
            }
        }
        assert forall|l: int, i: int|
            0 <= l < g.layers.len() && 0 <= i < g.layers[l].deletions.len() implies (
        #[trigger] g.layers[l].deletions[i]).1 < next by {
            if l < rec.layers.len() {
                assert(rec.layers[l].deletions[i].1 < next);
            }
        }
        assert forall|l: int, i: int|
            0 <= l < a.layers.len() && 0 <= i < a.layers[l].additions.len() implies (
        #[trigger] a.layers[l].additions[i]).1 < nk by {
            let y = a.layers[l].additions[i];
            if l == layer {
                assert(a.layers[l].additions.contains(y));
                if g.layers[l].additions.contains(y) {
                    let k = choose|k: int|
                        0 <= k < g.layers[l].additions.len() && g.layers[l].additions[k] == y;
                    assert(g.layers[l].additions[k].1 < next);
                }
            } else {
                assert(g.layers[l].additions[i].1 < next);
            }
        }
        assert forall|l: int, i: int|
            0 <= l < a.layers.len() && 0 <= i < a.layers[l].deletions.len() implies (
        #[trigger] a.layers[l].deletions[i]).1 < nk by {
            assert(g.layers[l].deletions[i].1 < next);
        }
        assert forall|l: int, i: int|
            0 <= l < d.layers.len() && 0 <= i < d.layers[l].deletions.len() implies (
        #[trigger] d.layers[l].deletions[i]).1 < nk by {
            let y = d.layers[l].deletions[i];
            if l == layer {
                assert(d.layers[l].deletions.contains(y));
                if g.layers[l].deletions.contains(y) {
                    let k = choose|k: int|
                        0 <= k < g.layers[l].deletions.len() && g.layers[l].deletions[k] == y;
                    assert(g.layers[l].deletions[k].1 < next);
                }
            } else {
                assert(g.layers[l].deletions[i].1 < next);
            }
        }
        assert forall|l: int, i: int|
            0 <= l < d.layers.len() && 0 <= i < d.layers[l].additions.len() implies (
        #[trigger] d.layers[l].additions[i]).1 < nk by {
            assert(g.layers[l].additions[i].1 < next);
        }
    }
}

/// A vertex addition keeps the store valid and every handle in place.
pub proof fn lemma_add_vertex(g: GraphView, t: i64, gid: u64, props: Seq<(Seq<char>, PropValue)>)
    requires
        g.wf(),
        g.add_vertex(t, gid, props).fits(),
    ensures
        g.add_vertex(t, gid, props).wf(),
        g.add_vertex(t, gid, props).extends(g),
        g.add_vertex(t, gid, props).vertex_index(gid) == Some(g.resolve_vertex(gid).1),
        g.add_vertex(t, gid, props).edges == g.edges,
{
    let (g1, v) = g.resolve_vertex(gid);
    lemma_resolve_vertex(g, gid);
    let rec = g1.vertices[v].touch(t).add_props(t, props);
    lemma_touch(g1.vertices[v], t);
    lemma_add_records(g1.vertices[v].props.temporal, t, 0, props);
    let h = g.add_vertex(t, gid, props);
    assert forall|i: int, j: int| 0 <= i < j < h.vertices.len() implies (
    #[trigger] h.vertices[i]).gid != (#[trigger] h.vertices[j]).gid by {
        assert(g1.vertices[i].gid != g1.vertices[j].gid);
    }
    assert forall|i: int| 0 <= i < h.vertices.len() implies (#[trigger] h.vertices[i]).wf() by {
        assert(g1.vertices[i].wf());
    }
    lemma_vertex_index(h, gid, v);
}

/// An edge addition keeps the store valid and every handle in place.
pub proof fn lemma_add_edge(
    g: GraphView,
    t: i64,
    src: u64,
    dst: u64,
    props: Seq<(Seq<char>, PropValue)>,
    layer: Option<Seq<char>>,
)
    requires
        g.wf(),
        g.add_edge(t, src, dst, props, layer).fits(),
    ensures
        g.add_edge(t, src, dst, props, layer).wf(),
        g.add_edge(t, src, dst, props, layer).extends(g),
{
    let (g1, s) = g.resolve_vertex(src);
    lemma_resolve_vertex(g, src);
    let (g2, d) = g1.resolve_vertex(dst);
    lemma_resolve_vertex(g1, dst);
    let (g3, l) = g2.resolve_layer(layer);
    lemma_resolve_layer(g2, layer);
    let (g4, e) = g3.resolve_edge(VID(s as usize), VID(d as usize));
    lemma_resolve_edge(g3, VID(s as usize), VID(d as usize));
    lemma_touch_wf(g4, s, t);
    let g5a = g4.touch(s, t);
    lemma_touch_wf(g5a, d, t);
    let g5 = g5a.touch(d, t);
    let x = TimeIndexEntry(t, g5.next_event);
    let r0 = g5.edges[e];
    assert(r0.wf());
    if g5.next_event < usize::MAX {
        assert(events_below(r0, g5.next_event));
    }
    lemma_event(r0, l as usize, t, g5.next_event);
    let r1 = r0.add(l as usize, x);
    lemma_add_records(r1.props.temporal, t, l as usize, props);
    let r2 = r1.add_props(t, l as usize, props);
    assert(r2.layers == r1.layers);
    lemma_update_edge(g5, e, r2, next_key(g5.next_event));
}

/// An edge deletion keeps the store valid and every handle in place.
pub proof fn lemma_delete_edge(g: GraphView, t: i64, src: u64, dst: u64, layer: int)
    requires
        g.wf(),
        0 <= layer < g.layer_names.len(),
        g.delete_edge(t, src, dst, layer).fits(),
    ensures
        g.delete_edge(t, src, dst, layer).wf(),
        g.delete_edge(t, src, dst, layer).extends(g),
{
    let (g1, s) = g.resolve_vertex(src);
    lemma_resolve_vertex(g, src);
    let (g2, d) = g1.resolve_vertex(dst);
    lemma_resolve_vertex(g1, dst);
    let (g3, e) = g2.resolve_edge(VID(s as usize), VID(d as usize));
    lemma_resolve_edge(g2, VID(s as usize), VID(d as usize));
    let r0 = g3.edges[e];
    assert(r0.wf());
    if g3.next_event < usize::MAX {
        assert(events_below(r0, g3.next_event));
    }
    lemma_event(r0, layer as usize, t, g3.next_event);
    lemma_update_edge(
        g3,
        e,
        r0.delete(layer as usize, TimeIndexEntry(t, g3.next_event)),
        next_key(g3.next_event),
    );
}

/// The graph store.
#[derive(Debug)]
pub struct Graph {
    vertices: Vec<VertexStore>,
    edges: Vec<EdgeStore>,
    layer_names: Vec<String>,
    props: Props,
    next_event: usize,
}

impl View for Graph {
    type V = GraphView;

    closed spec fn view(&self) -> GraphView {
        GraphView {
            vertices: self.vertices@.map_values(|v: VertexStore| v@),
            edges: self.edges@.map_values(|e: EdgeStore| e@),
            layer_names: self.layer_names@.map_values(|s: String| s@),
            props: self.props@,
            next_event: self.next_event,
        }
    }
}

/// The name that `layer` gives, if it gives one.
pub open spec fn layer_name(layer: Option<&str>) -> Option<Seq<char>> {
    match layer {
        Some(name) => Some(name@),
        None => None,
    }
}

impl Graph {
    pub open spec fn wf(&self) -> bool {
        self@.wf()
    }

    /// A store with no vertex, no edge, and the default layer.
    pub fn new() -> (r: Graph)
        ensures
            r@ == GraphView::empty(),
            r.wf(),
    {
        let mut layer_names: Vec<String> = Vec::new();
        layer_names.push("_default".to_owned());
        let r = Graph {
            vertices: Vec::new(),
            edges: Vec::new(),
            layer_names,
            props: Props::new(),
            next_event: 0,
        };
        assert(r@.vertices =~= Seq::empty());
        assert(r@.edges =~= Seq::empty());
        assert(r@.layer_names =~= seq![default_layer()]);
        r
    }

    /// The store that holds the records given.
    pub(crate) fn assemble(
        vertices: Vec<VertexStore>,
        edges: Vec<EdgeStore>,
        layer_names: Vec<String>,
        props: Props,
        next_event: usize,
    ) -> (r: Graph)
        requires
            (GraphView {
                vertices: vertices@.map_values(|v: VertexStore| v@),
                edges: edges@.map_values(|e: EdgeStore| e@),
                layer_names: layer_names@.map_values(|s: String| s@),
                props: props@,
                next_event,
            }).wf(),
        ensures
            r.wf(),
            r@ == (GraphView {
                vertices: vertices@.map_values(|v: VertexStore| v@),
                edges: edges@.map_values(|e: EdgeStore| e@),
                layer_names: layer_names@.map_values(|s: String| s@),
                props: props@,
                next_event,
            }),
    {
        Graph { vertices, edges, layer_names, props, next_event }
    }

    /// The names of the layers, by layer id.
    pub fn layer_names(&self) -> (r: Vec<String>)
        ensures
            r@.map_values(|s: String| s@) == self@.layer_names,
    {
        let mut out: Vec<String> = Vec::new();
        let mut i: usize = 0;
        while i < self.layer_names.len()
            invariant
                i <= self.layer_names.len(),
                out@.len() == i,
                forall|k: int| 0 <= k < i ==> out@[k]@ == self.layer_names@[k]@,
            decreases self.layer_names.len() - i,
        {
            out.push(self.layer_names[i].clone());
            i += 1;
        }
        assert(out@.map_values(|s: String| s@) =~= self@.layer_names);
        out
    }

    /// The number of vertex records.
    pub fn num_vertex_records(&self) -> (r: usize)
        ensures
            r == self@.vertices.len(),
    {
        self.vertices.len()
    }

    /// The number of edge records.
    pub fn num_edge_records(&self) -> (r: usize)
        ensures
            r == self@.edges.len(),
    {
        self.edges.len()
    }

    /// The number of layers.
    pub fn num_layers(&self) -> (r: usize)
        ensures
            r == self@.layer_names.len(),
    {
        self.layer_names.len()
    }

    /// The record of vertex `v`.
    pub fn vertex(&self, v: VID) -> (r: &VertexStore)
        requires
            v.0 < self@.vertices.len(),
        ensures
            r@ == self@.vertices[v.0 as int],
    {
        &self.vertices[v.0]
    }

    /// The record of edge `e`.
    pub fn edge(&self, e: EID) -> (r: &EdgeStore)
        requires
            e.0 < self@.edges.len(),
        ensures
            r@ == self@.edges[e.0 as int],
    {
        &self.edges[e.0]
    }

    /// The properties of the graph itself.
    pub fn props(&self) -> (r: &Props)
        ensures
            r@ == self@.props,
    {
        &self.props
    }

    /// The secondary key that the next edge event gets.
    pub fn next_event_id(&self) -> (r: usize)
        ensures
            r == self@.next_event,
    {
        self.next_event
    }

    /// The handle of the vertex with the identifier `gid`.
    pub fn vertex_id(&self, gid: u64) -> (r: Option<VID>)
        requires
            self.wf(),
        ensures
            match r {
                Some(v) => self@.vertex_index(gid) == Some(v.0 as int) && v.0 < self@.vertices.len(),
                None => self@.vertex_index(gid) is None,
            },
    {
        let mut i: usize = 0;
        while i < self.vertices.len()
            invariant
                i <= self.vertices.len(),
                self.wf(),
                forall|j: int| 0 <= j < i ==> (#[trigger] self@.vertices[j]).gid != gid,
            decreases self.vertices.len() - i,
        {
            if self.vertices[i].gid() == gid {
                proof {
                    lemma_vertex_index(self@, gid, i as int);
                }
                return Some(VID(i));
            }
            i += 1;
        }
        None
    }

    /// The id of the layer with the name `name`.
    pub fn layer_id(&self, name: &str) -> (r: Option<usize>)
        requires
            self.wf(),
        ensures
            match r {
                Some(l) => self@.layer_index(name@) == Some(l as int) && l < self@.layer_names.len(),
                None => self@.layer_index(name@) is None,
            },
    {
        let owned = name.to_owned();
        let mut i: usize = 0;
        while i < self.layer_names.len()
            invariant
                i <= self.layer_names.len(),
                self.wf(),
                owned@ == name@,
                forall|j: int| 0 <= j < i ==> #[trigger] self@.layer_names[j] != name@,
            decreases self.layer_names.len() - i,
        {
            if self.layer_names[i] == owned {
                proof {
                    lemma_layer_index(self@, name@, i as int);
                }
                return Some(i);
            }
            i += 1;
        }
        None
    }

    /// The id of the layer that `layer` names; the default layer if it names none.
    pub fn layer_of(&self, layer: Option<&str>) -> (r: Option<usize>)
        requires
            self.wf(),
        ensures
            match r {
                Some(l) => self@.layer_of(layer_name(layer)) == Some(l as int) && l
                    < self@.layer_names.len(),
                None => self@.layer_of(layer_name(layer)) is None,
            },
    {
        match layer {
            None => Some(0),
            Some(name) => self.layer_id(name),
        }
    }

    /// The handle of the edge from `src` to `dst`.
    pub fn edge_id(&self, src: VID, dst: VID) -> (r: Option<EID>)
        requires
            self.wf(),
        ensures
            match r {
                Some(e) => self@.edge_index(src, dst) == Some(e.0 as int) && e.0 < self@.edges.len(),
                None => self@.edge_index(src, dst) is None,
            },
    {
        let mut i: usize = 0;
        while i < self.edges.len()
            invariant
                i <= self.edges.len(),
                self.wf(),
                forall|j: int|
                    0 <= j < i ==> !((#[trigger] self@.edges[j]).src == src && self@.edges[j].dst
                        == dst),
            decreases self.edges.len() - i,
        {
            let e = &self.edges[i];
            if e.src().0 == src.0 && e.dst().0 == dst.0 {
                proof {
                    lemma_edge_index(self@, src, dst, i as int);
                }
                return Some(EID(i));
            }
            i += 1;
        }
        None
    }

    /// The handle of the edge between the vertices with the identifiers
    /// `src` and `dst`.
    pub fn find_edge(&self, src: u64, dst: u64) -> (r: Option<EID>)
        requires
            self.wf(),
        ensures
            match r {
                Some(e) => self@.find_edge(src, dst) == Some(e.0 as int) && e.0 < self@.edges.len(),
                None => self@.find_edge(src, dst) is None,
            },
    {
        match self.vertex_id(src) {
            None => None,
            Some(s) => match self.vertex_id(dst) {
                None => None,
                Some(d) => self.edge_id(s, d),
            },
        }
    }

    fn resolve_vertex(&mut self, gid: u64) -> (v: usize)
        requires
            old(self).wf(),
        ensures
            final(self).wf(),
            final(self)@ == old(self)@.resolve_vertex(gid).0,
            v as int == old(self)@.resolve_vertex(gid).1,
            v < final(self)@.vertices.len(),
    {
        match self.vertex_id(gid) {
            Some(v) => {
                proof {
                    lemma_resolve_vertex(self@, gid);
                }
                v.0
            },
            None => {
                let v = self.vertices.len();
                self.vertices.push(VertexStore::new(gid));
                assert(self@.vertices =~= old(self)@.vertices.push(VertexView::new(gid)));
                let n = self.vertices.len();
                proof {
                    assert(n == v + 1);
                    lemma_resolve_vertex(old(self)@, gid);
                }
                v
            },
        }
    }

    fn resolve_layer(&mut self, layer: Option<&str>) -> (l: usize)
        requires
            old(self).wf(),
        ensures
            final(self).wf(),
            final(self)@ == old(self)@.resolve_layer(layer_name(layer)).0,
            l as int == old(self)@.resolve_layer(layer_name(layer)).1,
            l < final(self)@.layer_names.len(),
    {
        match self.layer_of(layer) {
            Some(l) => {
                proof {
                    lemma_resolve_layer(self@, layer_name(layer));
                }
                l
            },
            None => {
                let l = self.layer_names.len();
                let name = layer.unwrap();
                self.layer_names.push(name.to_owned());
                assert(self@.layer_names =~= old(self)@.layer_names.push(name@));
                let n = self.layer_names.len();
                proof {
                    assert(n == l + 1);
                    lemma_resolve_layer(old(self)@, layer_name(layer));
                }
                l
            },
        }
    }

    fn resolve_edge(&mut self, src: VID, dst: VID) -> (e: usize)
        requires
            old(self).wf(),
            src.0 < old(self)@.vertices.len(),
            dst.0 < old(self)@.vertices.len(),
        ensures
            final(self).wf(),
            final(self)@ == old(self)@.resolve_edge(src, dst).0,
            e as int == old(self)@.resolve_edge(src, dst).1,
            e < final(self)@.edges.len(),
    {
        proof {
            lemma_resolve_edge(self@, src, dst);
        }
        match self.edge_id(src, dst) {
            Some(e) => e.0,
            None => {
                let e = self.edges.len();
                self.edges.push(EdgeStore::new(src, dst));
                assert(self@.edges =~= old(self)@.edges.push(EdgeView::new(src, dst)));
                e
            },
        }
    }

    fn touch(&mut self, v: usize, t: i64)
        requires
            old(self).wf(),
            v < old(self)@.vertices.len(),
        ensures
            final(self).wf(),
            final(self)@ == old(self)@.touch(v as int, t),
    {
        proof {
            lemma_touch_wf(self@, v as int, t);
            assert(self@.vertices[v as int].wf());
        }
        self.vertices[v].touch(t);
        assert(self@.vertices =~= old(self)@.vertices.update(
            v as int,
            old(self)@.vertices[v as int].touch(t),
        ));
    }

    fn bump(&mut self)
        ensures
            final(self)@ == (GraphView { next_event: next_key(old(self)@.next_event), ..old(self)@ }),
    {
        if self.next_event < usize::MAX {
            self.next_event += 1;
        }
    }

    /// Adds the vertex `id` at time `t`: creates it if it is absent, records
    /// `t` in its addition index, and merges `props` into its temporal
    /// properties at `t`. Never fails.
    pub fn internal_add_vertex(&mut self, t: i64, id: u64, props: &Vec<(String, Prop)>) -> (r: Result<
        (),
        GraphError,
    >)
        requires
            old(self).wf(),
        ensures
            r == Ok::<(), GraphError>(()),
            final(self).wf(),
            final(self)@ == old(self)@.add_vertex(t, id, named_values(props@)),
    {
        let v = self.resolve_vertex(id);
        let ghost g = self@;
        assert(g.vertices[v as int].wf());
        proof {
            lemma_touch(g.vertices[v as int], t);
            lemma_add_vertex(old(self)@, t, id, named_values(props@));
        }
        self.vertices[v].touch(t);
        self.vertices[v].add_props(t, props);
        assert(self@.vertices =~= g.vertices.update(
            v as int,
            g.vertices[v as int].touch(t).add_props(t, named_values(props@)),
        ));
        Ok(())
    }

    /// Adds the edge from `src` to `dst` at time `t` in the layer that
    /// `layer` names: creates the endpoints, the layer and the edge where
    /// they are absent, records `t` for both endpoints and for the edge in
    /// that layer, and merges `props` into the temporal properties of the
    /// edge. Never fails.
    pub fn internal_add_edge(
        &mut self,
        t: i64,
        src: u64,
        dst: u64,
        props: &Vec<(String, Prop)>,
        layer: Option<&str>,
    ) -> (r: Result<(), GraphError>)
        requires
            old(self).wf(),
        ensures
            r == Ok::<(), GraphError>(()),
            final(self).wf(),
            final(self)@ == old(self)@.add_edge(
                t,
                src,
                dst,
                named_values(props@),
                layer_name(layer),
            ),
    {
        let s = self.resolve_vertex(src);
        let d = self.resolve_vertex(dst);
        let l = self.resolve_layer(layer);
        let e = self.resolve_edge(VID(s), VID(d));
        self.touch(s, t);
        self.touch(d, t);
        let ghost g5 = self@;
        proof {
            lemma_add_edge(old(self)@, t, src, dst, named_values(props@), layer_name(layer));
            assert(g5.edges[e as int].wf());
            lemma_event(g5.edges[e as int], l, t, g5.next_event);
        }
        let x = TimeIndexEntry(t, self.next_event);
        self.edges[e].add(l, x);
        self.edges[e].add_props(t, l, props);
        assert(self@.edges =~= g5.edges.update(
            e as int,
            g5.edges[e as int].add(l, x).add_props(t, l, named_values(props@)),
        ));
        self.bump();
        Ok(())
    }

    /// Deletes the edge from `src` to `dst` at time `t` in the layer that
    /// `layer` names: creates the endpoints and the edge where they are
    /// absent, and records `t` in the deletion index of the edge in that
    /// layer. Fails, without effect, if no layer has that name.
    pub fn internal_delete_edge(&mut self, t: i64, src: u64, dst: u64, layer: Option<&str>) -> (r: Result<
        (),
        GraphError,
    >)
        requires
            old(self).wf(),
        ensures
            final(self).wf(),
            match old(self)@.layer_of(layer_name(layer)) {
                Some(l) => r == Ok::<(), GraphError>(()) && final(self)@ == old(self)@.delete_edge(t, src, dst, l),
                None => r == Err::<(), GraphError>(GraphError::InvalidLayer)
                    && final(self)@ == old(self)@,
            },
    {
        let l = match self.layer_of(layer) {
            Some(l) => l,
            None => {
                return Err(GraphError::InvalidLayer);
            },
        };
        let s = self.resolve_vertex(src);
        let d = self.resolve_vertex(dst);
        let e = self.resolve_edge(VID(s), VID(d));
        let ghost g3 = self@;
        proof {
            lemma_delete_edge(old(self)@, t, src, dst, l as int);
            assert(g3.edges[e as int].wf());
        }
        let x = TimeIndexEntry(t, self.next_event);
        self.edges[e].delete(l, x);
        assert(self@.edges =~= g3.edges.update(e as int, g3.edges[e as int].delete(l, x)));
        self.bump();
        Ok(())
    }

    /// Sets the static properties `props` on the vertex `v`. Fails, without
    /// effect, if there is no such vertex.
    pub fn internal_add_vertex_properties(&mut self, v: u64, props: &Vec<(String, Prop)>) -> (r: Result<
        (),
        GraphError,
    >)
        requires
            old(self).wf(),
        ensures
            final(self).wf(),
            match old(self)@.vertex_index(v) {
                Some(i) => r == Ok::<(), GraphError>(()) && final(self)@ == old(self)@.set_vertex_static(
                    i,
                    named_values(props@),
                ),
                None => r == Err::<(), GraphError>(GraphError::VertexNotFound) && final(self)@
                    == old(self)@,
            },
    {
        let i = match self.vertex_id(v) {
            Some(i) => i.0,
            None => {
                return Err(GraphError::VertexNotFound);
            },
        };
        let ghost g = self@;
        proof {
            assert(g.vertices[i as int].wf());
            lemma_set_statics(g.vertices[i as int].props.constant, named_values(props@));
        }
        self.vertices[i].add_static_props(props);
        proof {
            let h = g.set_vertex_static(i as int, named_values(props@));
            assert(self@.vertices =~= h.vertices);
            assert forall|a: int, b: int| 0 <= a < b < h.vertices.len() implies (
            #[trigger] h.vertices[a]).gid != (#[trigger] h.vertices[b]).gid by {
                assert(g.vertices[a].gid != g.vertices[b].gid);
            }
            assert forall|a: int| 0 <= a < h.vertices.len() implies (#[trigger] h.vertices[a]).wf() by {
                assert(g.vertices[a].wf());
            }
        }
        Ok(())
    }

    /// Sets the static properties `props` on the edge from `src` to `dst`.
    /// Fails, without effect, if no layer has the name given or if there is
    /// no such edge.
    pub fn internal_add_edge_properties(
        &mut self,
        src: u64,
        dst: u64,
        props: &Vec<(String, Prop)>,
        layer: Option<&str>,
    ) -> (r: Result<(), GraphError>)
        requires
            old(self).wf(),
        ensures
            final(self).wf(),
            match (old(self)@.layer_of(layer_name(layer)), old(self)@.find_edge(src, dst)) {
                (None, _) => r == Err::<(), GraphError>(GraphError::InvalidLayer) && final(self)@
                    == old(self)@,
                (Some(_), None) => r == Err::<(), GraphError>(GraphError::EdgeNotFound)
                    && final(self)@ == old(self)@,
                (Some(_), Some(e)) => r == Ok::<(), GraphError>(()) && final(self)@ == old(self)@.set_edge_static(
                    e,
                    named_values(props@),
                ),
            },
    {
        if self.layer_of(layer).is_none() {
            return Err(GraphError::InvalidLayer);
        }
        let e = match self.find_edge(src, dst) {
            Some(e) => e.0,
            None => {
                return Err(GraphError::EdgeNotFound);
            },
        };
        let ghost g = self@;
        proof {
            assert(g.edges[e as int].wf());
            lemma_set_statics(g.edges[e as int].props.constant, named_values(props@));
        }
        self.edges[e].add_static_props(props);
        proof {
            let rec = g.edges[e as int].add_static_props(named_values(props@));
            assert(self@.edges =~= g.edges.update(e as int, rec));
            if g.next_event < usize::MAX {
                assert(events_below(g.edges[e as int], g.next_event));
            }
            lemma_update_edge(g, e as int, rec, g.next_event);
        }
        Ok(())
    }

    /// Merges `props` into the temporal properties of the graph at time `t`.
    /// Never fails.
    pub fn internal_add_properties(&mut self, t: i64, props: &Vec<(String, Prop)>) -> (r: Result<
        (),
        GraphError,
    >)
        requires
            old(self).wf(),
        ensures
            r == Ok::<(), GraphError>(()),
            final(self).wf(),
            final(self)@ == old(self)@.add_properties(t, named_values(props@)),
    {
        self.props.add_all(t, 0, props);
        Ok(())
    }

    /// Sets the static properties `props` on the graph. Never fails.
    pub fn internal_add_static_properties(&mut self, props: &Vec<(String, Prop)>) -> (r: Result<
        (),
        GraphError,
    >)
        requires
            old(self).wf(),
        ensures
            r == Ok::<(), GraphError>(()),
            final(self).wf(),
            final(self)@ == old(self)@.add_static_properties(named_values(props@)),
    {
        self.props.set_static_all(props);
        Ok(())
    }
}

} // verus!
