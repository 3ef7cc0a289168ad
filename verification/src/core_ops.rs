//! What every graph and every view over a graph gives access to: the
//! records of the store that it reads, and the layers that it selects.

use vstd::prelude::*;
use crate::entities::{EdgeStore, VertexStore, EID, VID};
use crate::graph::{Graph, GraphView};
use crate::layers::LayerIds;
use crate::props::Props;
use crate::time_index::TimeIndex;

verus! {

/// A view that wraps another graph.
pub trait Base {
    type Base;

    /// The graph that the view wraps.
    spec fn spec_base(&self) -> Self::Base;

    fn base(&self) -> (r: &Self::Base)
        ensures
            *r == self.spec_base(),
    ;
}

/// Access to the records of the store that a graph or view reads.
pub trait CoreGraphOps {
    /// The content of the store.
    spec fn store(&self) -> GraphView;

    /// Whether the graph or view is well formed.
    spec fn valid(&self) -> bool;

    /// The layers that the graph or view selects.
    spec fn layers(&self) -> Set<usize>;

    /// The vertices that the graph or view may show: all of them, unless
    /// the view is of a subgraph.
    spec fn subset(&self) -> Set<VID>;

    /// The store of a well-formed graph or view is valid.
    proof fn valid_core(&self)
        requires
            self.valid(),
        ensures
            self.store().wf(),
    ;

    fn layer_ids(&self) -> (r: LayerIds)
        requires
            self.valid(),
        ensures
            r@ == self.layers(),
    ;

    /// Whether the graph or view may show vertex `v`.
    fn in_subset(&self, v: VID) -> (r: bool)
        requires
            self.valid(),
        ensures
            r == self.subset().contains(v),
    ;

    /// The number of vertex records, whatever the view shows of them.
    fn unfiltered_num_vertices(&self) -> (r: usize)
        requires
            self.valid(),
        ensures
            r == self.store().vertices.len(),
    ;

    /// The number of edge records, whatever the view shows of them.
    fn unfiltered_num_edges(&self) -> (r: usize)
        requires
            self.valid(),
        ensures
            r == self.store().edges.len(),
    ;

    /// The addition index of vertex `v`.
    fn vertex_additions(&self, v: VID) -> (r: &TimeIndex)
        requires
            self.valid(),
            v.0 < self.store().vertices.len(),
        ensures
            r@ == self.store().vertices[v.0 as int].additions,
            r.wf(),
    ;

    /// The record of vertex `v`.
    fn core_vertex(&self, v: VID) -> (r: &VertexStore)
        requires
            self.valid(),
            v.0 < self.store().vertices.len(),
        ensures
            r@ == self.store().vertices[v.0 as int],
            r.wf(),
    ;

    /// The record of edge `e`.
    fn core_edge(&self, e: EID) -> (r: &EdgeStore)
        requires
            self.valid(),
            e.0 < self.store().edges.len(),
        ensures
            r@ == self.store().edges[e.0 as int],
            r.wf(),
    ;

    /// The properties of the graph itself.
    fn graph_props(&self) -> (r: &Props)
        requires
            self.valid(),
        ensures
            r@ == self.store().props,
            r.wf(),
    ;

    /// The names of the layers of the store, by layer id.
    fn layer_names(&self) -> (r: Vec<String>)
        requires
            self.valid(),
        ensures
            r@.map_values(|s: String| s@) == self.store().layer_names,
    ;

    /// The secondary key that the next edge event of the store gets.
    fn next_event_id(&self) -> (r: usize)
        requires
            self.valid(),
        ensures
            r == self.store().next_event,
    ;

    /// The handle of the vertex with the identifier `gid`.
    fn internal_vertex(&self, gid: u64) -> (r: Option<VID>)
        requires
            self.valid(),
        ensures
            match r {
                Some(v) => self.store().vertex_index(gid) == Some(v.0 as int) && v.0
                    < self.store().vertices.len(),
                None => self.store().vertex_index(gid) is None,
            },
    ;

    /// The handle of the edge from `src` to `dst`.
    fn internal_edge(&self, src: VID, dst: VID) -> (r: Option<EID>)
        requires
            self.valid(),
        ensures
            match r {
                Some(e) => self.store().edge_index(src, dst) == Some(e.0 as int) && e.0
                    < self.store().edges.len(),
                None => self.store().edge_index(src, dst) is None,
            },
    ;

    /// The id of the layer with the name `name`.
    fn get_layer_id(&self, name: &str) -> (r: Option<usize>)
        requires
            self.valid(),
        ensures
            match r {
                Some(l) => self.store().layer_index(name@) == Some(l as int) && l
                    < self.store().layer_names.len(),
                None => self.store().layer_index(name@) is None,
            },
    ;
}

/// A view that reads the store of the graph that it wraps.
pub trait InheritStore: Base + CoreGraphOps where <Self as Base>::Base: CoreGraphOps {
    /// The wrapped graph is well formed, and its store is the store of the view.
    proof fn inherits_store(&self)
        requires
            self.valid(),
        ensures
            self.spec_base().valid(),
            self.spec_base().store() == self.store(),
    ;
}

impl CoreGraphOps for Graph {
    open spec fn store(&self) -> GraphView {
        self@
    }

    open spec fn valid(&self) -> bool {
        self.wf()
    }

    open spec fn layers(&self) -> Set<usize> {
        Set::full()
    }

    open spec fn subset(&self) -> Set<VID> {
        Set::full()
    }

    proof fn valid_core(&self) {
    }

    fn layer_ids(&self) -> (r: LayerIds) {
        LayerIds::All
    }

    fn in_subset(&self, v: VID) -> (r: bool) {
        true
    }

    fn unfiltered_num_vertices(&self) -> (r: usize) {
        self.num_vertex_records()
    }

    fn unfiltered_num_edges(&self) -> (r: usize) {
        self.num_edge_records()
    }

    fn vertex_additions(&self, v: VID) -> (r: &TimeIndex) {
        assert(self@.vertices[v.0 as int].wf());
        self.vertex(v).additions()
    }

    fn core_vertex(&self, v: VID) -> (r: &VertexStore) {
        assert(self@.vertices[v.0 as int].wf());
        self.vertex(v)
    }

    fn core_edge(&self, e: EID) -> (r: &EdgeStore) {
        assert(self@.edges[e.0 as int].wf());
        self.edge(e)
    }

    fn graph_props(&self) -> (r: &Props) {
        self.props()
    }

    fn layer_names(&self) -> (r: Vec<String>) {
        Graph::layer_names(self)
    }

    fn next_event_id(&self) -> (r: usize) {
        Graph::next_event_id(self)
    }

    fn internal_vertex(&self, gid: u64) -> (r: Option<VID>) {
        self.vertex_id(gid)
    }

    fn internal_edge(&self, src: VID, dst: VID) -> (r: Option<EID>) {
        self.edge_id(src, dst)
    }

    fn get_layer_id(&self, name: &str) -> (r: Option<usize>) {
        self.layer_id(name)
    }
}

} // verus!
