//! A view of a graph restricted to a set of layers.

use vstd::prelude::*;
use crate::core_deletion_ops::InheritCoreDeletionOps;
use crate::core_ops::{Base, CoreGraphOps, InheritStore};
use crate::entities::{EdgeStore, VertexStore, EID, VID};
use crate::graph::GraphView;
use crate::layers::LayerIds;
use crate::props::Props;
use crate::time_index::TimeIndex;
use crate::time_semantics::{InheritTimeSemantics, TimeSemantics};

verus! {

/// The graph `graph` seen through the layers `layers`. The view selects
/// the layers that both it and `graph` select; everything else it takes
/// from `graph`.
pub struct LayeredGraph<'a, G> {
    pub graph: &'a G,
    pub layers: LayerIds,
}

impl<'a, G: TimeSemantics> LayeredGraph<'a, G> {
    pub fn new(graph: &'a G, layers: LayerIds) -> (r: Self)
        requires
            graph.valid(),
        ensures
            r.valid(),
            r.graph == graph,
            r.layers == layers,
    {
        LayeredGraph { graph, layers }
    }
}

impl<'a, G: TimeSemantics> Base for LayeredGraph<'a, G> {
    type Base = G;

    open spec fn spec_base(&self) -> G {
        *self.graph
    }

    fn base(&self) -> (r: &G) {
        self.graph
    }
}

impl<'a, G: TimeSemantics> CoreGraphOps for LayeredGraph<'a, G> {
    open spec fn store(&self) -> GraphView {
        self.graph.store()
    }

    open spec fn valid(&self) -> bool {
        self.graph.valid()
    }

    open spec fn layers(&self) -> Set<usize> {
        self.graph.layers().intersect(self.layers@)
    }

    open spec fn subset(&self) -> Set<VID> {
        self.graph.subset()
    }

    proof fn valid_core(&self) {
        self.graph.valid_core();
    }

    fn in_subset(&self, v: VID) -> (r: bool) {
        self.graph.in_subset(v)
    }

    fn layer_ids(&self) -> (r: LayerIds) {
        self.graph.layer_ids().constrain(&self.layers)
    }

    fn unfiltered_num_vertices(&self) -> (r: usize) {
        self.graph.unfiltered_num_vertices()
    }

    fn unfiltered_num_edges(&self) -> (r: usize) {
        self.graph.unfiltered_num_edges()
    }

    fn vertex_additions(&self, v: VID) -> (r: &TimeIndex) {
        self.graph.vertex_additions(v)
    }

    fn core_vertex(&self, v: VID) -> (r: &VertexStore) {
        self.graph.core_vertex(v)
    }

    fn core_edge(&self, e: EID) -> (r: &EdgeStore) {
        self.graph.core_edge(e)
    }

    fn graph_props(&self) -> (r: &Props) {
        self.graph.graph_props()
    }

    fn layer_names(&self) -> (r: Vec<String>) {
        self.graph.layer_names()
    }

    fn next_event_id(&self) -> (r: usize) {
        self.graph.next_event_id()
    }

    fn internal_vertex(&self, gid: u64) -> (r: Option<VID>) {
        self.graph.internal_vertex(gid)
    }

    fn internal_edge(&self, src: VID, dst: VID) -> (r: Option<EID>) {
        self.graph.internal_edge(src, dst)
    }

    fn get_layer_id(&self, name: &str) -> (r: Option<usize>) {
        self.graph.get_layer_id(name)
    }
}

impl<'a, G: TimeSemantics> InheritStore for LayeredGraph<'a, G> {
    proof fn inherits_store(&self) {
    }
}

impl<'a, G: TimeSemantics> InheritTimeSemantics for LayeredGraph<'a, G> {

}

impl<'a, G: TimeSemantics> InheritCoreDeletionOps for LayeredGraph<'a, G> {

}

} // verus!
