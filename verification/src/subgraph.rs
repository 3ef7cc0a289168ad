//! A view of a graph restricted to a set of vertices.

use vstd::prelude::*;
use crate::core_deletion_ops::InheritCoreDeletionOps;
use crate::core_ops::{Base, CoreGraphOps, InheritStore};
use crate::entities::{EdgeStore, VertexStore, EID, VID};
use crate::graph::GraphView;
use crate::layers::LayerIds;
use crate::props::Props;
use crate::time_index::TimeIndex;
use crate::time_semantics::{InheritTimeSemantics, TimeSemantics};

verus! {

/// The graph `graph` seen through the vertices `vertices`. The view may
/// show the vertices that are among `vertices` and that `graph` may show,
/// and the edges between them; everything else it takes from `graph`.
pub struct VertexSubgraph<'a, G> {
    pub graph: &'a G,
    pub vertices: Vec<VID>,
}

/// The handles that `vertices` lists.
pub open spec fn listed(vertices: Seq<VID>) -> Set<VID> {
    Set::new(|v: VID| vertices.contains(v))
}

impl<'a, G: TimeSemantics> VertexSubgraph<'a, G> {
    pub fn new(graph: &'a G, vertices: Vec<VID>) -> (r: Self)
        requires
            graph.valid(),
        ensures
            r.valid(),
            r.graph == graph,
            r.vertices == vertices,
    {
        VertexSubgraph { graph, vertices }
    }

    /// Whether `v` is among the vertices of the view.
    pub fn lists(&self, v: VID) -> (r: bool)
        ensures
            r == listed(self.vertices@).contains(v),
    {
        let mut i: usize = 0;
        while i < self.vertices.len()
            invariant
                i <= self.vertices.len(),
                forall|j: int| 0 <= j < i ==> self.vertices@[j] != v,
            decreases self.vertices.len() - i,
        {
            if self.vertices[i].0 == v.0 {
                return true;
            }
            i += 1;
        }
        false
    }
}

impl<'a, G: TimeSemantics> Base for VertexSubgraph<'a, G> {
    type Base = G;

    open spec fn spec_base(&self) -> G {
        *self.graph
    }

    fn base(&self) -> (r: &G) {
        self.graph
    }
}

impl<'a, G: TimeSemantics> CoreGraphOps for VertexSubgraph<'a, G> {
    open spec fn store(&self) -> GraphView {
        self.graph.store()
    }

    open spec fn valid(&self) -> bool {
        self.graph.valid()
    }

    open spec fn layers(&self) -> Set<usize> {
        self.graph.layers()
    }

    open spec fn subset(&self) -> Set<VID> {
        self.graph.subset().intersect(listed(self.vertices@))
    }

    proof fn valid_core(&self) {
        self.graph.valid_core();
    }

    fn in_subset(&self, v: VID) -> (r: bool) {
        self.graph.in_subset(v) && self.lists(v)
    }

    fn layer_ids(&self) -> (r: LayerIds) {
        self.graph.layer_ids()
    }

    fn unfiltered_num_vertices(&self) -> (r: usize) {
        self.graph.unfiltered_num_vertices()
    }

    fn unfiltered_num_edges(&self) -> (r: usize) {
        self.graph.unfiltered_num_edges()
    }

    fn vertex_additions(&self, v: VID) -> (r: &TimeIndex) {
        self.graph.vertex_additions(v)
    }

    fn core_vertex(&self, v: VID) -> (r: &VertexStore) {
        self.graph.core_vertex(v)
    }

    fn core_edge(&self, e: EID) -> (r: &EdgeStore) {
        self.graph.core_edge(e)
    }

    fn graph_props(&self) -> (r: &Props) {
        self.graph.graph_props()
    }

    fn layer_names(&self) -> (r: Vec<String>) {
        self.graph.layer_names()
    }

    fn next_event_id(&self) -> (r: usize) {
        self.graph.next_event_id()
    }

    fn internal_vertex(&self, gid: u64) -> (r: Option<VID>) {
        self.graph.internal_vertex(gid)
    }

    fn internal_edge(&self, src: VID, dst: VID) -> (r: Option<EID>) {
        self.graph.internal_edge(src, dst)
    }

    fn get_layer_id(&self, name: &str) -> (r: Option<usize>) {
        self.graph.get_layer_id(name)
    }
}

impl<'a, G: TimeSemantics> InheritStore for VertexSubgraph<'a, G> {
    proof fn inherits_store(&self) {
    }
}

impl<'a, G: TimeSemantics> InheritTimeSemantics for VertexSubgraph<'a, G> {

}

impl<'a, G: TimeSemantics> InheritCoreDeletionOps for VertexSubgraph<'a, G> {

}

} // verus!
