//! A view of a graph restricted to a time window.

use vstd::prelude::*;
use std::ops::Range;
use crate::core_deletion_ops::InheritCoreDeletionOps;
use crate::core_ops::{Base, CoreGraphOps, InheritStore};
use crate::entities::{EdgeRef, EdgeStore, VertexStore, EID, VID};
use crate::graph::GraphView;
use crate::layers::LayerIds;
use crate::props::{Prop, Props};
use crate::time_index::{clamp, narrow, TimeIndex};
use crate::time_semantics::TimeSemantics;

verus! {

/// The graph `graph` seen through the half-open window `[t_start, t_end)`.
/// The bounds of the view are the bounds of `graph` narrowed to the
/// window; everything else it takes from `graph`.
pub struct WindowedGraph<'a, G> {
    pub graph: &'a G,
    pub t_start: i64,
    pub t_end: i64,
}

impl<'a, G: TimeSemantics> WindowedGraph<'a, G> {
    pub fn new(graph: &'a G, t_start: i64, t_end: i64) -> (r: Self)
        requires
            graph.valid(),
        ensures
            r.valid(),
            r.graph == graph,
            r.t_start == t_start,
            r.t_end == t_end,
    {
        WindowedGraph { graph, t_start, t_end }
    }

    /// The later of `t` and the start of the window.
    pub fn actual_start(&self, t: i64) -> (r: i64)
        ensures
            r == (if t >= self.t_start {
                t
            } else {
                self.t_start
            }),
    {
        if t >= self.t_start {
            t
        } else {
            self.t_start
        }
    }

    /// The earlier of `t` and the end of the window.
    pub fn actual_end(&self, t: i64) -> (r: i64)
        ensures
            r == (if t <= self.t_end {
                t
            } else {
                self.t_end
            }),
    {
        if t <= self.t_end {
            t
        } else {
            self.t_end
        }
    }

    /// The window `w` narrowed to the window of the view.
    fn actual(&self, w: Range<i64>) -> (r: Range<i64>)
        ensures
            clamp(self.graph.bounds(), r.start, r.end) == clamp(
                clamp(self.graph.bounds(), self.t_start, self.t_end),
                w.start,
                w.end,
            ),
    {
        Range { start: self.actual_start(w.start), end: self.actual_end(w.end) }
    }

    /// The window of the view.
    fn whole(&self) -> (r: Range<i64>)
        ensures
            r.start == self.t_start,
            r.end == self.t_end,
    {
        Range { start: self.t_start, end: self.t_end }
    }
}

impl<'a, G: TimeSemantics> Base for WindowedGraph<'a, G> {
    type Base = G;

    open spec fn spec_base(&self) -> G {
        *self.graph
    }

    fn base(&self) -> (r: &G) {
        self.graph
    }
}

impl<'a, G: TimeSemantics> CoreGraphOps for WindowedGraph<'a, G> {
    open spec fn store(&self) -> GraphView {
        self.graph.store()
    }

    open spec fn valid(&self) -> bool {
        self.graph.valid()
    }

    open spec fn layers(&self) -> Set<usize> {
        self.graph.layers()
    }

    open spec fn subset(&self) -> Set<VID> {
        self.graph.subset()
    }

    proof fn valid_core(&self) {
        self.graph.valid_core();
    }

    fn in_subset(&self, v: VID) -> (r: bool) {
        self.graph.in_subset(v)
    }

    fn layer_ids(&self) -> (r: LayerIds) {
        self.graph.layer_ids()
    }

    fn unfiltered_num_vertices(&self) -> (r: usize) {
        self.graph.unfiltered_num_vertices()
    }

    fn unfiltered_num_edges(&self) -> (r: usize) {
        self.graph.unfiltered_num_edges()
    }

    fn vertex_additions(&self, v: VID) -> (r: &TimeIndex) {
        self.graph.vertex_additions(v)
    }

    fn core_vertex(&self, v: VID) -> (r: &VertexStore) {
        self.graph.core_vertex(v)
    }

    fn core_edge(&self, e: EID) -> (r: &EdgeStore) {
        self.graph.core_edge(e)
    }

    fn graph_props(&self) -> (r: &Props) {
        self.graph.graph_props()
    }

    fn layer_names(&self) -> (r: Vec<String>) {
        self.graph.layer_names()
    }

    fn next_event_id(&self) -> (r: usize) {
        self.graph.next_event_id()
    }

    fn internal_vertex(&self, gid: u64) -> (r: Option<VID>) {
        self.graph.internal_vertex(gid)
    }

    fn internal_edge(&self, src: VID, dst: VID) -> (r: Option<EID>) {
        self.graph.internal_edge(src, dst)
    }

    fn get_layer_id(&self, name: &str) -> (r: Option<usize>) {
        self.graph.get_layer_id(name)
    }
}

impl<'a, G: TimeSemantics> InheritStore for WindowedGraph<'a, G> {
    proof fn inherits_store(&self) {
    }
}

impl<'a, G: TimeSemantics> InheritCoreDeletionOps for WindowedGraph<'a, G> {

}

impl<'a, G: TimeSemantics> TimeSemantics for WindowedGraph<'a, G> {
    open spec fn bounds(&self) -> Option<(i64, i64)> {
        clamp(self.graph.bounds(), self.t_start, self.t_end)
    }

    fn window_bounds(&self) -> (r: Option<(i64, i64)>) {
        narrow(self.graph.window_bounds(), self.t_start, self.t_end)
    }

    fn earliest_time_global(&self) -> (r: Option<i64>) {
        self.graph.earliest_time_window(self.t_start, self.t_end)
    }

    fn latest_time_global(&self) -> (r: Option<i64>) {
        self.graph.latest_time_window(self.t_start, self.t_end)
    }

    fn earliest_time_window(&self, t_start: i64, t_end: i64) -> (r: Option<i64>) {
        let w = self.actual(Range { start: t_start, end: t_end });
        self.graph.earliest_time_window(w.start, w.end)
    }

    fn latest_time_window(&self, t_start: i64, t_end: i64) -> (r: Option<i64>) {
        let w = self.actual(Range { start: t_start, end: t_end });
        self.graph.latest_time_window(w.start, w.end)
    }

    fn include_vertex_window(&self, v: VID, w: Range<i64>, layer_ids: &LayerIds) -> (r: bool) {
        self.graph.include_vertex_window(v, self.actual(w), layer_ids)
    }

    fn include_edge_window(&self, e: &EdgeStore, w: Range<i64>, layer_ids: &LayerIds) -> (r: bool) {
        self.graph.include_edge_window(e, self.actual(w), layer_ids)
    }

    fn edge_exploded(&self, e: EdgeRef, layer_ids: LayerIds) -> (r: Vec<EdgeRef>) {
        self.graph.edge_window_exploded(e, self.whole(), layer_ids)
    }

    fn edge_layers(&self, e: EdgeRef, layer_ids: LayerIds) -> (r: Vec<EdgeRef>) {
        self.graph.edge_window_layers(e, self.whole(), layer_ids)
    }

    fn edge_window_exploded(&self, e: EdgeRef, w: Range<i64>, layer_ids: LayerIds) -> (r: Vec<
        EdgeRef,
    >) {
        self.graph.edge_window_exploded(e, self.actual(w), layer_ids)
    }

    fn edge_window_layers(&self, e: EdgeRef, w: Range<i64>, layer_ids: LayerIds) -> (r: Vec<
        EdgeRef,
    >) {
        self.graph.edge_window_layers(e, self.actual(w), layer_ids)
    }

    fn edge_earliest_time(&self, e: EdgeRef, layer_ids: LayerIds) -> (r: Option<i64>) {
        self.graph.edge_earliest_time_window(e, self.whole(), layer_ids)
    }

    fn edge_earliest_time_window(&self, e: EdgeRef, w: Range<i64>, layer_ids: LayerIds) -> (r:
        Option<i64>) {
        self.graph.edge_earliest_time_window(e, self.actual(w), layer_ids)
    }

    fn edge_latest_time(&self, e: EdgeRef, layer_ids: LayerIds) -> (r: Option<i64>) {
        self.graph.edge_latest_time_window(e, self.whole(), layer_ids)
    }

    fn edge_latest_time_window(&self, e: EdgeRef, w: Range<i64>, layer_ids: LayerIds) -> (r:
        Option<i64>) {
        self.graph.edge_latest_time_window(e, self.actual(w), layer_ids)
    }

    fn edge_deletion_history(&self, e: EdgeRef, layer_ids: LayerIds) -> (r: Vec<i64>) {
        self.graph.edge_deletion_history_window(e, self.whole(), layer_ids)
    }

    fn edge_deletion_history_window(&self, e: EdgeRef, w: Range<i64>, layer_ids: LayerIds) -> (r:
        Vec<i64>) {
        self.graph.edge_deletion_history_window(e, self.actual(w), layer_ids)
    }

    fn temporal_prop_vec(&self, name: &str) -> (r: Vec<(i64, Prop)>) {
        self.graph.temporal_prop_vec_window(name, self.t_start, self.t_end)
    }

    fn temporal_prop_vec_window(&self, name: &str, t_start: i64, t_end: i64) -> (r: Vec<
        (i64, Prop),
    >) {
        let w = self.actual(Range { start: t_start, end: t_end });
        self.graph.temporal_prop_vec_window(name, w.start, w.end)
    }

    fn temporal_vertex_prop_vec(&self, v: VID, name: &str) -> (r: Vec<(i64, Prop)>) {
        self.graph.temporal_vertex_prop_vec_window(v, name, self.t_start, self.t_end)
    }

    fn temporal_vertex_prop_vec_window(&self, v: VID, name: &str, t_start: i64, t_end: i64) -> (r:
        Vec<(i64, Prop)>) {
        let w = self.actual(Range { start: t_start, end: t_end });
        self.graph.temporal_vertex_prop_vec_window(v, name, w.start, w.end)
    }

    fn temporal_edge_prop_vec_window(
        &self,
        e: EdgeRef,
        name: &str,
        t_start: i64,
        t_end: i64,
        layer_ids: LayerIds,
    ) -> (r: Vec<(i64, Prop)>) {
        let w = self.actual(Range { start: t_start, end: t_end });
        self.graph.temporal_edge_prop_vec_window(e, name, w.start, w.end, layer_ids)
    }

    fn temporal_edge_prop_vec(&self, e: EdgeRef, name: &str, layer_ids: LayerIds) -> (r: Vec<
        (i64, Prop),
    >) {
        self.graph.temporal_edge_prop_vec_window(e, name, self.t_start, self.t_end, layer_ids)
    }
}

} // verus!
