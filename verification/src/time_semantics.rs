//! Time semantics: what a graph or view shows of the history of its store
//! within its time bounds.

use vstd::prelude::*;
use std::ops::Range;
use crate::core_ops::{Base, CoreGraphOps, InheritStore};
use crate::entities::{
    edge_deletion_times, edge_earliest, edge_history, edge_latest, exploded_refs, layer_refs,
    EdgeRef, EdgeStore, VertexView, VID,
};
use crate::graph::{Graph, GraphView};
use crate::layers::LayerIds;
use crate::props::{history, timed_values, Prop};
use crate::time_index::{
    clamp, first_time, in_bounds, last_time, lemma_first_last, lemma_restrict, narrow,
    restrict, timestamps, TimeIndexEntry,
};

verus! {

pub open spec fn min_time(a: Option<i64>, b: Option<i64>) -> Option<i64> {
    match (a, b) {
        (None, _) => b,
        (_, None) => a,
        (Some(x), Some(y)) => Some(
            if x <= y {
                x
            } else {
                y
            },
        ),
    }
}

pub open spec fn max_time(a: Option<i64>, b: Option<i64>) -> Option<i64> {
    match (a, b) {
        (None, _) => b,
        (_, None) => a,
        (Some(x), Some(y)) => Some(
            if x >= y {
                x
            } else {
                y
            },
        ),
    }
}

/// The least time within `w` at which one of the first `n` vertices is active.
pub open spec fn earliest_upto(vs: Seq<VertexView>, w: Option<(i64, i64)>, n: nat) -> Option<i64>
    decreases n,
{
    if n == 0 {
        None
    } else {
        min_time(
            earliest_upto(vs, w, (n - 1) as nat),
            first_time(restrict(vs[n - 1].additions, w)),
        )
    }
}

/// The greatest time within `w` at which one of the first `n` vertices is active.
pub open spec fn latest_upto(vs: Seq<VertexView>, w: Option<(i64, i64)>, n: nat) -> Option<i64>
    decreases n,
{
    if n == 0 {
        None
    } else {
        max_time(
            latest_upto(vs, w, (n - 1) as nat),
            last_time(restrict(vs[n - 1].additions, w)),
        )
    }
}

/// The time of the earliest activity in the store within `w`.
pub open spec fn earliest(g: GraphView, w: Option<(i64, i64)>) -> Option<i64> {
    earliest_upto(g.vertices, w, g.vertices.len())
}

/// The time of the latest activity in the store within `w`.
pub open spec fn latest(g: GraphView, w: Option<(i64, i64)>) -> Option<i64> {
    latest_upto(g.vertices, w, g.vertices.len())
}

/// Whether vertex `v` is active within `w`.
pub open spec fn vertex_included(v: VertexView, w: Option<(i64, i64)>) -> bool {
    restrict(v.additions, w).len() > 0
}

/// The time that follows `t`; the greatest time is followed by itself.
pub open spec fn next_time(t: i64) -> i64 {
    if t < i64::MAX {
        (t + 1) as i64
    } else {
        t
    }
}

/// The start of the bounds `w`; without bounds, the earliest activity.
pub open spec fn start_of(g: GraphView, w: Option<(i64, i64)>) -> Option<i64> {
    match w {
        Some((start, _)) => Some(start),
        None => earliest(g, None),
    }
}

/// The end of the bounds `w`; without bounds, the time that follows the
/// latest activity.
pub open spec fn end_of(g: GraphView, w: Option<(i64, i64)>) -> Option<i64> {
    match w {
        Some((_, end)) => Some(end),
        None => match latest(g, None) {
            Some(t) => Some(next_time(t)),
            None => None,
        },
    }
}

/// The earliest and the latest activity are the least and the greatest
/// time within `w` over the addition indices of the vertices, and there is
/// none exactly when no vertex is active within `w`.
pub proof fn lemma_earliest_latest(vs: Seq<VertexView>, w: Option<(i64, i64)>, n: nat)
    requires
        n <= vs.len(),
        forall|i: int| 0 <= i < vs.len() ==> (#[trigger] vs[i]).wf(),
    ensures
        earliest_upto(vs, w, n) is Some <==> exists|i: int|
            0 <= i < n && vertex_included(#[trigger] vs[i], w),
        latest_upto(vs, w, n) is Some <==> exists|i: int|
            0 <= i < n && vertex_included(#[trigger] vs[i], w),
        forall|i: int, x: TimeIndexEntry|
            0 <= i < n && #[trigger] vs[i].additions.contains(x) && in_bounds(x.0, w)
                ==> earliest_upto(vs, w, n) is Some && earliest_upto(vs, w, n)->0 <= x.0 && x.0
                <= latest_upto(vs, w, n)->0,
        earliest_upto(vs, w, n) is Some ==> exists|i: int, x: TimeIndexEntry|
            0 <= i < n && #[trigger] vs[i].additions.contains(x) && in_bounds(x.0, w) && x.0
                == earliest_upto(vs, w, n)->0,
        latest_upto(vs, w, n) is Some ==> exists|i: int, x: TimeIndexEntry|
            0 <= i < n && #[trigger] vs[i].additions.contains(x) && in_bounds(x.0, w) && x.0
                == latest_upto(vs, w, n)->0,
    decreases n,
{
    if n > 0 {
        let m = (n - 1) as nat;
        lemma_earliest_latest(vs, w, m);
        let r = restrict(vs[n - 1].additions, w);
        assert(vs[n - 1].wf());
        lemma_restrict(vs[n - 1].additions, w);
        lemma_first_last(r);
        let e0 = earliest_upto(vs, w, m);
        let l0 = latest_upto(vs, w, m);
        let e1 = earliest_upto(vs, w, n);
        let l1 = latest_upto(vs, w, n);
        if e0 is Some {
            let i = choose|i: int| 0 <= i < m && vertex_included(#[trigger] vs[i], w);
            assert(0 <= i < n && vertex_included(vs[i], w));
        }
        if r.len() > 0 {
            assert(vertex_included(vs[n - 1], w));
        }
        assert forall|i: int, x: TimeIndexEntry|
            0 <= i < n && #[trigger] vs[i].additions.contains(x) && in_bounds(
                x.0,
                w,
            ) implies e1 is Some && e1->0 <= x.0 && x.0 <= l1->0 by {
            if i == n - 1 {
                assert(r.contains(x));
                let k = choose|k: int| 0 <= k < r.len() && r[k] == x;
                assert(first_time(r)->0 <= r[k].0 <= last_time(r)->0);
            }
        }
        if e1 is Some {
            if e0 is Some && e1 == e0 {
                let (i, x) = choose|i: int, x: TimeIndexEntry|
                    0 <= i < m && #[trigger] vs[i].additions.contains(x) && in_bounds(x.0, w)
                        && x.0 == e0->0;
                assert(0 <= i < n && vs[i].additions.contains(x));
            } else {
                assert(r.len() > 0);
                assert(r.contains(r[0]));
                assert(vs[n - 1].additions.contains(r[0]));
            }
        }
        if l1 is Some {
            if l0 is Some && l1 == l0 {
                let (i, x) = choose|i: int, x: TimeIndexEntry|
                    0 <= i < m && #[trigger] vs[i].additions.contains(x) && in_bounds(x.0, w)
                        && x.0 == l0->0;
                assert(0 <= i < n && vs[i].additions.contains(x));
            } else {
                assert(r.len() > 0);
                assert(r.contains(r[r.len() - 1]));
                assert(vs[n - 1].additions.contains(r[r.len() - 1]));
            }
        }
    }
}

pub fn min_of(a: Option<i64>, b: Option<i64>) -> (r: Option<i64>)
    ensures
        r == min_time(a, b),
{
    match (a, b) {
        (None, _) => b,
        (_, None) => a,
        (Some(x), Some(y)) => Some(
            if x <= y {
                x
            } else {
                y
            },
        ),
    }
}

pub fn max_of(a: Option<i64>, b: Option<i64>) -> (r: Option<i64>)
    ensures
        r == max_time(a, b),
{
    match (a, b) {
        (None, _) => b,
        (_, None) => a,
        (Some(x), Some(y)) => Some(
            if x >= y {
                x
            } else {
                y
            },
        ),
    }
}

/// The time of the earliest activity in the store of `g` within `w`.
pub fn earliest_in<G: CoreGraphOps>(g: &G, w: Option<(i64, i64)>) -> (r: Option<i64>)
    requires
        g.valid(),
    ensures
        r == earliest(g.store(), w),
{
    let n = g.unfiltered_num_vertices();
    let mut out: Option<i64> = None;
    let mut i: usize = 0;
    while i < n
        invariant
            i <= n,
            n == g.store().vertices.len(),
            g.valid(),
            out == earliest_upto(g.store().vertices, w, i as nat),
        decreases n - i,
    {
        let first = g.vertex_additions(VID(i)).range_in(w).first_t();
        out = min_of(out, first);
        i += 1;
    }
    out
}

/// The time of the latest activity in the store of `g` within `w`.
pub fn latest_in<G: CoreGraphOps>(g: &G, w: Option<(i64, i64)>) -> (r: Option<i64>)
    requires
        g.valid(),
    ensures
        r == latest(g.store(), w),
{
    let n = g.unfiltered_num_vertices();
    let mut out: Option<i64> = None;
    let mut i: usize = 0;
    while i < n
        invariant
            i <= n,
            n == g.store().vertices.len(),
            g.valid(),
            out == latest_upto(g.store().vertices, w, i as nat),
        decreases n - i,
    {
        let last = g.vertex_additions(VID(i)).range_in(w).last_t();
        out = max_of(out, last);
        i += 1;
    }
    out
}

/// Time semantics of a graph or view. Every query is answered from the
/// store within the bounds of the view; a query with a window narrows the
/// bounds to that window.
pub trait TimeSemantics: CoreGraphOps {
    /// The time bounds of the view: none for a graph, the window for a
    /// windowed view.
    spec fn bounds(&self) -> Option<(i64, i64)>;

    fn window_bounds(&self) -> (r: Option<(i64, i64)>)
        requires
            self.valid(),
        ensures
            r == self.bounds(),
    ;

    /// The earliest time at which vertex `v` is active.
    fn vertex_earliest_time(&self, v: VID) -> (r: Option<i64>)
        requires
            self.valid(),
            v.0 < self.store().vertices.len(),
        ensures
            r == first_time(restrict(self.store().vertices[v.0 as int].additions, self.bounds())),
    {
        self.vertex_additions(v).range_in(self.window_bounds()).first_t()
    }

    /// The latest time at which vertex `v` is active.
    fn vertex_latest_time(&self, v: VID) -> (r: Option<i64>)
        requires
            self.valid(),
            v.0 < self.store().vertices.len(),
        ensures
            r == last_time(restrict(self.store().vertices[v.0 as int].additions, self.bounds())),
    {
        self.vertex_additions(v).range_in(self.window_bounds()).last_t()
    }

    /// The default start time for perspectives over the view.
    fn view_start(&self) -> (r: Option<i64>)
        requires
            self.valid(),
        ensures
            r == start_of(self.store(), self.bounds()),
    {
        match self.window_bounds() {
            Some((start, _)) => Some(start),
            None => {
                let r = self.earliest_time_global();
                r
            },
        }
    }

    /// The default end time for perspectives over the view.
    fn view_end(&self) -> (r: Option<i64>)
        requires
            self.valid(),
        ensures
            r == end_of(self.store(), self.bounds()),
    {
        match self.window_bounds() {
            Some((_, end)) => Some(end),
            None => match self.latest_time_global() {
                Some(t) => Some(
                    if t < i64::MAX {
                        t + 1
                    } else {
                        t
                    },
                ),
                None => None,
            },
        }
    }

    /// The time of the earliest activity.
    fn earliest_time_global(&self) -> (r: Option<i64>)
        requires
            self.valid(),
        ensures
            r == earliest(self.store(), self.bounds()),
    ;

    /// The time of the latest activity.
    fn latest_time_global(&self) -> (r: Option<i64>)
        requires
            self.valid(),
        ensures
            r == latest(self.store(), self.bounds()),
    ;

    /// The time of the earliest activity in the window.
    fn earliest_time_window(&self, t_start: i64, t_end: i64) -> (r: Option<i64>)
        requires
            self.valid(),
        ensures
            r == earliest(self.store(), clamp(self.bounds(), t_start, t_end)),
    ;

    /// The time of the latest activity in the window.
    fn latest_time_window(&self, t_start: i64, t_end: i64) -> (r: Option<i64>)
        requires
            self.valid(),
        ensures
            r == latest(self.store(), clamp(self.bounds(), t_start, t_end)),
    ;

    /// The earliest time at which vertex `v` is active in the window.
    fn vertex_earliest_time_window(&self, v: VID, t_start: i64, t_end: i64) -> (r: Option<i64>)
        requires
            self.valid(),
            v.0 < self.store().vertices.len(),
        ensures
            r == first_time(
                restrict(
                    self.store().vertices[v.0 as int].additions,
                    clamp(self.bounds(), t_start, t_end),
                ),
            ),
    {
        self.vertex_additions(v).range_in(narrow(self.window_bounds(), t_start, t_end)).first_t()
    }

    /// The latest time at which vertex `v` is active in the window.
    fn vertex_latest_time_window(&self, v: VID, t_start: i64, t_end: i64) -> (r: Option<i64>)
        requires
            self.valid(),
            v.0 < self.store().vertices.len(),
        ensures
            r == last_time(
                restrict(
                    self.store().vertices[v.0 as int].additions,
                    clamp(self.bounds(), t_start, t_end),
                ),
            ),
    {
        self.vertex_additions(v).range_in(narrow(self.window_bounds(), t_start, t_end)).last_t()
    }

    /// Whether vertex `v` belongs to the window `w`: whether it is active
    /// at a time within `w`.
    fn include_vertex_window(&self, v: VID, w: Range<i64>, layer_ids: &LayerIds) -> (r: bool)
        requires
            self.valid(),
            v.0 < self.store().vertices.len(),
        ensures
            r == vertex_included(
                self.store().vertices[v.0 as int],
                clamp(self.bounds(), w.start, w.end),
            ),
    ;

    /// Whether the edge `e` belongs to the window `w` in the layers `layer_ids`.
    fn include_edge_window(&self, e: &EdgeStore, w: Range<i64>, layer_ids: &LayerIds) -> (r: bool)
        requires
            self.valid(),
            e.wf(),
        ensures
            r == e@.included(layer_ids@, clamp(self.bounds(), w.start, w.end)),
    ;

    /// The times at which vertex `v` is active, ascending.
    fn vertex_history(&self, v: VID) -> (r: Vec<i64>)
        requires
            self.valid(),
            v.0 < self.store().vertices.len(),
        ensures
            r@ == timestamps(restrict(self.store().vertices[v.0 as int].additions, self.bounds())),
    {
        self.vertex_additions(v).range_in(self.window_bounds()).iter_t()
    }

    /// The times at which vertex `v` is active in the window `w`, ascending.
    fn vertex_history_window(&self, v: VID, w: Range<i64>) -> (r: Vec<i64>)
        requires
            self.valid(),
            v.0 < self.store().vertices.len(),
        ensures
            r@ == timestamps(
                restrict(
                    self.store().vertices[v.0 as int].additions,
                    clamp(self.bounds(), w.start, w.end),
                ),
            ),
    {
        self.vertex_additions(v).range_in(
            narrow(self.window_bounds(), w.start, w.end),
        ).iter_t()
    }

    /// The occurrences of the edge `e`: one for each addition in its layers.
    fn edge_exploded(&self, e: EdgeRef, layer_ids: LayerIds) -> (r: Vec<EdgeRef>)
        requires
            self.valid(),
            e.e_pid.0 < self.store().edges.len(),
        ensures
            r@ == exploded_refs(self.store().edges[e.e_pid.0 as int], e, layer_ids@, self.bounds()),
    ;

    /// The edge `e` in each of its layers.
    fn edge_layers(&self, e: EdgeRef, layer_ids: LayerIds) -> (r: Vec<EdgeRef>)
        requires
            self.valid(),
            e.e_pid.0 < self.store().edges.len(),
        ensures
            r@ == layer_refs(self.store().edges[e.e_pid.0 as int], e, layer_ids@, self.bounds()),
    ;

    /// The occurrences of the edge `e` in the window `w`.
    fn edge_window_exploded(&self, e: EdgeRef, w: Range<i64>, layer_ids: LayerIds) -> (r: Vec<
        EdgeRef,
    >)
        requires
            self.valid(),
            e.e_pid.0 < self.store().edges.len(),
        ensures
            r@ == exploded_refs(
                self.store().edges[e.e_pid.0 as int],
                e,
                layer_ids@,
                clamp(self.bounds(), w.start, w.end),
            ),
    ;

    /// The edge `e` in each of its layers in which it occurs in the window `w`.
    fn edge_window_layers(&self, e: EdgeRef, w: Range<i64>, layer_ids: LayerIds) -> (r: Vec<
        EdgeRef,
    >)
        requires
            self.valid(),
            e.e_pid.0 < self.store().edges.len(),
        ensures
            r@ == layer_refs(
                self.store().edges[e.e_pid.0 as int],
                e,
                layer_ids@,
                clamp(self.bounds(), w.start, w.end),
            ),
    ;

    /// The time of the earliest activity of the edge `e`.
    fn edge_earliest_time(&self, e: EdgeRef, layer_ids: LayerIds) -> (r: Option<i64>)
        requires
            self.valid(),
            e.e_pid.0 < self.store().edges.len(),
        ensures
            r == edge_earliest(self.store().edges[e.e_pid.0 as int], e, layer_ids@, self.bounds()),
    ;

    /// The time of the earliest activity of the edge `e` in the window `w`.
    fn edge_earliest_time_window(&self, e: EdgeRef, w: Range<i64>, layer_ids: LayerIds) -> (r:
        Option<i64>)
        requires
            self.valid(),
            e.e_pid.0 < self.store().edges.len(),
        ensures
            r == edge_earliest(
                self.store().edges[e.e_pid.0 as int],
                e,
                layer_ids@,
                clamp(self.bounds(), w.start, w.end),
            ),
    ;

    /// The time of the latest activity of the edge `e`.
    fn edge_latest_time(&self, e: EdgeRef, layer_ids: LayerIds) -> (r: Option<i64>)
        requires
            self.valid(),
            e.e_pid.0 < self.store().edges.len(),
        ensures
            r == edge_latest(self.store().edges[e.e_pid.0 as int], e, layer_ids@, self.bounds()),
    ;

    /// The time of the latest activity of the edge `e` in the window `w`.
    fn edge_latest_time_window(&self, e: EdgeRef, w: Range<i64>, layer_ids: LayerIds) -> (r:
        Option<i64>)
        requires
            self.valid(),
            e.e_pid.0 < self.store().edges.len(),
        ensures
            r == edge_latest(
                self.store().edges[e.e_pid.0 as int],
                e,
                layer_ids@,
                clamp(self.bounds(), w.start, w.end),
            ),
    ;

    /// The times of the deletions of the edge `e`, ascending.
    fn edge_deletion_history(&self, e: EdgeRef, layer_ids: LayerIds) -> (r: Vec<i64>)
        requires
            self.valid(),
            e.e_pid.0 < self.store().edges.len(),
        ensures
            r@ == edge_deletion_times(
                self.store().edges[e.e_pid.0 as int],
                e,
                layer_ids@,
                self.bounds(),
            ),
    ;

    /// The times of the deletions of the edge `e` in the window `w`, ascending.
    fn edge_deletion_history_window(&self, e: EdgeRef, w: Range<i64>, layer_ids: LayerIds) -> (r:
        Vec<i64>)
        requires
            self.valid(),
            e.e_pid.0 < self.store().edges.len(),
        ensures
            r@ == edge_deletion_times(
                self.store().edges[e.e_pid.0 as int],
                e,
                layer_ids@,
                clamp(self.bounds(), w.start, w.end),
            ),
    ;

    /// The values of the temporal property `name` of the graph, each with
    /// its time.
    fn temporal_prop_vec(&self, name: &str) -> (r: Vec<(i64, Prop)>)
        requires
            self.valid(),
        ensures
            timed_values(r@) == history(
                self.store().props.temporal,
                name@,
                self.bounds(),
                Set::full(),
            ),
    ;

    /// The values of the temporal property `name` of the graph in the
    /// window, each with its time.
    fn temporal_prop_vec_window(&self, name: &str, t_start: i64, t_end: i64) -> (r: Vec<
        (i64, Prop),
    >)
        requires
            self.valid(),
        ensures
            timed_values(r@) == history(
                self.store().props.temporal,
                name@,
                clamp(self.bounds(), t_start, t_end),
                Set::full(),
            ),
    ;

    /// The values of the temporal property `name` of vertex `v`, each with
    /// its time.
    fn temporal_vertex_prop_vec(&self, v: VID, name: &str) -> (r: Vec<(i64, Prop)>)
        requires
            self.valid(),
            v.0 < self.store().vertices.len(),
        ensures
            timed_values(r@) == history(
                self.store().vertices[v.0 as int].props.temporal,
                name@,
                self.bounds(),
                Set::full(),
            ),
    ;

    /// The values of the temporal property `name` of vertex `v` in the
    /// window, each with its time.
    fn temporal_vertex_prop_vec_window(&self, v: VID, name: &str, t_start: i64, t_end: i64) -> (r:
        Vec<(i64, Prop)>)
        requires
            self.valid(),
            v.0 < self.store().vertices.len(),
        ensures
            timed_values(r@) == history(
                self.store().vertices[v.0 as int].props.temporal,
                name@,
                clamp(self.bounds(), t_start, t_end),
                Set::full(),
            ),
    ;

    /// The values of the temporal property `name` of the edge `e` in the
    /// window, each with its time.
    fn temporal_edge_prop_vec_window(
        &self,
        e: EdgeRef,
        name: &str,
        t_start: i64,
        t_end: i64,
        layer_ids: LayerIds,
    ) -> (r: Vec<(i64, Prop)>)
        requires
            self.valid(),
            e.e_pid.0 < self.store().edges.len(),
        ensures
            timed_values(r@) == edge_history(
                self.store().edges[e.e_pid.0 as int],
                e,
                name@,
                layer_ids@,
                clamp(self.bounds(), t_start, t_end),
            ),
    ;

    /// The values of the temporal property `name` of the edge `e`, each
    /// with its time.
    fn temporal_edge_prop_vec(&self, e: EdgeRef, name: &str, layer_ids: LayerIds) -> (r: Vec<
        (i64, Prop),
    >)
        requires
            self.valid(),
            e.e_pid.0 < self.store().edges.len(),
        ensures
            timed_values(r@) == edge_history(
                self.store().edges[e.e_pid.0 as int],
                e,
                name@,
                layer_ids@,
                self.bounds(),
            ),
    ;
}

/// A view that takes its time semantics, unchanged, from the graph that it wraps.
pub trait InheritTimeSemantics: InheritStore where <Self as Base>::Base: CoreGraphOps {

}

impl<G: InheritTimeSemantics> DelegateTimeSemantics for G where <G as Base>::Base: TimeSemantics {
    type Internal = <G as Base>::Base;

    open spec fn internal(&self) -> Self::Internal {
        self.spec_base()
    }

    fn graph(&self) -> (r: &Self::Internal) {
        self.base()
    }

    proof fn delegates_store(&self) {
        self.inherits_store();
    }
}

/// A view whose time semantics are those of another graph.
pub trait DelegateTimeSemantics: CoreGraphOps {
    type Internal: TimeSemantics;

    /// The graph that answers for the view.
    spec fn internal(&self) -> Self::Internal;

    fn graph(&self) -> (r: &Self::Internal)
        ensures
            *r == self.internal(),
    ;

    /// The view reads the store of the graph that answers for it.
    proof fn delegates_store(&self)
        requires
            self.valid(),
        ensures
            self.internal().valid(),
            self.internal().store() == self.store(),
    ;
}

impl<G: DelegateTimeSemantics> TimeSemantics for G {
    open spec fn bounds(&self) -> Option<(i64, i64)> {
        self.internal().bounds()
    }

    #[inline]
    fn window_bounds(&self) -> (r: Option<(i64, i64)>) {
        proof {
            self.delegates_store();
        }
        self.graph().window_bounds()
    }

    #[inline]
    fn vertex_earliest_time(&self, v: VID) -> (r: Option<i64>) {
        proof {
            self.delegates_store();
        }
        self.graph().vertex_earliest_time(v)
    }

    #[inline]
    fn vertex_latest_time(&self, v: VID) -> (r: Option<i64>) {
        proof {
            self.delegates_store();
        }
        self.graph().vertex_latest_time(v)
    }

    #[inline]
    fn view_start(&self) -> (r: Option<i64>) {
        proof {
            self.delegates_store();
        }
        self.graph().view_start()
    }

    #[inline]
    fn view_end(&self) -> (r: Option<i64>) {
        proof {
            self.delegates_store();
        }
        self.graph().view_end()
    }

    #[inline]
    fn earliest_time_global(&self) -> (r: Option<i64>) {
        proof {
            self.delegates_store();
        }
        self.graph().earliest_time_global()
    }

    #[inline]
    fn latest_time_global(&self) -> (r: Option<i64>) {
        proof {
            self.delegates_store();
        }
        self.graph().latest_time_global()
    }

    #[inline]
    fn earliest_time_window(&self, t_start: i64, t_end: i64) -> (r: Option<i64>) {
        proof {
            self.delegates_store();
        }
        self.graph().earliest_time_window(t_start, t_end)
    }

    #[inline]
    fn latest_time_window(&self, t_start: i64, t_end: i64) -> (r: Option<i64>) {
        proof {
            self.delegates_store();
        }
        self.graph().latest_time_window(t_start, t_end)
    }

    #[inline]
    fn vertex_earliest_time_window(&self, v: VID, t_start: i64, t_end: i64) -> (r: Option<i64>) {
        proof {
            self.delegates_store();
        }
        self.graph().vertex_earliest_time_window(v, t_start, t_end)
    }

    #[inline]
    fn vertex_latest_time_window(&self, v: VID, t_start: i64, t_end: i64) -> (r: Option<i64>) {
        proof {
            self.delegates_store();
        }
        self.graph().vertex_latest_time_window(v, t_start, t_end)
    }

    #[inline]
    fn include_vertex_window(&self, v: VID, w: Range<i64>, layer_ids: &LayerIds) -> (r: bool) {
        proof {
            self.delegates_store();
        }
        self.graph().include_vertex_window(v, w, layer_ids)
    }

    #[inline]
    fn include_edge_window(&self, e: &EdgeStore, w: Range<i64>, layer_ids: &LayerIds) -> (r: bool) {
        proof {
            self.delegates_store();
        }
        self.graph().include_edge_window(e, w, layer_ids)
    }

    #[inline]
    fn vertex_history(&self, v: VID) -> (r: Vec<i64>) {
        proof {
            self.delegates_store();
        }
        self.graph().vertex_history(v)
    }

    #[inline]
    fn vertex_history_window(&self, v: VID, w: Range<i64>) -> (r: Vec<i64>) {
        proof {
            self.delegates_store();
        }
        self.graph().vertex_history_window(v, w)
    }

    #[inline]
    fn edge_exploded(&self, e: EdgeRef, layer_ids: LayerIds) -> (r: Vec<EdgeRef>) {
        proof {
            self.delegates_store();
        }
        self.graph().edge_exploded(e, layer_ids)
    }

    #[inline]
    fn edge_layers(&self, e: EdgeRef, layer_ids: LayerIds) -> (r: Vec<EdgeRef>) {
        proof {
            self.delegates_store();
        }
        self.graph().edge_layers(e, layer_ids)
    }

    #[inline]
    fn edge_window_exploded(&self, e: EdgeRef, w: Range<i64>, layer_ids: LayerIds) -> (r: Vec<
        EdgeRef,
    >) {
        proof {
            self.delegates_store();
        }
        self.graph().edge_window_exploded(e, w, layer_ids)
    }

    #[inline]
    fn edge_window_layers(&self, e: EdgeRef, w: Range<i64>, layer_ids: LayerIds) -> (r: Vec<
        EdgeRef,
    >) {
        proof {
            self.delegates_store();
        }
        self.graph().edge_window_layers(e, w, layer_ids)
    }

    #[inline]
    fn edge_earliest_time(&self, e: EdgeRef, layer_ids: LayerIds) -> (r: Option<i64>) {
        proof {
            self.delegates_store();
        }
        self.graph().edge_earliest_time(e, layer_ids)
    }

    #[inline]
    fn edge_earliest_time_window(&self, e: EdgeRef, w: Range<i64>, layer_ids: LayerIds) -> (r:
        Option<i64>) {
        proof {
            self.delegates_store();
        }
        self.graph().edge_earliest_time_window(e, w, layer_ids)
    }

    #[inline]
    fn edge_latest_time(&self, e: EdgeRef, layer_ids: LayerIds) -> (r: Option<i64>) {
        proof {
            self.delegates_store();
        }
        self.graph().edge_latest_time(e, layer_ids)
    }

    #[inline]
    fn edge_latest_time_window(&self, e: EdgeRef, w: Range<i64>, layer_ids: LayerIds) -> (r:
        Option<i64>) {
        proof {
            self.delegates_store();
        }
        self.graph().edge_latest_time_window(e, w, layer_ids)
    }

    #[inline]
    fn edge_deletion_history(&self, e: EdgeRef, layer_ids: LayerIds) -> (r: Vec<i64>) {
        proof {
            self.delegates_store();
        }
        self.graph().edge_deletion_history(e, layer_ids)
    }

    #[inline]
    fn edge_deletion_history_window(&self, e: EdgeRef, w: Range<i64>, layer_ids: LayerIds) -> (r:
        Vec<i64>) {
        proof {
            self.delegates_store();
        }
        self.graph().edge_deletion_history_window(e, w, layer_ids)
    }

    #[inline]
    fn temporal_prop_vec(&self, name: &str) -> (r: Vec<(i64, Prop)>) {
        proof {
            self.delegates_store();
        }
        self.graph().temporal_prop_vec(name)
    }

    #[inline]
    fn temporal_prop_vec_window(&self, name: &str, t_start: i64, t_end: i64) -> (r: Vec<
        (i64, Prop),
    >) {
        proof {
            self.delegates_store();
        }
        self.graph().temporal_prop_vec_window(name, t_start, t_end)
    }

    #[inline]
    fn temporal_vertex_prop_vec(&self, v: VID, name: &str) -> (r: Vec<(i64, Prop)>) {
        proof {
            self.delegates_store();
        }
        self.graph().temporal_vertex_prop_vec(v, name)
    }

    #[inline]
    fn temporal_vertex_prop_vec_window(&self, v: VID, name: &str, t_start: i64, t_end: i64) -> (r:
        Vec<(i64, Prop)>) {
        proof {
            self.delegates_store();
        }
        self.graph().temporal_vertex_prop_vec_window(v, name, t_start, t_end)
    }

    #[inline]
    fn temporal_edge_prop_vec_window(
        &self,
        e: EdgeRef,
        name: &str,
        t_start: i64,
        t_end: i64,
        layer_ids: LayerIds,
    ) -> (r: Vec<(i64, Prop)>) {
        proof {
            self.delegates_store();
        }
        self.graph().temporal_edge_prop_vec_window(e, name, t_start, t_end, layer_ids)
    }

    #[inline]
    fn temporal_edge_prop_vec(&self, e: EdgeRef, name: &str, layer_ids: LayerIds) -> (r: Vec<
        (i64, Prop),
    >) {
        proof {
            self.delegates_store();
        }
        self.graph().temporal_edge_prop_vec(e, name, layer_ids)
    }
}

impl TimeSemantics for Graph {
    open spec fn bounds(&self) -> Option<(i64, i64)> {
        None
    }

    fn window_bounds(&self) -> (r: Option<(i64, i64)>) {
        None
    }

    fn earliest_time_global(&self) -> (r: Option<i64>) {
        earliest_in(self, None)
    }

    fn latest_time_global(&self) -> (r: Option<i64>) {
        latest_in(self, None)
    }

    fn earliest_time_window(&self, t_start: i64, t_end: i64) -> (r: Option<i64>) {
        earliest_in(self, Some((t_start, t_end)))
    }

    fn latest_time_window(&self, t_start: i64, t_end: i64) -> (r: Option<i64>) {
        latest_in(self, Some((t_start, t_end)))
    }

    fn include_vertex_window(&self, v: VID, w: Range<i64>, layer_ids: &LayerIds) -> (r: bool) {
        self.vertex_additions(v).range(w.start, w.end).len() > 0
    }

    fn include_edge_window(&self, e: &EdgeStore, w: Range<i64>, layer_ids: &LayerIds) -> (r: bool) {
        e.included(layer_ids, Some((w.start, w.end)))
    }

    fn edge_exploded(&self, e: EdgeRef, layer_ids: LayerIds) -> (r: Vec<EdgeRef>) {
        self.core_edge(e.e_pid).exploded_refs(e, &layer_ids, None)
    }

    fn edge_layers(&self, e: EdgeRef, layer_ids: LayerIds) -> (r: Vec<EdgeRef>) {
        self.core_edge(e.e_pid).layer_refs(e, &layer_ids, None)
    }

    fn edge_window_exploded(&self, e: EdgeRef, w: Range<i64>, layer_ids: LayerIds) -> (r: Vec<
        EdgeRef,
    >) {
        self.core_edge(e.e_pid).exploded_refs(e, &layer_ids, Some((w.start, w.end)))
    }

    fn edge_window_layers(&self, e: EdgeRef, w: Range<i64>, layer_ids: LayerIds) -> (r: Vec<
        EdgeRef,
    >) {
        self.core_edge(e.e_pid).layer_refs(e, &layer_ids, Some((w.start, w.end)))
    }

    fn edge_earliest_time(&self, e: EdgeRef, layer_ids: LayerIds) -> (r: Option<i64>) {
        self.core_edge(e.e_pid).earliest_time(e, &layer_ids, None)
    }

    fn edge_earliest_time_window(&self, e: EdgeRef, w: Range<i64>, layer_ids: LayerIds) -> (r:
        Option<i64>) {
        self.core_edge(e.e_pid).earliest_time(e, &layer_ids, Some((w.start, w.end)))
    }

    fn edge_latest_time(&self, e: EdgeRef, layer_ids: LayerIds) -> (r: Option<i64>) {
        self.core_edge(e.e_pid).latest_time(e, &layer_ids, None)
    }

    fn edge_latest_time_window(&self, e: EdgeRef, w: Range<i64>, layer_ids: LayerIds) -> (r:
        Option<i64>) {
        self.core_edge(e.e_pid).latest_time(e, &layer_ids, Some((w.start, w.end)))
    }

    fn edge_deletion_history(&self, e: EdgeRef, layer_ids: LayerIds) -> (r: Vec<i64>) {
        self.core_edge(e.e_pid).deletion_times(e, &layer_ids, None)
    }

    fn edge_deletion_history_window(&self, e: EdgeRef, w: Range<i64>, layer_ids: LayerIds) -> (r:
        Vec<i64>) {
        self.core_edge(e.e_pid).deletion_times(e, &layer_ids, Some((w.start, w.end)))
    }

    fn temporal_prop_vec(&self, name: &str) -> (r: Vec<(i64, Prop)>) {
        let owned = name.to_owned();
        self.graph_props().temporal_vec(&owned, None, &LayerIds::All)
    }

    fn temporal_prop_vec_window(&self, name: &str, t_start: i64, t_end: i64) -> (r: Vec<
        (i64, Prop),
    >) {
        let owned = name.to_owned();
        self.graph_props().temporal_vec(&owned, Some((t_start, t_end)), &LayerIds::All)
    }

    fn temporal_vertex_prop_vec(&self, v: VID, name: &str) -> (r: Vec<(i64, Prop)>) {
        let owned = name.to_owned();
        self.core_vertex(v).props().temporal_vec(&owned, None, &LayerIds::All)
    }

    fn temporal_vertex_prop_vec_window(&self, v: VID, name: &str, t_start: i64, t_end: i64) -> (r:
        Vec<(i64, Prop)>) {
        let owned = name.to_owned();
        self.core_vertex(v).props().temporal_vec(&owned, Some((t_start, t_end)), &LayerIds::All)
    }

    fn temporal_edge_prop_vec_window(
        &self,
        e: EdgeRef,
        name: &str,
        t_start: i64,
        t_end: i64,
        layer_ids: LayerIds,
    ) -> (r: Vec<(i64, Prop)>) {
        self.core_edge(e.e_pid).prop_history(e, name, &layer_ids, Some((t_start, t_end)))
    }

    fn temporal_edge_prop_vec(&self, e: EdgeRef, name: &str, layer_ids: LayerIds) -> (r: Vec<
        (i64, Prop),
    >) {
        self.core_edge(e.e_pid).prop_history(e, name, &layer_ids, None)
    }
}

} // verus!
