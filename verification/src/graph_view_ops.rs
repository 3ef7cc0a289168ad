//! What every graph and view offers to its users: its vertices and edges,
//! and narrower views of itself.

use vstd::prelude::*;
use crate::core_ops::CoreGraphOps;
use crate::entities::{EdgeRef, EID, VID};
use crate::graph::{Graph, GraphView};
use crate::layered_graph::LayeredGraph;
use crate::layers::LayerIds;
use crate::entities::{edge_layers, narrow_layers, EdgeStore, VertexStore};
use crate::props::history;
use crate::restriction::{
    lemma_restrict_store_shows, restrict_edge, restrict_store, restrict_vertex,
};
use crate::subgraph::VertexSubgraph;
use crate::time_index::{clamp, lemma_clamp_commutes, narrow, timestamps};
use crate::time_semantics::{earliest, latest, vertex_included, TimeSemantics};
use crate::windowed_graph::WindowedGraph;

verus! {

/// The reference to the edge with handle `i`.
pub open spec fn edge_ref_of(g: GraphView, i: int) -> EdgeRef {
    EdgeRef {
        e_pid: EID(i as usize),
        src_pid: g.edges[i].src,
        dst_pid: g.edges[i].dst,
        time: None,
        layer: None,
    }
}

/// Whether the view of the subset `subset` within `w` shows the vertex
/// with handle `i`: it belongs to the subset and is active within `w`.
pub open spec fn vertex_shown(
    g: GraphView,
    subset: Set<VID>,
    w: Option<(i64, i64)>,
    i: int,
) -> bool {
    subset.contains(VID(i as usize)) && vertex_included(g.vertices[i], w)
}

/// Whether the view shows the edge with handle `i`: both its endpoints
/// belong to the subset, and it has an addition in `layers` within `w`
/// that no earlier deletion has closed.
pub open spec fn edge_shown(
    g: GraphView,
    subset: Set<VID>,
    layers: Set<usize>,
    w: Option<(i64, i64)>,
    i: int,
) -> bool {
    subset.contains(g.edges[i].src) && subset.contains(g.edges[i].dst) && g.edges[i].included(
        layers,
        w,
    )
}

/// The vertices among the first `n` that the view shows, ascending.
pub open spec fn view_vertices(g: GraphView, subset: Set<VID>, w: Option<(i64, i64)>, n: nat) -> Seq<
    VID,
>
    decreases n,
{
    if n == 0 {
        Seq::empty()
    } else {
        let rest = view_vertices(g, subset, w, (n - 1) as nat);
        if vertex_shown(g, subset, w, n - 1) {
            rest.push(VID((n - 1) as usize))
        } else {
            rest
        }
    }
}

/// The edges among the first `n` that the view shows, ascending.
pub open spec fn view_edges(
    g: GraphView,
    subset: Set<VID>,
    layers: Set<usize>,
    w: Option<(i64, i64)>,
    n: nat,
) -> Seq<EdgeRef>
    decreases n,
{
    if n == 0 {
        Seq::empty()
    } else {
        let rest = view_edges(g, subset, layers, w, (n - 1) as nat);
        if edge_shown(g, subset, layers, w, n - 1) {
            rest.push(edge_ref_of(g, n - 1))
        } else {
            rest
        }
    }
}

/// The number of edges among the first `n` that the view shows and that
/// start or end at vertex `v`.
pub open spec fn view_degree(
    g: GraphView,
    subset: Set<VID>,
    layers: Set<usize>,
    w: Option<(i64, i64)>,
    v: VID,
    n: nat,
) -> nat
    decreases n,
{
    if n == 0 {
        0
    } else {
        let rest = view_degree(g, subset, layers, w, v, (n - 1) as nat);
        if edge_shown(g, subset, layers, w, n - 1) && (g.edges[n - 1].src == v || g.edges[n
            - 1].dst == v) {
            rest + 1
        } else {
            rest
        }
    }
}

/// Whether the view shows the vertex with the identifier `gid`.
pub open spec fn shows_vertex(
    g: GraphView,
    subset: Set<VID>,
    w: Option<(i64, i64)>,
    gid: u64,
) -> bool {
    g.vertex_index(gid) matches Some(v) && vertex_shown(g, subset, w, v)
}

/// Whether the view shows the edge between the vertices with the
/// identifiers `src` and `dst`.
pub open spec fn shows_edge(
    g: GraphView,
    subset: Set<VID>,
    layers: Set<usize>,
    w: Option<(i64, i64)>,
    src: u64,
    dst: u64,
) -> bool {
    g.find_edge(src, dst) matches Some(e) && edge_shown(g, subset, layers, w, e)
}

pub proof fn lemma_view_degree_bound(
    g: GraphView,
    subset: Set<VID>,
    layers: Set<usize>,
    w: Option<(i64, i64)>,
    v: VID,
    n: nat,
)
    ensures
        view_degree(g, subset, layers, w, v, n) <= n,
        view_vertices(g, subset, w, n).len() <= n,
        view_edges(g, subset, layers, w, n).len() <= n,
    decreases n,
{
    if n > 0 {
        lemma_view_degree_bound(g, subset, layers, w, v, (n - 1) as nat);
    }
}

/// The vertices and edges of a graph or view, and narrower views of it.
pub trait GraphViewOps: TimeSemantics + Sized {
    /// The view narrowed to the window `[t_start, t_end)`.
    fn window(&self, t_start: i64, t_end: i64) -> (r: WindowedGraph<'_, Self>)
        requires
            self.valid(),
        ensures
            r.valid(),
            *r.graph == *self,
            r.t_start == t_start,
            r.t_end == t_end,
    {
        WindowedGraph::new(self, t_start, t_end)
    }

    /// The view narrowed to the layers `layers`.
    fn layer(&self, layers: LayerIds) -> (r: LayeredGraph<'_, Self>)
        requires
            self.valid(),
        ensures
            r.valid(),
            *r.graph == *self,
            r.layers == layers,
    {
        LayeredGraph::new(self, layers)
    }

    /// The view narrowed to the vertices `vertices` and the edges between them.
    fn subgraph(&self, vertices: Vec<VID>) -> (r: VertexSubgraph<'_, Self>)
        requires
            self.valid(),
        ensures
            r.valid(),
            *r.graph == *self,
            r.vertices == vertices,
    {
        VertexSubgraph::new(self, vertices)
    }

    /// The view narrowed to the layer with the name `name`, if there is one.
    fn layer_named(&self, name: &str) -> (r: Option<LayeredGraph<'_, Self>>)
        requires
            self.valid(),
        ensures
            match r {
                Some(view) => {
                    &&& view.valid()
                    &&& *view.graph == *self
                    &&& self.store().layer_index(name@) is Some
                    &&& view.layers == LayerIds::One(self.store().layer_index(name@)->0 as usize)
                },
                None => self.store().layer_index(name@) is None,
            },
    {
        match self.get_layer_id(name) {
            Some(l) => Some(LayeredGraph::new(self, LayerIds::One(l))),
            None => None,
        }
    }

    /// The vertices that the view shows.
    fn vertices(&self) -> (r: Vec<VID>)
        requires
            self.valid(),
        ensures
            r@ == view_vertices(
                self.store(),
                self.subset(),
                self.bounds(),
                self.store().vertices.len(),
            ),
    {
        let n = self.unfiltered_num_vertices();
        let w = self.window_bounds();
        let mut out: Vec<VID> = Vec::new();
        let mut i: usize = 0;
        while i < n
            invariant
                i <= n,
                n == self.store().vertices.len(),
                self.valid(),
                w == self.bounds(),
                out@ == view_vertices(self.store(), self.subset(), w, i as nat),
            decreases n - i,
        {
            if self.in_subset(VID(i)) && self.vertex_additions(VID(i)).range_in(w).len() > 0 {
                out.push(VID(i));
            }
            i += 1;
        }
        out
    }

    /// The identifiers of the vertices that the view shows.
    fn vertex_ids(&self) -> (r: Vec<u64>)
        requires
            self.valid(),
        ensures
            r@.len() == view_vertices(
                self.store(),
                self.subset(),
                self.bounds(),
                self.store().vertices.len(),
            ).len(),
            forall|i: int|
                0 <= i < r@.len() ==> r@[i] == self.store().vertices[view_vertices(
                    self.store(),
                    self.subset(),
                    self.bounds(),
                    self.store().vertices.len(),
                )[i].0 as int].gid,
    {
        let vs = self.vertices();
        let ghost all = vs@;
        let mut out: Vec<u64> = Vec::new();
        let mut i: usize = 0;
        proof {
            self.valid_core();
            lemma_view_vertices_valid(
                self.store(),
                self.subset(),
                self.bounds(),
                self.store().vertices.len(),
            );
        }
        while i < vs.len()
            invariant
                i <= vs.len(),
                self.valid(),
                all == vs@,
                forall|j: int| 0 <= j < all.len() ==> (#[trigger] all[j]).0 < self.store().vertices.len(),
                out@.len() == i,
                forall|j: int|
                    0 <= j < i ==> out@[j] == self.store().vertices[all[j].0 as int].gid,
            decreases vs.len() - i,
        {
            assert(all[i as int].0 < self.store().vertices.len());
            out.push(self.core_vertex(vs[i]).gid());
            i += 1;
        }
        out
    }

    /// The edges that the view shows.
    fn edges(&self) -> (r: Vec<EdgeRef>)
        requires
            self.valid(),
        ensures
            r@ == view_edges(
                self.store(),
                self.subset(),
                self.layers(),
                self.bounds(),
                self.store().edges.len(),
            ),
    {
        let n = self.unfiltered_num_edges();
        let w = self.window_bounds();
        let layers = self.layer_ids();
        let mut out: Vec<EdgeRef> = Vec::new();
        let mut i: usize = 0;
        while i < n
            invariant
                i <= n,
                n == self.store().edges.len(),
                self.valid(),
                w == self.bounds(),
                layers@ == self.layers(),
                out@ == view_edges(self.store(), self.subset(), layers@, w, i as nat),
            decreases n - i,
        {
            let rec = self.core_edge(EID(i));
            if self.in_subset(rec.src()) && self.in_subset(rec.dst()) && rec.included(&layers, w) {
                out.push(EdgeRef::new(EID(i), rec.src(), rec.dst()));
            }
            i += 1;
        }
        out
    }

    /// The number of vertices that the view shows.
    fn num_vertices(&self) -> (r: usize)
        requires
            self.valid(),
        ensures
            r == view_vertices(
                self.store(),
                self.subset(),
                self.bounds(),
                self.store().vertices.len(),
            ).len(),
    {
        self.vertices().len()
    }

    /// The number of edges that the view shows.
    fn num_edges(&self) -> (r: usize)
        requires
            self.valid(),
        ensures
            r == view_edges(
                self.store(),
                self.subset(),
                self.layers(),
                self.bounds(),
                self.store().edges.len(),
            ).len(),
    {
        self.edges().len()
    }

    /// Whether the view shows the vertex with the identifier `gid`.
    fn has_vertex(&self, gid: u64) -> (r: bool)
        requires
            self.valid(),
        ensures
            r == shows_vertex(self.store(), self.subset(), self.bounds(), gid),
    {
        match self.internal_vertex(gid) {
            Some(v) => self.in_subset(v) && self.vertex_additions(v).range_in(
                self.window_bounds(),
            ).len() > 0,
            None => false,
        }
    }

    /// Whether the view shows the edge between the vertices with the
    /// identifiers `src` and `dst`.
    fn has_edge(&self, src: u64, dst: u64) -> (r: bool)
        requires
            self.valid(),
        ensures
            r == shows_edge(self.store(), self.subset(), self.layers(), self.bounds(), src, dst),
    {
        let s = match self.internal_vertex(src) {
            Some(s) => s,
            None => {
                return false;
            },
        };
        let d = match self.internal_vertex(dst) {
            Some(d) => d,
            None => {
                return false;
            },
        };
        match self.internal_edge(s, d) {
            Some(e) => {
                let layers = self.layer_ids();
                let rec = self.core_edge(e);
                self.in_subset(rec.src()) && self.in_subset(rec.dst()) && rec.included(
                    &layers,
                    self.window_bounds(),
                )
            },
            None => false,
        }
    }

    /// The times of the additions of the edge `e` in its layers that the
    /// view shows, ascending.
    fn edge_history(&self, e: EdgeRef) -> (r: Vec<i64>)
        requires
            self.valid(),
            e.e_pid.0 < self.store().edges.len(),
        ensures
            r@ == timestamps(
                self.store().edges[e.e_pid.0 as int].additions_in(
                    edge_layers(e, self.layers()),
                    self.bounds(),
                ),
            ),
    {
        let layers = narrow_layers(&e, &self.layer_ids());
        self.core_edge(e.e_pid).additions_in(&layers, self.window_bounds()).iter_t()
    }

    /// The times of the additions of the edge `e` in its layers that the
    /// view shows within `[t_start, t_end)`, ascending.
    fn edge_history_window(&self, e: EdgeRef, t_start: i64, t_end: i64) -> (r: Vec<i64>)
        requires
            self.valid(),
            e.e_pid.0 < self.store().edges.len(),
        ensures
            r@ == timestamps(
                self.store().edges[e.e_pid.0 as int].additions_in(
                    edge_layers(e, self.layers()),
                    clamp(self.bounds(), t_start, t_end),
                ),
            ),
    {
        let layers = narrow_layers(&e, &self.layer_ids());
        let w = narrow(self.window_bounds(), t_start, t_end);
        self.core_edge(e.e_pid).additions_in(&layers, w).iter_t()
    }

    /// Whether the edge `e` is alive at the time `t` in the layers of the
    /// view: whether its last addition at or before `t` comes after its
    /// last deletion at or before `t`. The bounds of the view do not
    /// matter: what closes an edge may lie outside them.
    fn edge_alive_at(&self, e: EdgeRef, t: i64) -> (r: bool)
        requires
            self.valid(),
            e.e_pid.0 < self.store().edges.len(),
        ensures
            r == self.store().edges[e.e_pid.0 as int].alive_at(self.layers(), t),
    {
        let layers = self.layer_ids();
        self.core_edge(e.e_pid).alive_at(&layers, t)
    }

    /// What the view shows, as a graph of its own: a copy of the store
    /// with every history cut down to the bounds, the layers and the
    /// vertices of the view. The copy keeps every handle, and as a graph
    /// without bounds it shows what the view shows.
    fn materialize(&self) -> (r: Graph)
        requires
            self.valid(),
        ensures
            r.wf(),
            r@ == restrict_store(self.store(), self.subset(), self.layers(), self.bounds()),
            view_vertices(r@, Set::full(), None, r@.vertices.len()) == view_vertices(
                self.store(),
                self.subset(),
                self.bounds(),
                self.store().vertices.len(),
            ),
            view_edges(r@, Set::full(), Set::full(), None, r@.edges.len()) == view_edges(
                self.store(),
                self.subset(),
                self.layers(),
                self.bounds(),
                self.store().edges.len(),
            ),
    {
        let w = self.window_bounds();
        let layers = self.layer_ids();
        let ghost g = self.store();
        let ghost target = restrict_store(g, self.subset(), layers@, w);
        proof {
            self.valid_core();
            lemma_restrict_store_shows(g, self.subset(), layers@, w);
        }
        let n = self.unfiltered_num_vertices();
        let mut vertices: Vec<VertexStore> = Vec::new();
        let mut i: usize = 0;
        while i < n
            invariant
                i <= n,
                n == g.vertices.len(),
                g == self.store(),
                self.valid(),
                w == self.bounds(),
                vertices@.len() == i,
                forall|k: int|
                    0 <= k < i ==> (#[trigger] vertices@[k])@ == restrict_vertex(
                        g.vertices[k],
                        w,
                        self.subset().contains(VID(k as usize)),
                    ),
            decreases n - i,
        {
            let keep = self.in_subset(VID(i));
            vertices.push(self.core_vertex(VID(i)).restricted(w, keep));
            i += 1;
        }
        let m = self.unfiltered_num_edges();
        let mut edges: Vec<EdgeStore> = Vec::new();
        let mut j: usize = 0;
        while j < m
            invariant
                j <= m,
                m == g.edges.len(),
                g == self.store(),
                self.valid(),
                w == self.bounds(),
                layers@ == self.layers(),
                edges@.len() == j,
                forall|k: int|
                    0 <= k < j ==> (#[trigger] edges@[k])@ == restrict_edge(
                        g.edges[k],
                        w,
                        layers@,
                        self.subset().contains(g.edges[k].src) && self.subset().contains(
                            g.edges[k].dst,
                        ),
                    ),
            decreases m - j,
        {
            let rec = self.core_edge(EID(j));
            let keep = self.in_subset(rec.src()) && self.in_subset(rec.dst());
            edges.push(rec.restricted(w, &layers, keep));
            j += 1;
        }
        let names = self.layer_names();
        let props = self.graph_props().restricted(w, &LayerIds::All);
        let next_event = self.next_event_id();
        proof {
            assert(vertices@.map_values(|v: VertexStore| v@) =~= target.vertices);
            assert(edges@.map_values(|e: EdgeStore| e@) =~= target.edges);
        }
        Graph::assemble(vertices, edges, names, props, next_event)
    }

    /// The number of edges that the view shows at vertex `v`.
    fn degree(&self, v: VID) -> (r: usize)
        requires
            self.valid(),
        ensures
            r == view_degree(
                self.store(),
                self.subset(),
                self.layers(),
                self.bounds(),
                v,
                self.store().edges.len(),
            ),
    {
        let n = self.unfiltered_num_edges();
        let w = self.window_bounds();
        let layers = self.layer_ids();
        let mut out: usize = 0;
        let mut i: usize = 0;
        while i < n
            invariant
                i <= n,
                n == self.store().edges.len(),
                self.valid(),
                w == self.bounds(),
                layers@ == self.layers(),
                out == view_degree(self.store(), self.subset(), layers@, w, v, i as nat),
            decreases n - i,
        {
            proof {
                lemma_view_degree_bound(self.store(), self.subset(), layers@, w, v, i as nat);
            }
            let rec = self.core_edge(EID(i));
            if (rec.src().0 == v.0 || rec.dst().0 == v.0) && self.in_subset(rec.src())
                && self.in_subset(rec.dst()) && rec.included(&layers, w) {
                out += 1;
            }
            i += 1;
        }
        out
    }

    /// The time of the earliest activity that the view shows.
    fn earliest_time(&self) -> (r: Option<i64>)
        requires
            self.valid(),
        ensures
            r == earliest(self.store(), self.bounds()),
    {
        self.earliest_time_global()
    }

    /// The time of the latest activity that the view shows.
    fn latest_time(&self) -> (r: Option<i64>)
        requires
            self.valid(),
        ensures
            r == latest(self.store(), self.bounds()),
    {
        self.latest_time_global()
    }
}

impl<G: TimeSemantics> GraphViewOps for G {

}

/// Every vertex that a view shows is a vertex of the store, and the
/// vertices are listed in ascending order of their handles.
pub proof fn lemma_view_vertices_valid(
    g: GraphView,
    subset: Set<VID>,
    w: Option<(i64, i64)>,
    n: nat,
)
    requires
        n <= g.vertices.len(),
        n <= usize::MAX,
    ensures
        forall|j: int|
            0 <= j < view_vertices(g, subset, w, n).len() ==> (#[trigger] view_vertices(g, subset, w, n)[j]).0 < n,
        forall|i: int, j: int|
            0 <= i < j < view_vertices(g, subset, w, n).len() ==> (#[trigger] view_vertices(g, subset, w, n)[i]).0
                < (#[trigger] view_vertices(g, subset, w, n)[j]).0,
    decreases n,
{
    if n > 0 {
        lemma_view_vertices_valid(g, subset, w, (n - 1) as nat);
        let s = view_vertices(g, subset, w, n);
        let rest = view_vertices(g, subset, w, (n - 1) as nat);
        assert forall|j: int| 0 <= j < s.len() implies (#[trigger] s[j]).0 < n by {
            if j < rest.len() {
                assert(s[j] == rest[j]);
            }
        }
        assert forall|i: int, j: int| 0 <= i < j < s.len() implies (#[trigger] s[i]).0 < (
        #[trigger] s[j]).0 by {
            assert(s[i] == rest[i]);
            if j < rest.len() {
                assert(s[j] == rest[j]);
            }
        }
    }
}

/// Window and layer restriction commute: the windowed view of the layered
/// view of a graph and the layered view of its windowed view read the same
/// store within the same bounds, the same layers and the same vertices. So
/// they show the same vertices and the same edges, and the same values of
/// every temporal property of the graph, of a vertex `v` and of an edge
/// `e`, as every query is answered from these four alone.
pub proof fn lemma_window_layer_commute<G: TimeSemantics>(
    g: G,
    t_start: i64,
    t_end: i64,
    layers: LayerIds,
    name: Seq<char>,
    v: int,
    e: int,
)
    ensures
        ({
            let w = WindowedGraph { graph: &g, t_start, t_end };
            let l = LayeredGraph { graph: &g, layers };
            let wl = LayeredGraph { graph: &w, layers };
            let lw = WindowedGraph { graph: &l, t_start, t_end };
            &&& wl.valid() == lw.valid()
            &&& wl.store() == lw.store()
            &&& wl.bounds() == lw.bounds()
            &&& wl.layers() == lw.layers()
            &&& wl.subset() == lw.subset()
            &&& view_vertices(wl.store(), wl.subset(), wl.bounds(), wl.store().vertices.len())
                == view_vertices(lw.store(), lw.subset(), lw.bounds(), lw.store().vertices.len())
            &&& view_edges(
                wl.store(),
                wl.subset(),
                wl.layers(),
                wl.bounds(),
                wl.store().edges.len(),
            ) == view_edges(
                lw.store(),
                lw.subset(),
                lw.layers(),
                lw.bounds(),
                lw.store().edges.len(),
            )
            &&& history(wl.store().props.temporal, name, wl.bounds(), Set::full()) == history(
                lw.store().props.temporal,
                name,
                lw.bounds(),
                Set::full(),
            )
            &&& history(wl.store().vertices[v].props.temporal, name, wl.bounds(), Set::full())
                == history(lw.store().vertices[v].props.temporal, name, lw.bounds(), Set::full())
            &&& history(wl.store().edges[e].props.temporal, name, wl.bounds(), wl.layers())
                == history(lw.store().edges[e].props.temporal, name, lw.bounds(), lw.layers())
        }),
{
}

/// Subgraph and window restriction commute: the windowed view of a
/// subgraph and the subgraph of the windowed view read the same store
/// within the same bounds, the same layers and the same vertices, and so
/// show the same vertices and edges.
pub proof fn lemma_window_subgraph_commute<G: TimeSemantics>(
    g: G,
    t_start: i64,
    t_end: i64,
    vertices: Vec<VID>,
)
    ensures
        ({
            let w = WindowedGraph { graph: &g, t_start, t_end };
            let s = VertexSubgraph { graph: &g, vertices };
            let ws = VertexSubgraph { graph: &w, vertices };
            let sw = WindowedGraph { graph: &s, t_start, t_end };
            &&& ws.valid() == sw.valid()
            &&& ws.store() == sw.store()
            &&& ws.bounds() == sw.bounds()
            &&& ws.layers() == sw.layers()
            &&& ws.subset() == sw.subset()
            &&& view_vertices(ws.store(), ws.subset(), ws.bounds(), ws.store().vertices.len())
                == view_vertices(sw.store(), sw.subset(), sw.bounds(), sw.store().vertices.len())
            &&& view_edges(
                ws.store(),
                ws.subset(),
                ws.layers(),
                ws.bounds(),
                ws.store().edges.len(),
            ) == view_edges(
                sw.store(),
                sw.subset(),
                sw.layers(),
                sw.bounds(),
                sw.store().edges.len(),
            )
        }),
{
}

/// A stack of views over a graph store is one flat view: the window of a
/// window is the intersection of the two, in either order, and views over
/// the store read the store itself, within the window, in the layers chosen.
pub proof fn lemma_views_flatten(g: Graph, a: i64, b: i64, c: i64, d: i64, layers: LayerIds)
    ensures
        ({
            let w1 = WindowedGraph { graph: &g, t_start: a, t_end: b };
            let w2 = WindowedGraph { graph: &g, t_start: c, t_end: d };
            let w12 = WindowedGraph { graph: &w1, t_start: c, t_end: d };
            let w21 = WindowedGraph { graph: &w2, t_start: a, t_end: b };
            let lw = LayeredGraph { graph: &w12, layers };
            &&& w12.bounds() == w21.bounds()
            &&& w12.bounds() == Some(
                (
                    if a >= c {
                        a
                    } else {
                        c
                    },
                    if b <= d {
                        b
                    } else {
                        d
                    },
                ),
            )
            &&& lw.store() == g@
            &&& lw.bounds() == w12.bounds()
            &&& lw.layers() == layers@
        }),
{
    lemma_clamp_commutes(None, a, b, c, d);
    let w1 = WindowedGraph { graph: &g, t_start: a, t_end: b };
    let w12 = WindowedGraph { graph: &w1, t_start: c, t_end: d };
    let lw = LayeredGraph { graph: &w12, layers };
    assert(lw.layers() =~= layers@);
}

} // verus!
