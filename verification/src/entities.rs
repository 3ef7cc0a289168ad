//! Vertex and edge records: handles, edge references, and the per-entity
//! time indices and property tables.

use vstd::prelude::*;
use crate::layers::LayerIds;
use crate::props::{history, named_values, timed_values, Prop, PropValue, Props, PropsView};
use crate::restriction::{kept_layers, restrict_edge, restrict_layer, restrict_vertex};
use crate::time_index::{
    entry_lt, first_time, in_bounds, in_window, insert_all, insert_entry, last_time, last_upto,
    lemma_insert_all, lemma_insert_entry, lemma_restrict, restrict, sorted, timestamps, within,
    TimeIndex, TimeIndexEntry,
};

verus! {

/// Dense handle of a vertex in the store.
#[derive(Clone, Copy, Debug, PartialEq, Eq, Structural)]
pub struct VID(pub usize);

/// Dense handle of an edge in the store.
#[derive(Clone, Copy, Debug, PartialEq, Eq, Structural)]
pub struct EID(pub usize);

/// A reference to a directed edge. With `time` set it stands for one
/// occurrence of the edge; with `layer` set, for the edge in that layer.
#[derive(Clone, Copy, Debug, PartialEq, Eq)]
pub struct EdgeRef {
    pub e_pid: EID,
    pub src_pid: VID,
    pub dst_pid: VID,
    pub time: Option<TimeIndexEntry>,
    pub layer: Option<usize>,
}

impl EdgeRef {
    pub fn new(e_pid: EID, src_pid: VID, dst_pid: VID) -> (r: EdgeRef)
        ensures
            r == (EdgeRef { e_pid, src_pid, dst_pid, time: None, layer: None }),
    {
        EdgeRef { e_pid, src_pid, dst_pid, time: None, layer: None }
    }

    /// The same edge at the occurrence `time` in layer `layer`.
    pub open spec fn at(self, layer: usize, time: TimeIndexEntry) -> EdgeRef {
        EdgeRef { time: Some(time), layer: Some(layer), ..self }
    }

    /// The same edge in layer `layer`.
    pub open spec fn in_layer(self, layer: usize) -> EdgeRef {
        EdgeRef { layer: Some(layer), ..self }
    }
}

pub struct VertexView {
    /// The logical identifier.
    pub gid: u64,
    /// The times at which the vertex was active; the secondary key of each
    /// entry is zero, so that a timestamp is recorded once.
    pub additions: Seq<TimeIndexEntry>,
    pub props: PropsView,
}

impl VertexView {
    pub open spec fn wf(self) -> bool {
        &&& sorted(self.additions)
        &&& forall|i: int| 0 <= i < self.additions.len() ==> (#[trigger] self.additions[i]).1 == 0
        &&& self.props.wf()
    }

    pub open spec fn new(gid: u64) -> VertexView {
        VertexView { gid, additions: Seq::empty(), props: PropsView::empty() }
    }

    /// The vertex with activity at time `t` recorded.
    pub open spec fn touch(self, t: i64) -> VertexView {
        VertexView { additions: insert_entry(self.additions, TimeIndexEntry(t, 0)), ..self }
    }

    pub open spec fn add_props(self, t: i64, props: Seq<(Seq<char>, PropValue)>) -> VertexView {
        VertexView { props: self.props.add_temporal(t, 0, props), ..self }
    }

    pub open spec fn add_static_props(self, props: Seq<(Seq<char>, PropValue)>) -> VertexView {
        VertexView { props: self.props.add_static(props), ..self }
    }
}

pub proof fn lemma_touch(v: VertexView, t: i64)
    requires
        v.wf(),
    ensures
        v.touch(t).wf(),
        v.touch(t).touch(t) == v.touch(t),
{
    let e = TimeIndexEntry(t, 0);
    lemma_insert_entry(v.additions, e);
    let a = v.touch(t).additions;
    assert forall|i: int| 0 <= i < a.len() implies (#[trigger] a[i]).1 == 0 by {
        assert(a.contains(a[i]));
        if v.additions.contains(a[i]) {
            let k = choose|k: int| 0 <= k < v.additions.len() && v.additions[k] == a[i];
        }
    }
    assert(a.contains(e));
}

/// The record of one vertex.
#[derive(Debug)]
pub struct VertexStore {
    gid: u64,
    additions: TimeIndex,
    props: Props,
}

impl View for VertexStore {
    type V = VertexView;

    closed spec fn view(&self) -> VertexView {
        VertexView { gid: self.gid, additions: self.additions@, props: self.props@ }
    }
}

impl VertexStore {
    pub open spec fn wf(&self) -> bool {
        self@.wf()
    }

    pub fn new(gid: u64) -> (r: VertexStore)
        ensures
            r@ == VertexView::new(gid),
            r.wf(),
    {
        VertexStore { gid, additions: TimeIndex::new(), props: Props::new() }
    }

    pub fn gid(&self) -> (r: u64)
        ensures
            r == self@.gid,
    {
        self.gid
    }

    pub fn additions(&self) -> (r: &TimeIndex)
        ensures
            r@ == self@.additions,
    {
        &self.additions
    }

    pub fn props(&self) -> (r: &Props)
        ensures
            r@ == self@.props,
    {
        &self.props
    }

    /// A copy of the record with its activity and its temporal properties
    /// within `w` only; with no activity at all unless `keep` is set.
    pub fn restricted(&self, w: Option<(i64, i64)>, keep: bool) -> (r: VertexStore)
        requires
            self.wf(),
        ensures
            r@ == restrict_vertex(self@, w, keep),
    {
        let additions = if keep {
            self.additions.range_in(w).to_index()
        } else {
            TimeIndex::new()
        };
        VertexStore { gid: self.gid, additions, props: self.props.restricted(w, &LayerIds::All) }
    }

    /// Records activity at time `t`.
    pub fn touch(&mut self, t: i64)
        requires
            old(self).wf(),
        ensures
            final(self).wf(),
            final(self)@ == old(self)@.touch(t),
    {
        proof {
            lemma_touch(self@, t);
        }
        self.additions.insert(TimeIndexEntry(t, 0));
    }

    /// Adds the values `props` of temporal properties at time `t`.
    pub fn add_props(&mut self, t: i64, props: &Vec<(String, Prop)>)
        requires
            old(self).wf(),
        ensures
            final(self).wf(),
            final(self)@ == old(self)@.add_props(t, named_values(props@)),
    {
        self.props.add_all(t, 0, props);
    }

    /// Sets the static properties `props`.
    pub fn add_static_props(&mut self, props: &Vec<(String, Prop)>)
        requires
            old(self).wf(),
        ensures
            final(self).wf(),
            final(self)@ == old(self)@.add_static_props(named_values(props@)),
    {
        self.props.set_static_all(props);
    }
}

/// The history of an edge in one layer.
pub struct EdgeLayerView {
    pub additions: Seq<TimeIndexEntry>,
    pub deletions: Seq<TimeIndexEntry>,
}

impl EdgeLayerView {
    pub open spec fn empty() -> EdgeLayerView {
        EdgeLayerView { additions: Seq::empty(), deletions: Seq::empty() }
    }
}

pub struct EdgeView {
    pub src: VID,
    pub dst: VID,
    /// The history in each layer, by layer id. A layer beyond the end has
    /// no history.
    pub layers: Seq<EdgeLayerView>,
    pub props: PropsView,
}

/// The sorted union of the indices `indices[l]`, each restricted to the
/// bounds `w`, over the layers `l < n` that belong to `layers`.
pub open spec fn merge_layers(
    indices: Seq<Seq<TimeIndexEntry>>,
    layers: Set<usize>,
    w: Option<(i64, i64)>,
    n: nat,
) -> Seq<TimeIndexEntry>
    decreases n,
{
    if n == 0 {
        Seq::empty()
    } else {
        let rest = merge_layers(indices, layers, w, (n - 1) as nat);
        if layers.contains((n - 1) as usize) {
            insert_all(rest, restrict(indices[n - 1], w))
        } else {
            rest
        }
    }
}

/// One pair `(l, e)` for each entry `e` of `indices[l]` within `w`, over the
/// layers `l < n` that belong to `layers`: grouped by layer, ascending in
/// the layer id, and ascending in time within one layer.
pub open spec fn explode_layers(
    indices: Seq<Seq<TimeIndexEntry>>,
    layers: Set<usize>,
    w: Option<(i64, i64)>,
    n: nat,
) -> Seq<(usize, TimeIndexEntry)>
    decreases n,
{
    if n == 0 {
        Seq::empty()
    } else {
        let rest = explode_layers(indices, layers, w, (n - 1) as nat);
        if layers.contains((n - 1) as usize) {
            rest + restrict(indices[n - 1], w).map_values(
                |e: TimeIndexEntry| ((n - 1) as usize, e),
            )
        } else {
            rest
        }
    }
}

/// The layers `l < n` of `layers` in which `indices[l]` has an entry within
/// `w`, ascending.
pub open spec fn active_layers(
    indices: Seq<Seq<TimeIndexEntry>>,
    layers: Set<usize>,
    w: Option<(i64, i64)>,
    n: nat,
) -> Seq<usize>
    decreases n,
{
    if n == 0 {
        Seq::empty()
    } else {
        let rest = active_layers(indices, layers, w, (n - 1) as nat);
        if layers.contains((n - 1) as usize) && restrict(indices[n - 1], w).len() > 0 {
            rest.push((n - 1) as usize)
        } else {
            rest
        }
    }
}

/// The merged index is sorted and holds exactly the entries that some
/// selected layer holds within the bounds.
pub proof fn lemma_merge_layers(
    indices: Seq<Seq<TimeIndexEntry>>,
    layers: Set<usize>,
    w: Option<(i64, i64)>,
    n: nat,
)
    requires
        n <= indices.len(),
        n <= usize::MAX,
        forall|l: int| 0 <= l < indices.len() ==> sorted(#[trigger] indices[l]),
    ensures
        sorted(merge_layers(indices, layers, w, n)),
        forall|x: TimeIndexEntry| #[trigger]
            merge_layers(indices, layers, w, n).contains(x) <==> (exists|l: int|
                0 <= l < n && layers.contains(l as usize) && (#[trigger] indices[l]).contains(x)
                    && in_bounds(x.0, w)),
    decreases n,
{
    if n > 0 {
        let m = (n - 1) as nat;
        let rest = merge_layers(indices, layers, w, m);
        lemma_merge_layers(indices, layers, w, m);
        let out = merge_layers(indices, layers, w, n);
        lemma_restrict(indices[n - 1], w);
        if layers.contains((n - 1) as usize) {
            lemma_insert_all(rest, restrict(indices[n - 1], w));
        }
        assert forall|x: TimeIndexEntry| #[trigger]
            out.contains(x) <==> (exists|l: int|
                0 <= l < n && layers.contains(l as usize) && (#[trigger] indices[l]).contains(x)
                    && in_bounds(x.0, w)) by {
            if out.contains(x) {
                if rest.contains(x) {
                    let l = choose|l: int|
                        0 <= l < m && layers.contains(l as usize) && (#[trigger] indices[l]).contains(
                            x,
                        ) && in_bounds(x.0, w);
                    assert(0 <= l < n && layers.contains(l as usize) && indices[l].contains(x));
                } else {
                    assert(indices[n - 1].contains(x));
                }
            }
            if exists|l: int|
                0 <= l < n && layers.contains(l as usize) && (#[trigger] indices[l]).contains(x)
                    && in_bounds(x.0, w) {
                let l = choose|l: int|
                    0 <= l < n && layers.contains(l as usize) && (#[trigger] indices[l]).contains(x)
                        && in_bounds(x.0, w);
                if l < m {
                    assert(rest.contains(x));
                } else {
                    assert(restrict(indices[n - 1], w).contains(x));
                }
            }
        }
    }
}

impl EdgeView {
    pub open spec fn wf(self) -> bool {
        &&& self.layers.len() <= usize::MAX
        &&& forall|l: int|
            0 <= l < self.layers.len() ==> sorted((#[trigger] self.layers[l]).additions) && sorted(
                self.layers[l].deletions,
            )
        &&& self.props.wf()
    }

    pub open spec fn new(src: VID, dst: VID) -> EdgeView {
        EdgeView { src, dst, layers: Seq::empty(), props: PropsView::empty() }
    }

    /// The additions in layer `l`; none if the layer has no history.
    pub open spec fn additions(self, l: int) -> Seq<TimeIndexEntry> {
        if 0 <= l < self.layers.len() {
            self.layers[l].additions
        } else {
            Seq::empty()
        }
    }

    /// The deletions in layer `l`; none if the layer has no history.
    pub open spec fn deletions(self, l: int) -> Seq<TimeIndexEntry> {
        if 0 <= l < self.layers.len() {
            self.layers[l].deletions
        } else {
            Seq::empty()
        }
    }

    /// The addition index of each layer.
    pub open spec fn addition_indices(self) -> Seq<Seq<TimeIndexEntry>> {
        self.layers.map_values(|l: EdgeLayerView| l.additions)
    }

    /// The deletion index of each layer.
    pub open spec fn deletion_indices(self) -> Seq<Seq<TimeIndexEntry>> {
        self.layers.map_values(|l: EdgeLayerView| l.deletions)
    }

    /// The edge with empty histories appended until layer `layer` has one.
    pub open spec fn grown(self, layer: usize) -> EdgeView {
        if layer < self.layers.len() {
            self
        } else {
            EdgeView {
                layers: self.layers + Seq::new(
                    (layer + 1 - self.layers.len()) as nat,
                    |i: int| EdgeLayerView::empty(),
                ),
                ..self
            }
        }
    }

    /// The edge with the addition `e` recorded in layer `layer`.
    pub open spec fn add(self, layer: usize, e: TimeIndexEntry) -> EdgeView {
        let g = self.grown(layer);
        EdgeView {
            layers: g.layers.update(
                layer as int,
                EdgeLayerView {
                    additions: insert_entry(g.layers[layer as int].additions, e),
                    ..g.layers[layer as int]
                },
            ),
            ..g
        }
    }

    /// The edge with the deletion `e` recorded in layer `layer`.
    pub open spec fn delete(self, layer: usize, e: TimeIndexEntry) -> EdgeView {
        let g = self.grown(layer);
        EdgeView {
            layers: g.layers.update(
                layer as int,
                EdgeLayerView {
                    deletions: insert_entry(g.layers[layer as int].deletions, e),
                    ..g.layers[layer as int]
                },
            ),
            ..g
        }
    }

    pub open spec fn add_props(
        self,
        t: i64,
        layer: usize,
        props: Seq<(Seq<char>, PropValue)>,
    ) -> EdgeView {
        EdgeView { props: self.props.add_temporal(t, layer, props), ..self }
    }

    pub open spec fn add_static_props(self, props: Seq<(Seq<char>, PropValue)>) -> EdgeView {
        EdgeView { props: self.props.add_static(props), ..self }
    }

    /// Whether some layer of `layers` has an addition within the bounds `w`.
    pub open spec fn has_addition(self, layers: Set<usize>, w: Option<(i64, i64)>) -> bool {
        exists|l: int, i: int|
            0 <= l < self.layers.len() && layers.contains(l as usize) && 0 <= i
                < self.layers[l].additions.len() && in_bounds(
                (#[trigger] self.layers[l].additions[i]).0,
                w,
            )
    }

    /// Whether some layer of `layers` has a deletion before time `t`.
    pub open spec fn has_deletion_before(self, layers: Set<usize>, t: i64) -> bool {
        exists|l: int, i: int|
            0 <= l < self.layers.len() && layers.contains(l as usize) && 0 <= i
                < self.layers[l].deletions.len() && (#[trigger] self.layers[l].deletions[i]).0 < t
    }

    /// Whether the edge is closed for the bounds `w`: a deletion precedes
    /// the start of the window and no addition falls inside the window.
    /// Without a window nothing closes an edge.
    pub open spec fn closed_before(self, layers: Set<usize>, w: Option<(i64, i64)>) -> bool {
        match w {
            None => false,
            Some((start, end)) => self.has_deletion_before(layers, start) && !self.has_addition(
                layers,
                w,
            ),
        }
    }

    /// Whether the edge belongs to the view of the layers `layers` within
    /// the bounds `w`: it has an addition there, and no deletion before the
    /// window has closed it for the window.
    ///
    /// A deletion counts as closing only when it is before the start of the
    /// window. So an edge that is added and deleted at one timestamp inside
    /// the window belongs to the view, and an addition inside the window
    /// reopens an edge that was deleted before it.
    pub open spec fn included(self, layers: Set<usize>, w: Option<(i64, i64)>) -> bool {
        self.has_addition(layers, w) && !self.closed_before(layers, w)
    }

    /// Whether the edge is alive in the layers `layers` at the time `t`: it
    /// has an addition at or before `t`, and that addition comes after every
    /// deletion at or before `t`. Events of one timestamp count in the order
    /// of their secondary keys, that is, in the order in which they were
    /// recorded: an addition followed by a deletion at the same time leaves
    /// the edge closed, a deletion followed by an addition leaves it alive.
    pub open spec fn alive_at(self, layers: Set<usize>, t: i64) -> bool {
        match (
            last_upto(self.additions_in(layers, None), t),
            last_upto(self.deletions_in(layers, None), t),
        ) {
            (Some(a), Some(d)) => entry_lt(d, a),
            (Some(a), None) => true,
            (None, _) => false,
        }
    }

    /// The additions in the layers `layers` within `w`, ascending.
    pub open spec fn additions_in(self, layers: Set<usize>, w: Option<(i64, i64)>) -> Seq<
        TimeIndexEntry,
    > {
        merge_layers(self.addition_indices(), layers, w, self.layers.len())
    }

    /// The deletions in the layers `layers` within `w`, ascending.
    pub open spec fn deletions_in(self, layers: Set<usize>, w: Option<(i64, i64)>) -> Seq<
        TimeIndexEntry,
    > {
        merge_layers(self.deletion_indices(), layers, w, self.layers.len())
    }

    /// One pair of layer and entry for each addition in `layers` within `w`.
    pub open spec fn exploded(self, layers: Set<usize>, w: Option<(i64, i64)>) -> Seq<
        (usize, TimeIndexEntry),
    > {
        explode_layers(self.addition_indices(), layers, w, self.layers.len())
    }

    /// The layers of `layers` in which the edge has an addition within `w`.
    pub open spec fn layers_in(self, layers: Set<usize>, w: Option<(i64, i64)>) -> Seq<usize> {
        active_layers(self.addition_indices(), layers, w, self.layers.len())
    }
}

/// The edge is in a view exactly when a selected layer has an addition
/// within the bounds, and then the merged additions are not empty.
pub proof fn lemma_included(e: EdgeView, layers: Set<usize>, w: Option<(i64, i64)>)
    requires
        e.wf(),
    ensures
        e.included(layers, w) == e.has_addition(layers, w),
        e.has_addition(layers, w) == (e.additions_in(layers, w).len() > 0),
{
    let idx = e.addition_indices();
    let m = e.additions_in(layers, w);
    lemma_merge_layers(idx, layers, w, e.layers.len());
    if e.has_addition(layers, w) {
        let (l, i) = choose|l: int, i: int|
            0 <= l < e.layers.len() && layers.contains(l as usize) && 0 <= i
                < e.layers[l].additions.len() && in_bounds(
                (#[trigger] e.layers[l].additions[i]).0,
                w,
            );
        let x = e.layers[l].additions[i];
        assert(idx[l].contains(x));
        assert(m.contains(x));
    }
    if m.len() > 0 {
        assert(m.contains(m[0]));
        let l = choose|l: int|
            0 <= l < e.layers.len() && layers.contains(l as usize) && (#[trigger] idx[l]).contains(
                m[0],
            ) && in_bounds(m[0].0, w);
        let i = choose|i: int| 0 <= i < idx[l].len() && idx[l][i] == m[0];
        assert(in_bounds(e.layers[l].additions[i].0, w));
    }
}

/// Appending empty histories keeps the record valid.
pub proof fn lemma_grown(e: EdgeView, layer: usize)
    requires
        e.wf(),
        layer < usize::MAX,
    ensures
        e.grown(layer).wf(),
{
}

/// Recording an addition or a deletion keeps the record valid.
pub proof fn lemma_edge_add(e: EdgeView, layer: usize, x: TimeIndexEntry)
    requires
        e.wf(),
        layer < usize::MAX,
    ensures
        e.grown(layer).wf(),
        e.add(layer, x).wf(),
        e.delete(layer, x).wf(),
{
    let g = e.grown(layer);
    lemma_insert_entry(g.layers[layer as int].additions, x);
    lemma_insert_entry(g.layers[layer as int].deletions, x);
}

/// The history of an edge in one layer.
#[derive(Debug)]
pub struct EdgeLayer {
    additions: TimeIndex,
    deletions: TimeIndex,
}

impl View for EdgeLayer {
    type V = EdgeLayerView;

    closed spec fn view(&self) -> EdgeLayerView {
        EdgeLayerView { additions: self.additions@, deletions: self.deletions@ }
    }
}

impl EdgeLayer {
    pub fn new() -> (r: EdgeLayer)
        ensures
            r@ == EdgeLayerView::empty(),
    {
        EdgeLayer { additions: TimeIndex::new(), deletions: TimeIndex::new() }
    }

    pub fn additions(&self) -> (r: &TimeIndex)
        ensures
            r@ == self@.additions,
    {
        &self.additions
    }

    pub fn deletions(&self) -> (r: &TimeIndex)
        ensures
            r@ == self@.deletions,
    {
        &self.deletions
    }
}

/// The record of one edge: its endpoints, its history in each layer, and
/// its properties.
#[derive(Debug)]
pub struct EdgeStore {
    src: VID,
    dst: VID,
    layers: Vec<EdgeLayer>,
    props: Props,
}

impl View for EdgeStore {
    type V = EdgeView;

    closed spec fn view(&self) -> EdgeView {
        EdgeView {
            src: self.src,
            dst: self.dst,
            layers: self.layers@.map_values(|l: EdgeLayer| l@),
            props: self.props@,
        }
    }
}

impl EdgeStore {
    pub open spec fn wf(&self) -> bool {
        self@.wf()
    }

    pub fn new(src: VID, dst: VID) -> (r: EdgeStore)
        ensures
            r@ == EdgeView::new(src, dst),
            r.wf(),
    {
        let r = EdgeStore { src, dst, layers: Vec::new(), props: Props::new() };
        assert(r@.layers =~= Seq::empty());
        r
    }

    pub fn src(&self) -> (r: VID)
        ensures
            r == self@.src,
    {
        self.src
    }

    pub fn dst(&self) -> (r: VID)
        ensures
            r == self@.dst,
    {
        self.dst
    }

    pub fn props(&self) -> (r: &Props)
        ensures
            r@ == self@.props,
    {
        &self.props
    }

    /// The number of layers that have a history.
    pub fn num_layers(&self) -> (r: usize)
        ensures
            r == self@.layers.len(),
    {
        self.layers.len()
    }

    fn grow(&mut self, layer: usize)
        requires
            old(self).wf(),
            layer < usize::MAX,
        ensures
            final(self).wf(),
            final(self)@ == old(self)@.grown(layer),
            layer < final(self).layers.len(),
    {
        proof {
            lemma_grown(self@, layer);
        }
        let ghost start = self@.layers;
        while self.layers.len() <= layer
            invariant
                layer < usize::MAX,
                    start == old(self)@.layers,
                start.len() <= self.layers.len(),
                self.layers.len() <= layer + 1 || self.layers.len() == start.len(),
                self@.src == old(self)@.src,
                self@.dst == old(self)@.dst,
                self@.props == old(self)@.props,
                self@.layers == start + Seq::new(
                    (self.layers.len() - start.len()) as nat,
                    |i: int| EdgeLayerView::empty(),
                ),
            decreases layer + 1 - self.layers.len(),
        {
            let ghost before = self@.layers;
            self.layers.push(EdgeLayer::new());
            assert(self@.layers =~= before.push(EdgeLayerView::empty()));
            assert(self@.layers =~= start + Seq::new(
                (self.layers.len() - start.len()) as nat,
                |i: int| EdgeLayerView::empty(),
            ));
        }
        proof {
            if layer < start.len() {
                assert(self@.layers =~= start);
            }
        }
    }

    /// Records the addition `e` in layer `layer`.
    pub fn add(&mut self, layer: usize, e: TimeIndexEntry)
        requires
            old(self).wf(),
            layer < usize::MAX,
        ensures
            final(self).wf(),
            final(self)@ == old(self)@.add(layer, e),
    {
        proof {
            lemma_edge_add(self@, layer, e);
        }
        self.grow(layer);
        let ghost g = self@;
        self.layers[layer].additions.insert(e);
        assert(self@.layers =~= g.layers.update(
            layer as int,
            EdgeLayerView {
                additions: insert_entry(g.layers[layer as int].additions, e),
                ..g.layers[layer as int]
            },
        ));
    }

    /// Records the deletion `e` in layer `layer`.
    pub fn delete(&mut self, layer: usize, e: TimeIndexEntry)
        requires
            old(self).wf(),
            layer < usize::MAX,
        ensures
            final(self).wf(),
            final(self)@ == old(self)@.delete(layer, e),
    {
        proof {
            lemma_edge_add(self@, layer, e);
        }
        self.grow(layer);
        let ghost g = self@;
        self.layers[layer].deletions.insert(e);
        assert(self@.layers =~= g.layers.update(
            layer as int,
            EdgeLayerView {
                deletions: insert_entry(g.layers[layer as int].deletions, e),
                ..g.layers[layer as int]
            },
        ));
    }

    /// Adds the values `props` of temporal properties at time `t` in layer `layer`.
    pub fn add_props(&mut self, t: i64, layer: usize, props: &Vec<(String, Prop)>)
        requires
            old(self).wf(),
        ensures
            final(self).wf(),
            final(self)@ == old(self)@.add_props(t, layer, named_values(props@)),
    {
        self.props.add_all(t, layer, props);
    }

    /// Sets the static properties `props`.
    pub fn add_static_props(&mut self, props: &Vec<(String, Prop)>)
        requires
            old(self).wf(),
        ensures
            final(self).wf(),
            final(self)@ == old(self)@.add_static_props(named_values(props@)),
    {
        self.props.set_static_all(props);
    }

    /// A copy of the record with its additions, deletions and temporal
    /// properties within `w` in the layers `layers` only; with no history
    /// at all unless `keep` is set.
    pub fn restricted(&self, w: Option<(i64, i64)>, layers: &LayerIds, keep: bool) -> (r:
        EdgeStore)
        requires
            self.wf(),
        ensures
            r@ == restrict_edge(self@, w, layers@, keep),
    {
        let left = if keep {
            layers.clone()
        } else {
            LayerIds::NoLayers
        };
        assert(left@ == kept_layers(layers@, keep));
        let mut out: Vec<EdgeLayer> = Vec::new();
        let mut l: usize = 0;
        while l < self.layers.len()
            invariant
                l <= self.layers.len(),
                self.wf(),
                out@.len() == l,
                forall|k: int|
                    0 <= k < l ==> (#[trigger] out@[k])@ == restrict_layer(
                        self@.layers[k],
                        w,
                        left@.contains(k as usize),
                    ),
            decreases self.layers.len() - l,
        {
            let rec = &self.layers[l];
            assert(rec@ == self@.layers[l as int]);
            assert(sorted(self@.layers[l as int].additions));
            let layer = if left.contains(l) {
                EdgeLayer {
                    additions: rec.additions.range_in(w).to_index(),
                    deletions: rec.deletions.range_in(w).to_index(),
                }
            } else {
                EdgeLayer::new()
            };
            out.push(layer);
            l += 1;
        }
        let r = EdgeStore {
            src: self.src,
            dst: self.dst,
            layers: out,
            props: self.props.restricted(w, &left),
        };
        assert(r@.layers =~= restrict_edge(self@, w, layers@, keep).layers);
        r
    }

    /// Whether some layer of `layers` has an addition within the bounds `w`.
    pub fn has_addition(&self, layers: &LayerIds, w: Option<(i64, i64)>) -> (r: bool)
        requires
            self.wf(),
        ensures
            r == self@.has_addition(layers@, w),
    {
        let mut l: usize = 0;
        while l < self.layers.len()
            invariant
                l <= self.layers.len(),
                forall|k: int, i: int|
                    0 <= k < l && layers@.contains(k as usize) && 0 <= i
                        < self@.layers[k].additions.len() ==> !in_bounds(
                        (#[trigger] self@.layers[k].additions[i]).0,
                        w,
                    ),
            decreases self.layers.len() - l,
        {
            if layers.contains(l) {
                let idx = &self.layers[l].additions;
                assert(idx@ == self@.layers[l as int].additions);
                let hit = match w {
                    None => idx.len() > 0,
                    Some((start, end)) => idx.active(start, end),
                };
                if hit {
                    proof {
                        let i = match w {
                            None => 0,
                            Some((start, end)) => choose|i: int|
                                0 <= i < idx@.len() && in_window(#[trigger] idx@[i], start, end),
                        };
                        assert(in_bounds(self@.layers[l as int].additions[i].0, w));
                    }
                    return true;
                }
                assert forall|i: int| 0 <= i < idx@.len() implies !in_bounds(
                    (#[trigger] idx@[i]).0,
                    w,
                ) by {
                    match w {
                        None => {},
                        Some((start, end)) => {
                            assert(!in_window(idx@[i], start, end));
                        },
                    }
                }
            }
            l += 1;
        }
        false
    }

    /// Whether the edge belongs to the view of `layers` within the bounds `w`.
    pub fn included(&self, layers: &LayerIds, w: Option<(i64, i64)>) -> (r: bool)
        requires
            self.wf(),
        ensures
            r == self@.included(layers@, w),
    {
        proof {
            lemma_included(self@, layers@, w);
        }
        self.has_addition(layers, w)
    }

    fn merged(&self, layers: &LayerIds, w: Option<(i64, i64)>, deletions: bool) -> (r: TimeIndex)
        requires
            self.wf(),
        ensures
            r.wf(),
            r@ == (if deletions {
                self@.deletions_in(layers@, w)
            } else {
                self@.additions_in(layers@, w)
            }),
    {
        let ghost indices = if deletions {
            self@.deletion_indices()
        } else {
            self@.addition_indices()
        };
        let mut out = TimeIndex::new();
        let mut l: usize = 0;
        while l < self.layers.len()
            invariant
                l <= self.layers.len(),
                self.wf(),
                out.wf(),
                indices == (if deletions {
                    self@.deletion_indices()
                } else {
                    self@.addition_indices()
                }),
                out@ == merge_layers(indices, layers@, w, l as nat),
            decreases self.layers.len() - l,
        {
            if layers.contains(l) {
                let idx = if deletions {
                    &self.layers[l].deletions
                } else {
                    &self.layers[l].additions
                };
                assert(idx@ == indices[l as int]);
                assert(sorted(self@.layers[l as int].additions));
                let part = idx.range_in(w);
                out.merge(&part);
            }
            l += 1;
        }
        out
    }

    /// The additions in the layers `layers` within `w`, as one index.
    pub fn additions_in(&self, layers: &LayerIds, w: Option<(i64, i64)>) -> (r: TimeIndex)
        requires
            self.wf(),
        ensures
            r.wf(),
            r@ == self@.additions_in(layers@, w),
    {
        self.merged(layers, w, false)
    }

    /// The deletions in the layers `layers` within `w`, as one index.
    pub fn deletions_in(&self, layers: &LayerIds, w: Option<(i64, i64)>) -> (r: TimeIndex)
        requires
            self.wf(),
        ensures
            r.wf(),
            r@ == self@.deletions_in(layers@, w),
    {
        self.merged(layers, w, true)
    }

    /// Whether the edge is alive in the layers `layers` at the time `t`.
    pub fn alive_at(&self, layers: &LayerIds, t: i64) -> (r: bool)
        requires
            self.wf(),
        ensures
            r == self@.alive_at(layers@, t),
    {
        let last_addition = self.additions_in(layers, None).last_at(t);
        let last_deletion = self.deletions_in(layers, None).last_at(t);
        match (last_addition, last_deletion) {
            (Some(a), Some(d)) => d.before(&a),
            (Some(_), None) => true,
            (None, _) => false,
        }
    }

    /// One pair of layer and entry for each addition in `layers` within `w`.
    pub fn exploded(&self, layers: &LayerIds, w: Option<(i64, i64)>) -> (r: Vec<
        (usize, TimeIndexEntry),
    >)
        requires
            self.wf(),
        ensures
            r@ == self@.exploded(layers@, w),
    {
        let ghost indices = self@.addition_indices();
        let mut out: Vec<(usize, TimeIndexEntry)> = Vec::new();
        let mut l: usize = 0;
        while l < self.layers.len()
            invariant
                l <= self.layers.len(),
                self.wf(),
                indices == self@.addition_indices(),
                out@ == explode_layers(indices, layers@, w, l as nat),
            decreases self.layers.len() - l,
        {
            if layers.contains(l) {
                let idx = &self.layers[l].additions;
                assert(idx@ == indices[l as int]);
                assert(sorted(self@.layers[l as int].additions));
                let part = idx.range_in(w);
                let ghost base = out@;
                let mut j: usize = 0;
                while j < part.len()
                    invariant
                        j <= part@.len(),
                        part.wf(),
                        out@ == base + part@.take(j as int).map_values(
                            |e: TimeIndexEntry| (l, e),
                        ),
                    decreases part@.len() - j,
                {
                    let e = part.get(j).unwrap();
                    let ghost before = out@;
                    out.push((l, e));
                    proof {
                        assert(part@.take(j as int + 1) == part@.take(j as int).push(e));
                        assert(out@ =~= base + part@.take(j as int + 1).map_values(
                            |e: TimeIndexEntry| (l, e),
                        ));
                    }
                    j += 1;
                }
                proof {
                    assert(part@.take(j as int) == part@);
                }
            }
            l += 1;
        }
        out
    }

    /// The layers of `layers` in which the edge has an addition within `w`.
    pub fn layers_in(&self, layers: &LayerIds, w: Option<(i64, i64)>) -> (r: Vec<usize>)
        requires
            self.wf(),
        ensures
            r@ == self@.layers_in(layers@, w),
    {
        let ghost indices = self@.addition_indices();
        let mut out: Vec<usize> = Vec::new();
        let mut l: usize = 0;
        while l < self.layers.len()
            invariant
                l <= self.layers.len(),
                self.wf(),
                indices == self@.addition_indices(),
                out@ == active_layers(indices, layers@, w, l as nat),
            decreases self.layers.len() - l,
        {
            if layers.contains(l) {
                let idx = &self.layers[l].additions;
                assert(idx@ == indices[l as int]);
                assert(sorted(self@.layers[l as int].additions));
                let part = idx.range_in(w);
                if part.len() > 0 {
                    out.push(l);
                }
            }
            l += 1;
        }
        out
    }
}

/// The layers of `layers` that the reference `e` stands for: all of them,
/// or the one layer that `e` names.
pub open spec fn edge_layers(e: EdgeRef, layers: Set<usize>) -> Set<usize> {
    match e.layer {
        Some(l) => layers.intersect(set![l]),
        None => layers,
    }
}

/// The occurrences of the edge: one reference for each addition in the
/// layers of `e` within `w`, grouped by layer. A reference that stands for
/// one occurrence already yields itself, if its time is within `w`.
pub open spec fn exploded_refs(rec: EdgeView, e: EdgeRef, layers: Set<usize>, w: Option<(i64, i64)>) -> Seq<
    EdgeRef,
> {
    match e.time {
        Some(t) => if in_bounds(t.0, w) {
            seq![e]
        } else {
            Seq::empty()
        },
        None => rec.exploded(edge_layers(e, layers), w).map_values(
            |p: (usize, TimeIndexEntry)| e.at(p.0, p.1),
        ),
    }
}

/// One reference for each layer of `e` in which the edge has an addition
/// within `w`.
pub open spec fn layer_refs(rec: EdgeView, e: EdgeRef, layers: Set<usize>, w: Option<(i64, i64)>) -> Seq<
    EdgeRef,
> {
    rec.layers_in(edge_layers(e, layers), w).map_values(|l: usize| e.in_layer(l))
}

/// The time of the earliest addition in the layers of `e` within `w`; for
/// a reference to one occurrence, the time of that occurrence.
pub open spec fn edge_earliest(rec: EdgeView, e: EdgeRef, layers: Set<usize>, w: Option<(i64, i64)>) -> Option<
    i64,
> {
    match e.time {
        Some(t) => if in_bounds(t.0, w) {
            Some(t.0)
        } else {
            None
        },
        None => first_time(rec.additions_in(edge_layers(e, layers), w)),
    }
}

/// The time of the latest addition in the layers of `e` within `w`; for a
/// reference to one occurrence, the time of that occurrence.
pub open spec fn edge_latest(rec: EdgeView, e: EdgeRef, layers: Set<usize>, w: Option<(i64, i64)>) -> Option<
    i64,
> {
    match e.time {
        Some(t) => if in_bounds(t.0, w) {
            Some(t.0)
        } else {
            None
        },
        None => last_time(rec.additions_in(edge_layers(e, layers), w)),
    }
}

/// The times of the deletions in the layers of `e` within `w`, ascending.
pub open spec fn edge_deletion_times(
    rec: EdgeView,
    e: EdgeRef,
    layers: Set<usize>,
    w: Option<(i64, i64)>,
) -> Seq<i64> {
    timestamps(rec.deletions_in(edge_layers(e, layers), w))
}

/// The values of the temporal property `name` in the layers of `e` within `w`.
pub open spec fn edge_history(
    rec: EdgeView,
    e: EdgeRef,
    name: Seq<char>,
    layers: Set<usize>,
    w: Option<(i64, i64)>,
) -> Seq<(i64, PropValue)> {
    history(rec.props.temporal, name, w, edge_layers(e, layers))
}

/// The layers of `layers` that the reference `e` stands for.
pub fn narrow_layers(e: &EdgeRef, layers: &LayerIds) -> (r: LayerIds)
    ensures
        r@ == edge_layers(*e, layers@),
{
    match e.layer {
        Some(l) => layers.constrain(&LayerIds::One(l)),
        None => layers.clone(),
    }
}

impl EdgeStore {
    /// The occurrences of the edge `e` in `layers` within `w`.
    pub fn exploded_refs(&self, e: EdgeRef, layers: &LayerIds, w: Option<(i64, i64)>) -> (r: Vec<
        EdgeRef,
    >)
        requires
            self.wf(),
        ensures
            r@ == exploded_refs(self@, e, layers@, w),
    {
        let mut out: Vec<EdgeRef> = Vec::new();
        match e.time {
            Some(t) => {
                if within(t.0, w) {
                    out.push(e);
                    assert(out@ =~= seq![e]);
                }
            },
            None => {
                let sel = narrow_layers(&e, layers);
                let pairs = self.exploded(&sel, w);
                let mut i: usize = 0;
                while i < pairs.len()
                    invariant
                        i <= pairs.len(),
                        out@ == pairs@.take(i as int).map_values(
                            |p: (usize, TimeIndexEntry)| e.at(p.0, p.1),
                        ),
                    decreases pairs.len() - i,
                {
                    let p = pairs[i];
                    out.push(
                        EdgeRef {
                            e_pid: e.e_pid,
                            src_pid: e.src_pid,
                            dst_pid: e.dst_pid,
                            time: Some(p.1),
                            layer: Some(p.0),
                        },
                    );
                    proof {
                        assert(pairs@.take(i as int + 1) == pairs@.take(i as int).push(p));
                        assert(out@ =~= pairs@.take(i as int + 1).map_values(
                            |p: (usize, TimeIndexEntry)| e.at(p.0, p.1),
                        ));
                    }
                    i += 1;
                }
                proof {
                    assert(pairs@.take(i as int) == pairs@);
                }
            },
        }
        out
    }

    /// One reference to the edge `e` for each layer of `layers` in which it
    /// has an addition within `w`.
    pub fn layer_refs(&self, e: EdgeRef, layers: &LayerIds, w: Option<(i64, i64)>) -> (r: Vec<
        EdgeRef,
    >)
        requires
            self.wf(),
        ensures
            r@ == layer_refs(self@, e, layers@, w),
    {
        let sel = narrow_layers(&e, layers);
        let ids = self.layers_in(&sel, w);
        let mut out: Vec<EdgeRef> = Vec::new();
        let mut i: usize = 0;
        while i < ids.len()
            invariant
                i <= ids.len(),
                out@ == ids@.take(i as int).map_values(|l: usize| e.in_layer(l)),
            decreases ids.len() - i,
        {
            let l = ids[i];
            out.push(
                EdgeRef {
                    e_pid: e.e_pid,
                    src_pid: e.src_pid,
                    dst_pid: e.dst_pid,
                    time: e.time,
                    layer: Some(l),
                },
            );
            proof {
                assert(ids@.take(i as int + 1) == ids@.take(i as int).push(l));
                assert(out@ =~= ids@.take(i as int + 1).map_values(|l: usize| e.in_layer(l)));
            }
            i += 1;
        }
        proof {
            assert(ids@.take(i as int) == ids@);
        }
        out
    }

    /// The time of the earliest addition of the edge `e` in `layers` within `w`.
    pub fn earliest_time(&self, e: EdgeRef, layers: &LayerIds, w: Option<(i64, i64)>) -> (r: Option<
        i64,
    >)
        requires
            self.wf(),
        ensures
            r == edge_earliest(self@, e, layers@, w),
    {
        match e.time {
            Some(t) => if within(t.0, w) {
                Some(t.0)
            } else {
                None
            },
            None => {
                let sel = narrow_layers(&e, layers);
                self.additions_in(&sel, w).first_t()
            },
        }
    }

    /// The time of the latest addition of the edge `e` in `layers` within `w`.
    pub fn latest_time(&self, e: EdgeRef, layers: &LayerIds, w: Option<(i64, i64)>) -> (r: Option<
        i64,
    >)
        requires
            self.wf(),
        ensures
            r == edge_latest(self@, e, layers@, w),
    {
        match e.time {
            Some(t) => if within(t.0, w) {
                Some(t.0)
            } else {
                None
            },
            None => {
                let sel = narrow_layers(&e, layers);
                self.additions_in(&sel, w).last_t()
            },
        }
    }

    /// The times of the deletions of the edge `e` in `layers` within `w`.
    pub fn deletion_times(&self, e: EdgeRef, layers: &LayerIds, w: Option<(i64, i64)>) -> (r: Vec<
        i64,
    >)
        requires
            self.wf(),
        ensures
            r@ == edge_deletion_times(self@, e, layers@, w),
    {
        let sel = narrow_layers(&e, layers);
        self.deletions_in(&sel, w).iter_t()
    }

    /// The values of the temporal property `name` of the edge `e` in
    /// `layers` within `w`, each with its time.
    pub fn prop_history(
        &self,
        e: EdgeRef,
        name: &str,
        layers: &LayerIds,
        w: Option<(i64, i64)>,
    ) -> (r: Vec<(i64, Prop)>)
        ensures
            timed_values(r@) == edge_history(self@, e, name@, layers@, w),
    {
        let sel = narrow_layers(&e, layers);
        let owned = name.to_owned();
        self.props.temporal_vec(&owned, w, &sel)
    }
}

} // verus!
