//! Growth of a graph by preferential attachment: each new vertex joins
//! vertices that are there, chosen with a chance in proportion to their
//! degree, without replacement.

use vstd::prelude::*;
use rand::rngs::ThreadRng;
use crate::core_ops::CoreGraphOps;
use crate::entities::{lemma_edge_add, lemma_included, lemma_touch, EdgeView, VertexView, VID};
use crate::graph::{
    lemma_add_edge, lemma_add_vertex, lemma_resolve_edge, lemma_touch_wf, lemma_vertex_index,
    Graph, GraphView,
};
use crate::graph_view_ops::{view_degree, view_edges, GraphViewOps};
use crate::mutation::AdditionOps;
use crate::props::{named_values, Prop, PropValue};
use crate::time_index::{
    first_time, in_bounds, lemma_insert_entry, lemma_insert_keeps_first, TimeIndexEntry,
};
use crate::time_semantics::{latest, lemma_earliest_latest, vertex_included, TimeSemantics};

verus! {

/// The generator of the current thread, `rand::rngs::ThreadRng`. Nothing is
/// known of its state.
#[verifier::external_type_specification]
#[verifier::external_body]
pub struct ExThreadRng(rand::rngs::ThreadRng);

/// `rand::thread_rng`: a handle to the generator of the current thread.
/// Nothing is claimed of it.
#[verifier::external_body]
fn thread_rng() -> (r: ThreadRng) {
    rand::thread_rng()
}

/// `rand::Rng::gen_range` on the inclusive range `low..=high`. It panics
/// on an empty range, so `low <= high` is required; whatever number the
/// generator picks lies in the range.
#[verifier::external_body]
fn gen_range_inclusive(rng: &mut ThreadRng, low: usize, high: usize) -> (r: usize)
    requires
        low <= high,
    ensures
        low <= r <= high,
{
    rand::Rng::gen_range(rng, low..=high)
}

/// The sum of the first `n` weights that are not skipped.
pub open spec fn weight(degrees: Seq<usize>, skipped: Seq<bool>, n: int) -> int
    decreases n,
{
    if n <= 0 {
        0
    } else {
        weight(degrees, skipped, n - 1) + if skipped[n - 1] {
            0int
        } else {
            degrees[n - 1] as int
        }
    }
}

/// The sum of all weights.
pub open spec fn total(degrees: Seq<usize>) -> int {
    weight(degrees, Seq::new(degrees.len(), |i: int| false), degrees.len() as int)
}

/// The number of positions among the first `n` that are skipped.
pub open spec fn count_skipped(skipped: Seq<bool>, n: int) -> int
    decreases n,
{
    if n <= 0 {
        0
    } else {
        count_skipped(skipped, n - 1) + if skipped[n - 1] {
            1int
        } else {
            0int
        }
    }
}

pub open spec fn all_positive(degrees: Seq<usize>) -> bool {
    forall|i: int| 0 <= i < degrees.len() ==> #[trigger] degrees[i] >= 1
}

/// The weight only grows with `n`, and stays within the weight of all positions.
pub proof fn lemma_weight_monotone(degrees: Seq<usize>, skipped: Seq<bool>, i: int, n: int)
    requires
        0 <= i <= n,
    ensures
        0 <= weight(degrees, skipped, i) <= weight(degrees, skipped, n),
    decreases n,
{
    if i < n {
        lemma_weight_monotone(degrees, skipped, i, n - 1);
    } else if n > 0 {
        lemma_weight_monotone(degrees, skipped, i - 1, n - 1);
    }
}

/// The weight depends on the first `n` positions only.
pub proof fn lemma_weight_prefix(
    d1: Seq<usize>,
    s1: Seq<bool>,
    d2: Seq<usize>,
    s2: Seq<bool>,
    n: int,
)
    requires
        n <= d1.len(),
        n <= d2.len(),
        n <= s1.len(),
        n <= s2.len(),
        forall|i: int| 0 <= i < n ==> d1[i] == d2[i] && s1[i] == s2[i],
    ensures
        weight(d1, s1, n) == weight(d2, s2, n),
        count_skipped(s1, n) == count_skipped(s2, n),
    decreases n,
{
    if n > 0 {
        lemma_weight_prefix(d1, s1, d2, s2, n - 1);
    }
}

/// Skipping position `pos` takes its weight out of every sum that reaches it.
pub proof fn lemma_weight_skip(degrees: Seq<usize>, skipped: Seq<bool>, pos: int, n: int)
    requires
        0 <= pos < skipped.len(),
        skipped.len() == degrees.len(),
        !skipped[pos],
        0 <= n <= degrees.len(),
    ensures
        weight(degrees, skipped.update(pos, true), n) == weight(degrees, skipped, n) - if pos < n {
            degrees[pos] as int
        } else {
            0int
        },
        count_skipped(skipped.update(pos, true), n) == count_skipped(skipped, n) + if pos < n {
            1int
        } else {
            0int
        },
    decreases n,
{
    if n > 0 {
        lemma_weight_skip(degrees, skipped, pos, n - 1);
    }
}

/// Raising the weight at `pos` by one raises every sum that reaches it by
/// one, unless the position is skipped.
pub proof fn lemma_weight_raise(degrees: Seq<usize>, skipped: Seq<bool>, pos: int, n: int)
    requires
        0 <= pos < degrees.len(),
        skipped.len() == degrees.len(),
        degrees[pos] < usize::MAX,
        0 <= n <= degrees.len(),
    ensures
        weight(degrees.update(pos, (degrees[pos] + 1) as usize), skipped, n) == weight(
            degrees,
            skipped,
            n,
        ) + if pos < n && !skipped[pos] {
            1int
        } else {
            0int
        },
    decreases n,
{
    if n > 0 {
        lemma_weight_raise(degrees, skipped, pos, n - 1);
    }
}

/// Where every weight is positive, the weight left is at least the number
/// of positions left.
pub proof fn lemma_weight_positive(degrees: Seq<usize>, skipped: Seq<bool>, n: int)
    requires
        all_positive(degrees),
        skipped.len() == degrees.len(),
        0 <= n <= degrees.len(),
    ensures
        weight(degrees, skipped, n) >= n - count_skipped(skipped, n),
        0 <= count_skipped(skipped, n) <= n,
    decreases n,
{
    if n > 0 {
        lemma_weight_positive(degrees, skipped, n - 1);
    }
}

/// The total of a sequence with one more weight.
pub proof fn lemma_total_push(degrees: Seq<usize>, x: usize)
    ensures
        total(degrees.push(x)) == total(degrees) + x,
        total(Seq::<usize>::empty()) == 0,
{
    let d2 = degrees.push(x);
    let s1 = Seq::new(degrees.len(), |i: int| false);
    let s2 = Seq::new(d2.len(), |i: int| false);
    lemma_weight_prefix(degrees, s1, d2, s2, degrees.len() as int);
}

/// The total of a sequence with one weight raised by one.
pub proof fn lemma_total_raise(degrees: Seq<usize>, pos: int)
    requires
        0 <= pos < degrees.len(),
        degrees[pos] < usize::MAX,
    ensures
        total(degrees.update(pos, (degrees[pos] + 1) as usize)) == total(degrees) + 1,
{
    let s = Seq::new(degrees.len(), |i: int| false);
    lemma_weight_raise(degrees, s, pos, degrees.len() as int);
    assert(Seq::new(degrees.update(pos, (degrees[pos] + 1) as usize).len(), |i: int| false) =~= s);
}

/// The position that the number `rand_num` selects: the first position,
/// not skipped, at which the running sum of the weights reaches `rand_num`.
pub fn pick_position(degrees: &Vec<usize>, skipped: &Vec<bool>, rand_num: usize) -> (pos: usize)
    requires
        degrees.len() == skipped.len(),
        1 <= rand_num <= weight(degrees@, skipped@, degrees.len() as int),
    ensures
        pos < degrees.len(),
        !skipped[pos as int],
        degrees[pos as int] >= 1,
        weight(degrees@, skipped@, pos as int) < rand_num <= weight(
            degrees@,
            skipped@,
            pos as int + 1,
        ),
{
    let mut sum: usize = 0;
    let mut pos: usize = 0;
    loop
        invariant
            degrees.len() == skipped.len(),
            pos <= degrees.len(),
            sum == weight(degrees@, skipped@, pos as int),
            sum < rand_num <= weight(degrees@, skipped@, degrees.len() as int),
        decreases degrees.len() - pos,
    {
        proof {
            assert(pos < degrees.len());
            lemma_weight_monotone(degrees@, skipped@, pos as int + 1, degrees.len() as int);
        }
        if !skipped[pos] {
            if degrees[pos] >= rand_num - sum {
                return pos;
            }
            sum += degrees[pos];
        }
        pos += 1;
    }
}

pub open spec fn distinct(s: Seq<usize>) -> bool {
    forall|i: int, j: int| 0 <= i < j < s.len() ==> s[i] != s[j]
}

/// Chooses up to `edges_per_step` positions without replacement, each with
/// a chance in proportion to its weight among those left. Choosing stops
/// early when no position of positive weight is left.
///
/// Whatever the generator returns, the positions are distinct and of
/// positive weight; and where every weight is positive and there are at
/// least `edges_per_step` positions, exactly `edges_per_step` are chosen.
pub fn choose_targets(
    rng: &mut ThreadRng,
    degrees: &Vec<usize>,
    edge_count: usize,
    edges_per_step: usize,
) -> (chosen: Vec<usize>)
    requires
        edge_count == total(degrees@),
    ensures
        chosen@.len() <= edges_per_step,
        chosen@.len() <= degrees@.len(),
        distinct(chosen@),
        forall|i: int|
            0 <= i < chosen@.len() ==> chosen@[i] < degrees@.len() && degrees@[chosen@[i] as int]
                >= 1,
        all_positive(degrees@) && edges_per_step <= degrees@.len() ==> chosen@.len()
            == edges_per_step,
{
    let n = degrees.len();
    let mut skipped: Vec<bool> = Vec::new();
    let mut i: usize = 0;
    while i < n
        invariant
            i <= n,
            skipped@.len() == i,
            forall|j: int| 0 <= j < i ==> !skipped@[j],
        decreases n - i,
    {
        skipped.push(false);
        i += 1;
    }
    assert(skipped@ =~= Seq::new(degrees@.len(), |i: int| false));
    let mut normalisation: usize = edge_count;
    let mut chosen: Vec<usize> = Vec::new();
    let mut round: usize = 0;
    proof {
        if all_positive(degrees@) {
            lemma_weight_positive(degrees@, skipped@, n as int);
        }
        lemma_count_none(skipped@, n as int);
    }
    while round < edges_per_step
        invariant
            n == degrees@.len(),
            skipped@.len() == n,
            round <= edges_per_step,
            normalisation == weight(degrees@, skipped@, n as int),
            chosen@.len() <= round,
            chosen@.len() == count_skipped(skipped@, n as int),
            chosen@.len() <= n,
            distinct(chosen@),
            forall|i: int|
                0 <= i < chosen@.len() ==> chosen@[i] < n && skipped@[chosen@[i] as int]
                    && degrees@[chosen@[i] as int] >= 1,
            all_positive(degrees@) && edges_per_step <= n ==> chosen@.len() == round,
        decreases edges_per_step - round,
    {
        proof {
            if all_positive(degrees@) {
                lemma_weight_positive(degrees@, skipped@, n as int);
            }
            lemma_count_bound(skipped@, n as int);
        }
        if normalisation >= 1 {
            let rand_num = gen_range_inclusive(rng, 1, normalisation);
            let pos = pick_position(degrees, &skipped, rand_num);
            proof {
                lemma_weight_monotone(degrees@, skipped@, pos as int, pos as int + 1);
                lemma_weight_monotone(degrees@, skipped@, pos as int + 1, n as int);
                lemma_weight_skip(degrees@, skipped@, pos as int, n as int);
                lemma_count_bound(skipped@.update(pos as int, true), n as int);
            }
            skipped.set(pos, true);
            normalisation -= degrees[pos];
            chosen.push(pos);
        }
        round += 1;
    }
    chosen
}

pub proof fn lemma_count_none(skipped: Seq<bool>, n: int)
    requires
        0 <= n <= skipped.len(),
        forall|j: int| 0 <= j < skipped.len() ==> !skipped[j],
    ensures
        count_skipped(skipped, n) == 0,
    decreases n,
{
    if n > 0 {
        lemma_count_none(skipped, n - 1);
    }
}

pub proof fn lemma_count_bound(skipped: Seq<bool>, n: int)
    requires
        0 <= n <= skipped.len(),
    ensures
        0 <= count_skipped(skipped, n) <= n,
    decreases n,
{
    if n > 0 {
        lemma_count_bound(skipped, n - 1);
    }
}

/// The greatest identifier among the first `n` vertices; zero if there is none.
pub open spec fn max_gid(vs: Seq<VertexView>, n: nat) -> u64
    decreases n,
{
    if n == 0 {
        0
    } else {
        let m = max_gid(vs, (n - 1) as nat);
        if vs[n - 1].gid > m {
            vs[n - 1].gid
        } else {
            m
        }
    }
}

pub proof fn lemma_max_gid(vs: Seq<VertexView>, n: nat)
    requires
        n <= vs.len(),
    ensures
        forall|i: int| 0 <= i < n ==> (#[trigger] vs[i]).gid <= max_gid(vs, n),
    decreases n,
{
    if n > 0 {
        lemma_max_gid(vs, (n - 1) as nat);
    }
}

/// No properties.
pub open spec fn no_props() -> Seq<(Seq<char>, PropValue)> {
    Seq::empty()
}

/// Whether the graph itself shows the record: it has an addition.
pub open spec fn shown_vertex(v: VertexView) -> bool {
    vertex_included(v, None)
}

pub open spec fn shown_edge(e: EdgeView) -> bool {
    e.included(Set::full(), None)
}

/// `h` shows every vertex and edge of `g` that `g` shows.
pub open spec fn keeps_shown(h: GraphView, g: GraphView) -> bool {
    &&& forall|i: int|
        0 <= i < g.vertices.len() && shown_vertex(g.vertices[i]) ==> shown_vertex(
            #[trigger] h.vertices[i],
        )
    &&& forall|i: int|
        0 <= i < g.edges.len() && shown_edge(g.edges[i]) ==> shown_edge(#[trigger] h.edges[i])
}

/// The time of the first activity of the vertex.
pub open spec fn born(v: VertexView) -> Option<i64> {
    first_time(v.additions)
}

/// Every vertex of `g` that was active at or before `t` has in `h` the
/// first activity that it had in `g`.
pub open spec fn keeps_born(h: GraphView, g: GraphView, t: i64) -> bool {
    forall|i: int|
        0 <= i < g.vertices.len() && born(g.vertices[i]) is Some && born(g.vertices[i])->0 <= t
            ==> born(#[trigger] h.vertices[i]) == born(g.vertices[i])
}

/// Recording activity at a time that is not before the first activity
/// keeps the first activity.
pub proof fn lemma_touch_born(v: VertexView, t: i64)
    requires
        v.wf(),
    ensures
        born(v) is Some && born(v)->0 <= t ==> born(v.touch(t)) == born(v),
        born(v) is None ==> born(v.touch(t)) == Some(t),
{
    let e = TimeIndexEntry(t, 0);
    lemma_insert_entry(v.additions, e);
    if v.additions.len() > 0 {
        if v.additions[0].0 <= t {
            assert(v.additions[0].1 == 0);
            lemma_insert_keeps_first(v.additions, e);
        }
    } else {
        assert(v.touch(t).additions.contains(e));
    }
}

/// Adding a vertex under an identifier that the store has not seen appends
/// one record, which the graph shows, and changes nothing else.
pub proof fn lemma_add_new_vertex(g: GraphView, t: i64, gid: u64)
    requires
        g.wf(),
        g.vertices.len() < usize::MAX,
        forall|i: int| 0 <= i < g.vertices.len() ==> (#[trigger] g.vertices[i]).gid != gid,
    ensures
        ({
            let h = g.add_vertex(t, gid, no_props());
            let n = g.vertices.len() as int;
            &&& h.wf()
            &&& h.extends(g)
            &&& h.vertices.len() == n + 1
            &&& h.vertices[n].gid == gid
            &&& shown_vertex(h.vertices[n])
            &&& born(h.vertices[n]) == Some(t)
            &&& forall|i: int| 0 <= i < n ==> #[trigger] h.vertices[i] == g.vertices[i]
            &&& h.edges == g.edges
            &&& h.layer_names == g.layer_names
            &&& h.props == g.props
            &&& h.next_event == g.next_event
        }),
{
    let n = g.vertices.len() as int;
    assert(g.vertex_index(gid) is None);
    lemma_add_vertex(g, t, gid, no_props());
    lemma_insert_entry(Seq::<TimeIndexEntry>::empty(), TimeIndexEntry(t, 0));
    assert(VertexView::new(gid).wf());
    lemma_touch_born(VertexView::new(gid), t);
}

/// Recording activity keeps a shown vertex shown.
pub proof fn lemma_touch_shown(v: VertexView, t: i64)
    requires
        v.wf(),
    ensures
        shown_vertex(v.touch(t)),
{
    lemma_insert_entry(v.additions, TimeIndexEntry(t, 0));
    let a = v.touch(t).additions;
    assert(a.contains(TimeIndexEntry(t, 0)));
}

/// An addition keeps a shown edge shown, and shows the edge that it is made to.
pub proof fn lemma_add_shown(e: EdgeView, layer: usize, x: TimeIndexEntry)
    requires
        e.wf(),
        layer < usize::MAX,
    ensures
        shown_edge(e.add(layer, x)),
{
    let g = e.grown(layer);
    let h = e.add(layer, x);
    lemma_insert_entry(g.layers[layer as int].additions, x);
    lemma_edge_add(e, layer, x);
    let a = h.layers[layer as int].additions;
    assert(a.contains(x));
    let i = choose|i: int| 0 <= i < a.len() && a[i] == x;
    assert(in_bounds(h.layers[layer as int].additions[i].0, None));
    assert(h.has_addition(Set::full(), None));
    lemma_included(h, Set::full(), None);
}

/// Adding an edge between two vertices of the store changes no vertex
/// handle, keeps every edge record in place, and appends one record, which
/// the graph shows, exactly when no edge joined the two vertices.
pub proof fn lemma_add_edge_between(g: GraphView, t: i64, s: int, d: int)
    requires
        g.wf(),
        0 <= s < g.vertices.len(),
        0 <= d < g.vertices.len(),
    ensures
        ({
            let h = g.add_edge(t, g.vertices[s].gid, g.vertices[d].gid, no_props(), None);
            let m = g.edges.len() as int;
            &&& h.wf()
            &&& h.extends(g)
            &&& keeps_shown(h, g)
            &&& keeps_born(h, g, t)
            &&& h.vertices.len() == g.vertices.len()
            &&& h.layer_names == g.layer_names
            &&& h.props == g.props
            &&& shown_vertex(h.vertices[s])
            &&& shown_vertex(h.vertices[d])
            &&& match g.edge_index(VID(s as usize), VID(d as usize)) {
                Some(e) => h.edges.len() == m && shown_edge(h.edges[e]),
                None => {
                    &&& h.edges.len() == m + 1
                    &&& h.edges[m].src == VID(s as usize)
                    &&& h.edges[m].dst == VID(d as usize)
                    &&& shown_edge(h.edges[m])
                },
            }
        }),
{
    let src = g.vertices[s].gid;
    let dst = g.vertices[d].gid;
    let h = g.add_edge(t, src, dst, no_props(), None);
    lemma_vertex_index(g, src, s);
    lemma_vertex_index(g, dst, d);
    let sv = VID(s as usize);
    let dv = VID(d as usize);
    let (g4, e) = g.resolve_edge(sv, dv);
    lemma_resolve_edge(g, sv, dv);
    assert(g.resolve_vertex(src) == (g, s));
    assert(g.resolve_vertex(dst) == (g, d));
    assert(g.resolve_layer(None) == (g, 0int));
    assert(h.vertices.len() == g.vertices.len());
    assert(h.layer_names == g.layer_names);
    lemma_add_edge(g, t, src, dst, no_props(), None);
    lemma_touch_wf(g4, s, t);
    let g5a = g4.touch(s, t);
    lemma_touch_wf(g5a, d, t);
    let g5 = g5a.touch(d, t);
    assert(g4.vertices[s].wf());
    assert(g5a.vertices[d].wf());
    lemma_touch_shown(g4.vertices[s], t);
    lemma_touch_shown(g5a.vertices[d], t);
    if s != d {
        lemma_touch_shown(g5.vertices[s], t);
    }
    let x = TimeIndexEntry(t, g5.next_event);
    let r0 = g5.edges[e];
    assert(r0.wf());
    assert(r0.layers.len() <= g5.layer_names.len());
    lemma_add_shown(r0, 0, x);
    assert(h.edges[e].layers == r0.add(0, x).layers);
    assert(shown_edge(h.edges[e])) by {
        let a = r0.add(0, x);
        let b = h.edges[e];
        assert(a.has_addition(Set::full(), None) == b.has_addition(Set::full(), None));
        lemma_included(a, Set::full(), None);
        assert(b.wf());
        lemma_included(b, Set::full(), None);
    }
    assert forall|i: int|
        0 <= i < g.vertices.len() && shown_vertex(g.vertices[i]) implies shown_vertex(
        #[trigger] h.vertices[i],
    ) by {
        if i != s && i != d {
            assert(h.vertices[i] == g.vertices[i]);
        }
    }
    assert forall|i: int| 0 <= i < g.edges.len() && shown_edge(g.edges[i]) implies shown_edge(
        #[trigger] h.edges[i],
    ) by {
        if i != e {
            assert(h.edges[i] == g.edges[i]);
        }
    }
    assert forall|i: int|
        0 <= i < g.vertices.len() && born(g.vertices[i]) is Some && born(g.vertices[i])->0
            <= t implies born(#[trigger] h.vertices[i]) == born(g.vertices[i]) by {
        assert(g.vertices[i].wf());
        lemma_touch_born(g.vertices[i], t);
        lemma_touch(g.vertices[i], t);
        lemma_touch_born(g.vertices[i].touch(t), t);
        if i != s && i != d {
            assert(h.vertices[i] == g.vertices[i]);
        }
    }
}

pub proof fn lemma_keeps_born_trans(a: GraphView, b: GraphView, c: GraphView, t1: i64, t2: i64)
    requires
        keeps_born(a, b, t2),
        keeps_born(b, c, t1),
        t1 <= t2,
        c.vertices.len() <= b.vertices.len(),
    ensures
        keeps_born(a, c, t1),
{
    assert forall|i: int|
        0 <= i < c.vertices.len() && born(c.vertices[i]) is Some && born(c.vertices[i])->0
            <= t1 implies born(#[trigger] a.vertices[i]) == born(c.vertices[i]) by {
        assert(born(b.vertices[i]) == born(c.vertices[i]));
    }
}

pub proof fn lemma_extends_trans(a: GraphView, b: GraphView, c: GraphView)
    requires
        a.extends(b),
        b.extends(c),
    ensures
        a.extends(c),
{
    assert forall|i: int| 0 <= i < c.vertices.len() implies (#[trigger] a.vertices[i]).gid
        == c.vertices[i].gid by {
        assert(b.vertices[i].gid == c.vertices[i].gid);
    }
    assert forall|i: int| 0 <= i < c.edges.len() implies (#[trigger] a.edges[i]).src
        == c.edges[i].src && a.edges[i].dst == c.edges[i].dst by {
        assert(b.edges[i].src == c.edges[i].src);
    }
    assert forall|i: int| 0 <= i < c.layer_names.len() implies #[trigger] a.layer_names[i]
        == c.layer_names[i] by {
        assert(b.layer_names[i] == c.layer_names[i]);
    }
}

/// Adds the vertex `new_id` at time `t` and joins it to each vertex at a
/// position of `chosen`.
pub fn attach(graph: &mut Graph, t: i64, new_id: u64, chosen: &Vec<usize>)
    requires
        old(graph).wf(),
        forall|i: int|
            0 <= i < old(graph)@.vertices.len() ==> (#[trigger] old(graph)@.vertices[i]).gid
                != new_id,
        distinct(chosen@),
        forall|j: int| 0 <= j < chosen@.len() ==> chosen@[j] < old(graph)@.vertices.len(),
    ensures
        final(graph).wf(),
        final(graph)@.extends(old(graph)@),
        keeps_shown(final(graph)@, old(graph)@),
        keeps_born(final(graph)@, old(graph)@, t),
        born(final(graph)@.vertices[old(graph)@.vertices.len() as int]) == Some(t),
        final(graph)@.layer_names == old(graph)@.layer_names,
        final(graph)@.props == old(graph)@.props,
        final(graph)@.vertices.len() == old(graph)@.vertices.len() + 1,
        final(graph)@.vertices[old(graph)@.vertices.len() as int].gid == new_id,
        shown_vertex(final(graph)@.vertices[old(graph)@.vertices.len() as int]),
        final(graph)@.edges.len() == old(graph)@.edges.len() + chosen@.len(),
        forall|j: int|
            0 <= j < chosen@.len() ==> {
                let e = #[trigger] final(graph)@.edges[old(graph)@.edges.len() + j];
                &&& e.src == VID(old(graph)@.vertices.len() as usize)
                &&& e.dst == VID(chosen@[j])
                &&& shown_edge(e)
            },
{
    let ghost g0 = graph@;
    let ghost n = g0.vertices.len() as int;
    let ghost m = g0.edges.len() as int;
    let empty: Vec<(String, Prop)> = Vec::new();
    assert(named_values(empty@) =~= no_props());
    let _ = graph.add_vertex(t, new_id, &empty);
    proof {
        assert(g0.vertex_index(new_id) is None);
        assert(graph@.vertices.len() == n + 1);
        lemma_add_new_vertex(g0, t, new_id);
    }
    let ghost g1 = graph@;
    let mut j: usize = 0;
    while j < chosen.len()
        invariant
            j <= chosen.len(),
            graph.wf(),
            distinct(chosen@),
            named_values(empty@) == no_props(),
            n == g0.vertices.len(),
            m == g0.edges.len(),
            n < usize::MAX,
            g0.wf(),
            forall|k: int| 0 <= k < chosen@.len() ==> chosen@[k] < n,
            graph@.extends(g1),
            keeps_shown(graph@, g1),
            keeps_born(graph@, g1, t),
            born(g1.vertices[n]) == Some(t),
            forall|i: int| 0 <= i < n ==> #[trigger] g1.vertices[i] == g0.vertices[i],
            g1.extends(g0),
            g1.edges == g0.edges,
            g1.vertices.len() == n + 1,
            graph@.layer_names == g0.layer_names,
            graph@.props == g0.props,
            graph@.vertices.len() == n + 1,
            graph@.vertices[n].gid == new_id,
            shown_vertex(graph@.vertices[n]),
            graph@.edges.len() == m + j,
            forall|k: int|
                0 <= k < j ==> {
                    let e = #[trigger] graph@.edges[m + k];
                    &&& e.src == VID(n as usize)
                    &&& e.dst == VID(chosen@[k])
                    &&& shown_edge(e)
                },
        decreases chosen.len() - j,
    {
        let ghost g = graph@;
        let pos = chosen[j];
        let dst = graph.vertex(VID(pos)).gid();
        proof {
            assert(g.vertices[n].gid == new_id);
            lemma_add_edge_between(g, t, n, pos as int);
            // no edge joins the new vertex and this target yet
            if g.edge_index(VID(n as usize), VID(pos)) is Some {
                let e = g.edge_index(VID(n as usize), VID(pos))->0;
                assert(g.edges[e].src == VID(n as usize) && g.edges[e].dst == VID(pos));
                if e < m {
                    assert(g.edges[e].src == g1.edges[e].src);
                    assert(g0.edges[e].src.0 < n);
                } else {
                    let k = e - m;
                    assert(g.edges[m + k].dst == VID(chosen@[k]));
                    assert(chosen@[k] != chosen@[j as int]);
                }
            }
        }
        let _ = graph.add_edge(t, new_id, dst, &empty, None);
        proof {
            let h = graph@;
            lemma_extends_trans(h, g, g1);
            lemma_keeps_born_trans(h, g, g1, t, t);
            assert forall|k: int| 0 <= k < j + 1 implies {
                let e = #[trigger] h.edges[m + k];
                &&& e.src == VID(n as usize)
                &&& e.dst == VID(chosen@[k])
                &&& shown_edge(e)
            } by {
                if k < j {
                    let e0 = g.edges[m + k];
                    assert(e0.src == VID(n as usize) && e0.dst == VID(chosen@[k]) && shown_edge(e0));
                    assert(h.edges[m + k].src == e0.src);
                }
            }
            assert(keeps_shown(h, g1)) by {
                assert forall|i: int|
                    0 <= i < g1.vertices.len() && shown_vertex(g1.vertices[i]) implies shown_vertex(
                    #[trigger] h.vertices[i],
                ) by {
                    assert(shown_vertex(g.vertices[i]));
                }
                assert forall|i: int|
                    0 <= i < g1.edges.len() && shown_edge(g1.edges[i]) implies shown_edge(
                    #[trigger] h.edges[i],
                ) by {
                    assert(shown_edge(g.edges[i]));
                }
            }
        }
        j += 1;
    }
    proof {
        lemma_extends_trans(graph@, g1, g0);
        assert(keeps_born(graph@, g0, t)) by {
            assert forall|i: int|
                0 <= i < g0.vertices.len() && born(g0.vertices[i]) is Some && born(
                    g0.vertices[i],
                )->0 <= t implies born(#[trigger] graph@.vertices[i]) == born(g0.vertices[i]) by {
                assert(g1.vertices[i] == g0.vertices[i]);
            }
        }
        assert(keeps_shown(graph@, g0)) by {
            assert forall|i: int|
                0 <= i < g0.vertices.len() && shown_vertex(g0.vertices[i]) implies shown_vertex(
                #[trigger] graph@.vertices[i],
            ) by {
                assert(g1.vertices[i] == g0.vertices[i]);
            }
            assert forall|i: int|
                0 <= i < g0.edges.len() && shown_edge(g0.edges[i]) implies shown_edge(
                #[trigger] graph@.edges[i],
            ) by {
                assert(g1.edges[i] == g0.edges[i]);
            }
        }
    }
}

/// The degree of vertex `v` in the graph: the number of edges that the
/// graph shows at it.
pub open spec fn degree_of(g: GraphView, v: int) -> nat {
    view_degree(g, Set::full(), Set::full(), None, VID(v as usize), g.edges.len())
}

/// The degrees of the vertices, by handle.
pub open spec fn degrees_of(g: GraphView) -> Seq<usize> {
    Seq::new(g.vertices.len(), |v: int| degree_of(g, v) as usize)
}

/// The time at which growth starts: the latest activity, or zero.
pub open spec fn start_time(g: GraphView) -> i64 {
    match latest(g, None) {
        Some(t) => t,
        None => 0,
    }
}

/// The number of vertices that are added before growth starts, so that
/// the first new vertex finds `edges_per_step` vertices.
pub open spec fn seeds(g: GraphView, edges_per_step: usize) -> int {
    if edges_per_step > g.vertices.len() {
        edges_per_step - g.vertices.len()
    } else {
        0
    }
}

/// Whether a chain of edges is laid through the vertices before growth
/// starts: whether the graph shows fewer than `edges_per_step` edges.
pub open spec fn lays_chain(g: GraphView, edges_per_step: usize) -> bool {
    view_edges(g, Set::full(), Set::full(), None, g.edges.len()).len() < edges_per_step
}

/// Whether the identifiers, the times and the weights of the growth fit
/// the machine's integers.
pub open spec fn can_attach(g: GraphView, vertices_to_add: usize, edges_per_step: usize) -> bool {
    &&& max_gid(g.vertices, g.vertices.len()) + seeds(g, edges_per_step) + vertices_to_add
        <= u64::MAX
    &&& start_time(g) + vertices_to_add <= i64::MAX
    &&& total(degrees_of(g)) + 2 * (g.vertices.len() + seeds(g, edges_per_step)) + 2
        * vertices_to_add * edges_per_step <= usize::MAX
}

/// What growth by preferential attachment makes of the store `g`, whatever
/// the generator returns: `h` keeps the vertices and edges of `g` under
/// their handles, with the time of their first activity, and the layers and
/// graph properties as they were. The new vertices are
/// `seeds(g, edges_per_step) + vertices_to_add`; their identifiers follow
/// the greatest identifier of `g`; the seeds are first active at the
/// latest time of `g` and the vertices of the growth at the times that
/// follow it, one after the other. The graph shows each new vertex and each
/// new edge, and each new edge leads from a vertex to one that was there
/// before it. The new edges are at most one for each
/// chain link and `edges_per_step` for each vertex added; and exactly as
/// many where `g` has no edge record and at least two vertices are there
/// when growth starts, or where no chain is laid and every vertex of `g` has
/// a positive degree.
pub open spec fn attached(
    g: GraphView,
    h: GraphView,
    vertices_to_add: usize,
    edges_per_step: usize,
) -> bool {
    let n = g.vertices.len() as int;
    let sd = seeds(g, edges_per_step);
    &&& h.extends(g)
    &&& keeps_shown(h, g)
    &&& h.layer_names == g.layer_names
    &&& h.props == g.props
    &&& h.vertices.len() == n + sd + vertices_to_add
    &&& forall|i: int|
        n <= i < h.vertices.len() ==> (#[trigger] h.vertices[i]).gid == max_gid(
            g.vertices,
            g.vertices.len(),
        ) + 1 + (i - n) && shown_vertex(h.vertices[i])
    &&& forall|i: int|
        0 <= i < n && born(g.vertices[i]) is Some ==> born(#[trigger] h.vertices[i]) == born(
            g.vertices[i],
        )
    &&& forall|i: int| n <= i < n + sd ==> born(#[trigger] h.vertices[i]) == Some(start_time(g))
    &&& forall|i: int|
        n + sd <= i < h.vertices.len() ==> born(#[trigger] h.vertices[i]) == Some(
            (start_time(g) + (i - n - sd) + 1) as i64,
        )
    &&& forall|i: int|
        g.edges.len() <= i < h.edges.len() ==> shown_edge(#[trigger] h.edges[i]) && h.edges[i].dst.0
            < h.edges[i].src.0
    &&& h.edges.len() <= g.edges.len() + (if lays_chain(g, edges_per_step) {
        n + sd - 1
    } else {
        0
    }) + vertices_to_add * edges_per_step
    &&& g.edges.len() == 0 && edges_per_step >= 1 && n + sd >= 2 ==> h.edges.len() == n + sd - 1
        + vertices_to_add * edges_per_step
    &&& !lays_chain(g, edges_per_step) && edges_per_step <= n && all_positive(degrees_of(g))
        ==> h.edges.len() == g.edges.len() + vertices_to_add * edges_per_step
}

/// Every weight is at most the total.
pub proof fn lemma_total_bound(degrees: Seq<usize>, pos: int)
    requires
        0 <= pos < degrees.len(),
    ensures
        degrees[pos] <= total(degrees),
{
    let s = Seq::new(degrees.len(), |i: int| false);
    lemma_weight_monotone(degrees, s, pos, pos + 1);
    lemma_weight_monotone(degrees, s, pos + 1, degrees.len() as int);
}

/// The degrees of the vertices of the graph, and the greatest identifier.
pub fn collect_degrees(graph: &Graph) -> (r: (Vec<usize>, u64))
    requires
        graph.wf(),
    ensures
        r.0@ == degrees_of(graph@),
        r.1 == max_gid(graph@.vertices, graph@.vertices.len()),
{
    let n = graph.num_vertex_records();
    let mut degrees: Vec<usize> = Vec::new();
    let mut max_id: u64 = 0;
    let mut v: usize = 0;
    while v < n
        invariant
            v <= n,
            n == graph@.vertices.len(),
            graph.wf(),
            degrees@.len() == v,
            forall|i: int| 0 <= i < v ==> degrees@[i] == degree_of(graph@, i) as usize,
            max_id == max_gid(graph@.vertices, v as nat),
        decreases n - v,
    {
        let d = graph.degree(VID(v));
        degrees.push(d);
        let gid = graph.vertex(VID(v)).gid();
        if gid > max_id {
            max_id = gid;
        }
        v += 1;
    }
    assert(degrees@ =~= degrees_of(graph@));
    (degrees, max_id)
}

/// The sum of the weights, if it fits.
pub fn sum_degrees(degrees: &Vec<usize>) -> (r: Option<usize>)
    ensures
        match r {
            Some(sum) => sum == total(degrees@),
            None => total(degrees@) > usize::MAX,
        },
{
    let ghost none = Seq::new(degrees@.len(), |i: int| false);
    let mut sum: usize = 0;
    let mut i: usize = 0;
    while i < degrees.len()
        invariant
            i <= degrees.len(),
            none == Seq::new(degrees@.len(), |i: int| false),
            sum == weight(degrees@, none, i as int),
        decreases degrees.len() - i,
    {
        match sum.checked_add(degrees[i]) {
            Some(next) => {
                sum = next;
            },
            None => {
                proof {
                    lemma_weight_monotone(degrees@, none, i as int + 1, degrees@.len() as int);
                }
                return None;
            },
        }
        i += 1;
    }
    Some(sum)
}

/// Grows the graph by preferential attachment: `vertices_to_add` vertices
/// are added, one at each time after the latest activity, and each is
/// joined to up to `edges_per_step` vertices that are there, chosen without
/// replacement with a chance in proportion to their degree.
///
/// Before that, vertices are added until there are `edges_per_step`, and if
/// the graph shows fewer than `edges_per_step` edges, each vertex is joined
/// to the one before it.
///
/// Whatever the generator returns: the vertices and edges that were there
/// stay under their handles; the number of new vertices is exact, their
/// identifiers follow the greatest identifier, and the graph shows each of
/// them and each new edge. The number of new edges is exact where every
/// vertex has a positive degree when growth starts.
pub fn ba_preferential_attachment(graph: &mut Graph, vertices_to_add: usize, edges_per_step: usize)
    requires
        old(graph).wf(),
        can_attach(old(graph)@, vertices_to_add, edges_per_step),
    ensures
        final(graph).wf(),
        attached(old(graph)@, final(graph)@, vertices_to_add, edges_per_step),
{
    let ghost g0 = graph@;
    let ghost n0 = g0.vertices.len() as int;
    let ghost e0 = g0.edges.len() as int;
    let ghost first = max_gid(g0.vertices, g0.vertices.len()) + 1;
    let ghost sd = seeds(g0, edges_per_step);
    let mut rng = thread_rng();
    let mut latest_time = match graph.latest_time() {
        None => 0,
        Some(time) => time,
    };
    let (mut degrees, max0) = collect_degrees(graph);
    let mut edge_count: usize = sum_degrees(&degrees).unwrap();
    let mut max_id = max0;
    let chain = graph.num_edges() < edges_per_step;
    let empty: Vec<(String, Prop)> = Vec::new();
    assert(named_values(empty@) =~= no_props());
    proof {
        lemma_max_gid(g0.vertices, g0.vertices.len());
        lemma_extends_refl(g0);
    }

    while degrees.len() < edges_per_step
        invariant
            graph.wf(),
            g0.wf(),
            named_values(empty@) == no_props(),
            n0 == g0.vertices.len(),
            e0 == g0.edges.len(),
            first == max_gid(g0.vertices, g0.vertices.len()) + 1,
            sd == seeds(g0, edges_per_step),
            can_attach(g0, vertices_to_add, edges_per_step),
            graph@.extends(g0),
            keeps_shown(graph@, g0),
            latest_time == start_time(g0),
            forall|i: int| 0 <= i < n0 ==> #[trigger] graph@.vertices[i] == g0.vertices[i],
            forall|i: int|
                n0 <= i < graph@.vertices.len() ==> born(#[trigger] graph@.vertices[i]) == Some(
                    latest_time,
                ),
            graph@.edges == g0.edges,
            graph@.layer_names == g0.layer_names,
            graph@.props == g0.props,
            graph@.vertices.len() == degrees@.len(),
            n0 <= degrees@.len() <= n0 + sd,
            max_id == first - 1 + (degrees@.len() - n0),
            forall|i: int| 0 <= i < graph@.vertices.len() ==> (#[trigger] graph@.vertices[i]).gid <= max_id,
            forall|i: int|
                n0 <= i < graph@.vertices.len() ==> (#[trigger] graph@.vertices[i]).gid == first + (i
                    - n0) && shown_vertex(graph@.vertices[i]),
            edge_count == total(degrees@),
            edge_count == total(degrees_of(g0)),
            forall|i: int| 0 <= i < n0 ==> degrees@[i] == degrees_of(g0)[i],
        decreases edges_per_step - degrees.len(),
    {
        let ghost g = graph@;
        max_id += 1;
        let _ = graph.add_vertex(latest_time, max_id, &empty);
        proof {
            assert(g.vertex_index(max_id) is None);
            assert(graph@.vertices.len() == g.vertices.len() + 1);
            lemma_add_new_vertex(g, latest_time, max_id);
            lemma_extends_trans(graph@, g, g0);
            lemma_total_push(degrees@, 0);
            assert forall|i: int| 0 <= i < n0 implies #[trigger] graph@.vertices[i]
                == g0.vertices[i] by {
                assert(graph@.vertices[i] == g.vertices[i]);
            }
            assert forall|i: int| n0 <= i < graph@.vertices.len() implies born(
                #[trigger] graph@.vertices[i],
            ) == Some(latest_time) by {
                if i < g.vertices.len() {
                    assert(graph@.vertices[i] == g.vertices[i]);
                }
            }
            assert forall|i: int|
                n0 <= i < graph@.vertices.len() implies (#[trigger] graph@.vertices[i]).gid == first
                + (i - n0) && shown_vertex(graph@.vertices[i]) by {
                if i < g.vertices.len() {
                    assert(graph@.vertices[i] == g.vertices[i]);
                }
            }
            assert forall|i: int| 0 <= i < graph@.vertices.len() implies (
            #[trigger] graph@.vertices[i]).gid <= max_id by {
                if i < g.vertices.len() {
                    assert(graph@.vertices[i] == g.vertices[i]);
                }
            }
            assert(keeps_shown(graph@, g0)) by {
                assert forall|i: int|
                    0 <= i < g0.vertices.len() && shown_vertex(g0.vertices[i]) implies shown_vertex(
                    #[trigger] graph@.vertices[i],
                ) by {
                    assert(graph@.vertices[i] == g.vertices[i]);
                }
            }
        }
        degrees.push(0);
    }

    let ghost g1 = graph@;
    let ghost n1 = g1.vertices.len() as int;
    assert(n1 == n0 + sd);
    proof {
        assert(keeps_born(g1, g0, latest_time));
    }
    if chain {
        let n = degrees.len();
        let mut pos: usize = 1;
        while pos < n
            invariant
                1 <= pos,
                pos <= n || n == 0,
                n == degrees@.len(),
                n1 == n,
                graph.wf(),
                g0.wf(),
                named_values(empty@) == no_props(),
                n0 == g0.vertices.len(),
                e0 == g0.edges.len(),
                sd == seeds(g0, edges_per_step),
                n1 == n0 + sd,
                can_attach(g0, vertices_to_add, edges_per_step),
                graph@.extends(g0),
                keeps_shown(graph@, g0),
                graph@.layer_names == g0.layer_names,
                graph@.props == g0.props,
                graph@.vertices.len() == n,
                forall|i: int| 0 <= i < n ==> (#[trigger] graph@.vertices[i]).gid == g1.vertices[i].gid,
                forall|i: int| n0 <= i < n ==> shown_vertex(#[trigger] graph@.vertices[i]),
                latest_time == start_time(g0),
                keeps_born(graph@, g0, latest_time),
                forall|i: int| n0 <= i < n ==> born(#[trigger] graph@.vertices[i]) == Some(latest_time),
                e0 <= graph@.edges.len() <= e0 + (pos - 1),
                forall|i: int|
                    e0 <= i < graph@.edges.len() ==> shown_edge(#[trigger] graph@.edges[i])
                        && graph@.edges[i].dst.0 < graph@.edges[i].src.0,
                e0 == 0 ==> graph@.edges.len() == pos - 1 && forall|i: int|
                    0 <= i < graph@.edges.len() ==> (#[trigger] graph@.edges[i]).src == VID(
                        (i + 1) as usize,
                    ) && graph@.edges[i].dst == VID(i as usize),
                edge_count == total(degrees@),
                edge_count == total(degrees_of(g0)) + 2 * (pos - 1),
                forall|i: int| 0 <= i < pos && pos >= 2 ==> #[trigger] degrees@[i] >= 1,
            decreases n - pos,
        {
            let ghost g = graph@;
            let src = graph.vertex(VID(pos)).gid();
            let dst = graph.vertex(VID(pos - 1)).gid();
            proof {
                lemma_add_edge_between(g, latest_time, pos as int, pos as int - 1);
                if e0 == 0 {
                    if g.edge_index(VID(pos), VID((pos - 1) as usize)) is Some {
                        let e = g.edge_index(VID(pos), VID((pos - 1) as usize))->0;
                        assert(g.edges[e].src == VID(pos));
                        assert(g.edges[e].src == VID((e + 1) as usize));
                    }
                }
            }
            let _ = graph.add_edge(latest_time, src, dst, &empty, None);
            proof {
                let h = graph@;
                lemma_extends_trans(h, g, g0);
                assert forall|i: int| 0 <= i < n implies (#[trigger] h.vertices[i]).gid
                    == g1.vertices[i].gid by {
                    assert(h.vertices[i].gid == g.vertices[i].gid);
                }
                assert forall|i: int| n0 <= i < n implies shown_vertex(#[trigger] h.vertices[i]) by {
                    assert(shown_vertex(g.vertices[i]));
                }
                assert forall|i: int| e0 <= i < h.edges.len() implies shown_edge(
                    #[trigger] h.edges[i],
                ) && h.edges[i].dst.0 < h.edges[i].src.0 by {
                    if i < g.edges.len() {
                        assert(shown_edge(g.edges[i]));
                        assert(h.edges[i].src == g.edges[i].src);
                    }
                }
                lemma_keeps_born_trans(h, g, g0, latest_time, latest_time);
                assert forall|i: int| n0 <= i < n implies born(#[trigger] h.vertices[i]) == Some(
                    latest_time,
                ) by {
                    assert(born(g.vertices[i]) == Some(latest_time));
                }
                assert(keeps_shown(h, g0)) by {
                    assert forall|i: int|
                        0 <= i < g0.vertices.len() && shown_vertex(
                            g0.vertices[i],
                        ) implies shown_vertex(#[trigger] h.vertices[i]) by {
                        assert(shown_vertex(g.vertices[i]));
                    }
                    assert forall|i: int|
                        0 <= i < g0.edges.len() && shown_edge(g0.edges[i]) implies shown_edge(
                        #[trigger] h.edges[i],
                    ) by {
                        assert(shown_edge(g.edges[i]));
                    }
                }
                if e0 == 0 {
                    assert forall|i: int| 0 <= i < h.edges.len() implies (
                    #[trigger] h.edges[i]).src == VID((i + 1) as usize) && h.edges[i].dst == VID(
                        i as usize,
                    ) by {
                        if i < g.edges.len() {
                            assert(h.edges[i].src == g.edges[i].src);
                        }
                    }
                }
                lemma_total_bound(degrees@, pos as int);
                lemma_total_raise(degrees@, pos as int);
            }
            let d1 = degrees[pos];
            degrees.set(pos, d1 + 1);
            proof {
                lemma_total_bound(degrees@, pos as int - 1);
                lemma_total_raise(degrees@, pos as int - 1);
            }
            let d2 = degrees[pos - 1];
            degrees.set(pos - 1, d2 + 1);
            edge_count += 2;
            pos += 1;
        }
    }

    let ghost g2 = graph@;
    let ghost e2 = g2.edges.len() as int;
    let ghost exact = edges_per_step == 0 || (all_positive(degrees@) && edges_per_step
        <= degrees@.len());
    let mut step: usize = 0;
    while step < vertices_to_add
        invariant
            step <= vertices_to_add,
            graph.wf(),
            g0.wf(),
            n0 == g0.vertices.len(),
            e0 == g0.edges.len(),
            first == max_gid(g0.vertices, g0.vertices.len()) + 1,
            sd == seeds(g0, edges_per_step),
            n1 == n0 + sd,
            can_attach(g0, vertices_to_add, edges_per_step),
            latest_time == start_time(g0) + step,
            max_id == first - 1 + sd + step,
            graph@.extends(g0),
            keeps_shown(graph@, g0),
            graph@.layer_names == g0.layer_names,
            graph@.props == g0.props,
            graph@.vertices.len() == n1 + step,
            degrees@.len() == n1 + step,
            forall|i: int| 0 <= i < graph@.vertices.len() ==> (#[trigger] graph@.vertices[i]).gid <= max_id,
            forall|i: int|
                n0 <= i < graph@.vertices.len() ==> (#[trigger] graph@.vertices[i]).gid == first + (i
                    - n0) && shown_vertex(graph@.vertices[i]),
            forall|i: int|
                e0 <= i < graph@.edges.len() ==> shown_edge(#[trigger] graph@.edges[i])
                    && graph@.edges[i].dst.0 < graph@.edges[i].src.0,
            keeps_born(graph@, g0, start_time(g0)),
            forall|i: int| n0 <= i < n1 ==> born(#[trigger] graph@.vertices[i]) == Some(start_time(g0)),
            forall|i: int|
                n1 <= i < graph@.vertices.len() ==> born(#[trigger] graph@.vertices[i]) == Some(
                    (start_time(g0) + (i - n1) + 1) as i64,
                ),
            e2 <= e0 + (if chain {
                n1 - 1
            } else {
                0
            }),
            e0 == 0 && chain && n1 >= 1 ==> e2 == n1 - 1,
            !chain ==> e2 == e0,
            e2 <= graph@.edges.len() <= e2 + step * edges_per_step,
            exact ==> graph@.edges.len() == e2 + step * edges_per_step,
            exact ==> edges_per_step == 0 || (all_positive(degrees@) && edges_per_step
                <= degrees@.len()),
            edge_count == total(degrees@),
            edge_count <= total(degrees_of(g0)) + 2 * n1 + 2 * step * edges_per_step,
        decreases vertices_to_add - step,
    {
        let ghost g = graph@;
        let ghost d_before = degrees@;
        proof {
            assert(2 * (step + 1) * edges_per_step == 2 * step * edges_per_step + 2
                * edges_per_step) by (nonlinear_arith);
            assert((step + 1) * edges_per_step == step * edges_per_step + edges_per_step)
                by (nonlinear_arith);
            assert(2 * (step + 1) * edges_per_step <= 2 * vertices_to_add * edges_per_step)
                by (nonlinear_arith)
                requires
                    step + 1 <= vertices_to_add,
            ;
        }
        max_id += 1;
        latest_time += 1;
        let chosen = choose_targets(&mut rng, &degrees, edge_count, edges_per_step);
        attach(graph, latest_time, max_id, &chosen);
        let mut j: usize = 0;
        while j < chosen.len()
            invariant
                j <= chosen.len(),
                degrees@.len() == d_before.len(),
                distinct(chosen@),
                forall|k: int| 0 <= k < chosen@.len() ==> chosen@[k] < d_before.len(),
                total(degrees@) == total(d_before) + j,
                total(d_before) + chosen@.len() <= usize::MAX,
                forall|i: int| 0 <= i < degrees@.len() ==> #[trigger] degrees@[i] >= d_before[i],
            decreases chosen.len() - j,
        {
            let pos = chosen[j];
            proof {
                lemma_total_bound(degrees@, pos as int);
                lemma_total_raise(degrees@, pos as int);
            }
            let d = degrees[pos];
            degrees.set(pos, d + 1);
            j += 1;
        }
        proof {
            lemma_total_push(degrees@, chosen.len());
            let h = graph@;
            lemma_extends_trans(h, g, g0);
            assert forall|i: int| 0 <= i < h.vertices.len() implies (#[trigger] h.vertices[i]).gid
                <= max_id by {
                if i < g.vertices.len() {
                    assert(h.vertices[i].gid == g.vertices[i].gid);
                }
            }
            assert forall|i: int| n0 <= i < h.vertices.len() implies (
            #[trigger] h.vertices[i]).gid == first + (i - n0) && shown_vertex(h.vertices[i]) by {
                if i < g.vertices.len() {
                    assert(h.vertices[i].gid == g.vertices[i].gid);
                    assert(shown_vertex(g.vertices[i]));
                }
            }
            assert forall|i: int| e0 <= i < h.edges.len() implies shown_edge(
                #[trigger] h.edges[i],
            ) && h.edges[i].dst.0 < h.edges[i].src.0 by {
                if i < g.edges.len() {
                    assert(shown_edge(g.edges[i]));
                    assert(h.edges[i].src == g.edges[i].src);
                } else {
                    let k = i - g.edges.len();
                    assert(shown_edge(h.edges[g.edges.len() + k]));
                }
            }
            lemma_keeps_born_trans(h, g, g0, start_time(g0), latest_time);
            assert forall|i: int| n0 <= i < n1 implies born(#[trigger] h.vertices[i]) == Some(
                start_time(g0),
            ) by {
                assert(born(g.vertices[i]) == Some(start_time(g0)));
            }
            assert forall|i: int| n1 <= i < h.vertices.len() implies born(
                #[trigger] h.vertices[i],
            ) == Some((start_time(g0) + (i - n1) + 1) as i64) by {
                if i < g.vertices.len() {
                    assert(born(g.vertices[i]) == Some((start_time(g0) + (i - n1) + 1) as i64));
                }
            }
            assert(keeps_shown(h, g0)) by {
                assert forall|i: int|
                    0 <= i < g0.vertices.len() && shown_vertex(g0.vertices[i]) implies shown_vertex(
                    #[trigger] h.vertices[i],
                ) by {
                    assert(shown_vertex(g.vertices[i]));
                }
                assert forall|i: int|
                    0 <= i < g0.edges.len() && shown_edge(g0.edges[i]) implies shown_edge(
                    #[trigger] h.edges[i],
                ) by {
                    assert(shown_edge(g.edges[i]));
                }
            }
        }
        degrees.push(chosen.len());
        edge_count += 2 * chosen.len();
        step += 1;
    }
    proof {
        lemma_earliest_latest(g0.vertices, None, g0.vertices.len());
        assert forall|i: int| 0 <= i < n0 && born(g0.vertices[i]) is Some implies born(
            #[trigger] graph@.vertices[i],
        ) == born(g0.vertices[i]) by {
            let a = g0.vertices[i].additions;
            assert(a.contains(a[0]));
        }
    }
}

/// Whether the identifiers, the times and the weights of a growth by
/// `vertices_to_add` vertices with `edges_per_step` edges each fit the
/// machine's integers.
pub fn attachment_fits(graph: &Graph, vertices_to_add: usize, edges_per_step: usize) -> (r: bool)
    requires
        graph.wf(),
    ensures
        r == can_attach(graph@, vertices_to_add, edges_per_step),
{
    let n = graph.num_vertex_records();
    let sd: usize = if edges_per_step > n {
        edges_per_step - n
    } else {
        0
    };
    let (degrees, max_id) = collect_degrees(graph);
    let start: i64 = match graph.latest_time() {
        None => 0,
        Some(time) => time,
    };
    let sum = match sum_degrees(&degrees) {
        Some(sum) => sum,
        None => {
            return false;
        },
    };
    if max_id as u128 + sd as u128 + vertices_to_add as u128 > u64::MAX as u128 {
        return false;
    }
    if start as i128 + vertices_to_add as i128 > i64::MAX as i128 {
        return false;
    }
    proof {
        assert(2 * vertices_to_add * edges_per_step == (vertices_to_add * edges_per_step) * 2)
            by (nonlinear_arith);
        assert(vertices_to_add * edges_per_step >= 0) by (nonlinear_arith);
        assert(total(degrees@) >= 0) by {
            lemma_weight_monotone(
                degrees@,
                Seq::new(degrees@.len(), |i: int| false),
                0,
                degrees@.len() as int,
            );
        }
    }
    let product = match (vertices_to_add as u128).checked_mul(edges_per_step as u128) {
        Some(p) => p,
        None => {
            return false;
        },
    };
    let twice = match product.checked_mul(2) {
        Some(p) => p,
        None => {
            return false;
        },
    };
    let fixed: u128 = sum as u128 + 2 * (n as u128 + sd as u128);
    match fixed.checked_add(twice) {
        Some(all) => all <= usize::MAX as u128,
        None => false,
    }
}

/// Grows the graph by preferential attachment if the growth fits the
/// machine's integers, and says whether it did. A growth that does not fit
/// leaves the graph as it is.
pub fn try_ba_preferential_attachment(
    graph: &mut Graph,
    vertices_to_add: usize,
    edges_per_step: usize,
) -> (r: bool)
    requires
        old(graph).wf(),
    ensures
        final(graph).wf(),
        r == can_attach(old(graph)@, vertices_to_add, edges_per_step),
        r ==> attached(old(graph)@, final(graph)@, vertices_to_add, edges_per_step),
        !r ==> final(graph)@ == old(graph)@,
{
    if attachment_fits(graph, vertices_to_add, edges_per_step) {
        ba_preferential_attachment(graph, vertices_to_add, edges_per_step);
        true
    } else {
        false
    }
}

pub proof fn lemma_extends_refl(g: GraphView)
    ensures
        g.extends(g),
        keeps_shown(g, g),
{
}

} // verus!
