//! Layer sets: one layer, an explicit subset of the layers, all of them, or none.

use vstd::prelude::*;

verus! {

/// A set of layer ids.
#[derive(Debug)]
pub enum LayerIds {
    NoLayers,
    All,
    One(usize),
    Multiple(Vec<usize>),
}

impl View for LayerIds {
    type V = Set<usize>;

    open spec fn view(&self) -> Set<usize> {
        match self {
            LayerIds::NoLayers => Set::empty(),
            LayerIds::All => Set::full(),
            LayerIds::One(id) => set![*id],
            LayerIds::Multiple(ids) => ids@.to_set(),
        }
    }
}

impl Clone for LayerIds {
    fn clone(&self) -> (r: LayerIds)
        ensures
            r@ == self@,
    {
        match self {
            LayerIds::NoLayers => LayerIds::NoLayers,
            LayerIds::All => LayerIds::All,
            LayerIds::One(id) => LayerIds::One(*id),
            LayerIds::Multiple(ids) => {
                LayerIds::Multiple(ids.clone())
            },
        }
    }
}

/// Whether `ids` holds `layer`.
pub fn vec_contains(ids: &Vec<usize>, layer: usize) -> (r: bool)
    ensures
        r == ids@.contains(layer),
{
    let mut i: usize = 0;
    while i < ids.len()
        invariant
            i <= ids.len(),
            forall|j: int| 0 <= j < i ==> ids@[j] != layer,
        decreases ids.len() - i,
    {
        if ids[i] == layer {
            return true;
        }
        i += 1;
    }
    false
}

impl LayerIds {
    /// Whether `layer` belongs to the set.
    pub fn contains(&self, layer: usize) -> (r: bool)
        ensures
            r == self@.contains(layer),
    {
        match self {
            LayerIds::NoLayers => false,
            LayerIds::All => true,
            LayerIds::One(id) => *id == layer,
            LayerIds::Multiple(ids) => vec_contains(ids, layer),
        }
    }

    /// The layers that belong to both `self` and `other`.
    pub fn constrain(&self, other: &LayerIds) -> (r: LayerIds)
        ensures
            r@ == self@.intersect(other@),
    {
        match (self, other) {
            (LayerIds::NoLayers, _) => {
                assert(Set::<usize>::empty() =~= self@.intersect(other@));
                LayerIds::NoLayers
            },
            (_, LayerIds::NoLayers) => {
                assert(Set::<usize>::empty() =~= self@.intersect(other@));
                LayerIds::NoLayers
            },
            (LayerIds::All, _) => {
                let r = other.clone();
                assert(r@ =~= self@.intersect(other@));
                r
            },
            (_, LayerIds::All) => {
                let r = self.clone();
                assert(r@ =~= self@.intersect(other@));
                r
            },
            (LayerIds::One(id), _) => {
                if other.contains(*id) {
                    assert(set![*id] =~= self@.intersect(other@));
                    LayerIds::One(*id)
                } else {
                    assert(Set::<usize>::empty() =~= self@.intersect(other@));
                    LayerIds::NoLayers
                }
            },
            (_, LayerIds::One(id)) => {
                if self.contains(*id) {
                    assert(set![*id] =~= self@.intersect(other@));
                    LayerIds::One(*id)
                } else {
                    assert(Set::<usize>::empty() =~= self@.intersect(other@));
                    LayerIds::NoLayers
                }
            },
            (LayerIds::Multiple(ids), LayerIds::Multiple(others)) => {
                let mut out: Vec<usize> = Vec::new();
                let mut i: usize = 0;
                while i < ids.len()
                    invariant
                        i <= ids.len(),
                        forall|x: usize|
                            out@.contains(x) <==> (ids@.take(i as int).contains(x)
                                && others@.contains(x)),
                    decreases ids.len() - i,
                {
                    let id = ids[i];
                    let ghost prev = out@;
                    proof {
                        assert(ids@.take(i as int + 1) == ids@.take(i as int).push(id));
                    }
                    if vec_contains(others, id) {
                        out.push(id);
                    }
                    proof {
                        assert forall|x: usize|
                            out@.contains(x) <==> (ids@.take(i as int + 1).contains(x)
                                && others@.contains(x)) by {
                            let t = ids@.take(i as int);
                            let t1 = ids@.take(i as int + 1);
                            if t1.contains(x) {
                                let k = choose|k: int| 0 <= k < t1.len() && t1[k] == x;
                                if k < i {
                                    assert(t[k] == x);
                                }
                            }
                            if t.contains(x) {
                                let k = choose|k: int| 0 <= k < t.len() && t[k] == x;
                                assert(t1[k] == x);
                            }
                            assert(t1[i as int] == id);
                            if out@.contains(x) {
                                let k = choose|k: int| 0 <= k < out@.len() && out@[k] == x;
                                if k < prev.len() {
                                    assert(prev[k] == x);
                                }
                            }
                            if prev.contains(x) {
                                let k = choose|k: int| 0 <= k < prev.len() && prev[k] == x;
                                assert(out@[k] == x);
                            }
                            if others@.contains(id) {
                                assert(out@[out@.len() - 1] == id);
                            }
                        }
                    }
                    i += 1;
                }
                proof {
                    assert(ids@.take(i as int) == ids@);
                    assert(out@.to_set() =~= self@.intersect(other@));
                }
                LayerIds::Multiple(out)
            },
        }
    }
}

} // verus!
