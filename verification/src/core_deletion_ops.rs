//! Access to the deletions of an edge, whatever the view shows of them.

use vstd::prelude::*;
use crate::core_ops::{Base, CoreGraphOps, InheritStore};
use crate::entities::EdgeRef;
use crate::graph::Graph;
use crate::layers::LayerIds;
use crate::time_index::TimeIndex;

verus! {

pub trait CoreDeletionOps: CoreGraphOps {
    /// All the deletions of an edge, over all layers and all time. A view
    /// does not narrow them: whether a deletion closes an edge depends on
    /// history outside the view.
    fn edge_deletions(&self, eref: EdgeRef) -> (r: TimeIndex)
        requires
            self.valid(),
            eref.e_pid.0 < self.store().edges.len(),
        ensures
            r.wf(),
            r@ == self.store().edges[eref.e_pid.0 as int].deletions_in(Set::full(), None),
    ;
}

/// A view that takes the deletions, unchanged, from the graph that it wraps.
pub trait InheritCoreDeletionOps: InheritStore where <Self as Base>::Base: CoreGraphOps {

}

impl<G: InheritCoreDeletionOps> DelegateCoreDeletionOps for G where
    <G as Base>::Base: CoreDeletionOps,
 {
    type Internal = <G as Base>::Base;

    open spec fn internal(&self) -> Self::Internal {
        self.spec_base()
    }

    fn graph(&self) -> (r: &Self::Internal) {
        self.base()
    }

    proof fn delegates_store(&self) {
        self.inherits_store();
    }
}

/// A view whose deletions are those of another graph.
pub trait DelegateCoreDeletionOps: CoreGraphOps {
    type Internal: CoreDeletionOps;

    /// The graph that answers for the view.
    spec fn internal(&self) -> Self::Internal;

    fn graph(&self) -> (r: &Self::Internal)
        ensures
            *r == self.internal(),
    ;

    /// The view reads the store of the graph that answers for it.
    proof fn delegates_store(&self)
        requires
            self.valid(),
        ensures
            self.internal().valid(),
            self.internal().store() == self.store(),
    ;
}

impl<G: DelegateCoreDeletionOps> CoreDeletionOps for G {
    fn edge_deletions(&self, eref: EdgeRef) -> (r: TimeIndex) {
        proof {
            self.delegates_store();
        }
        self.graph().edge_deletions(eref)
    }
}

impl CoreDeletionOps for Graph {
    fn edge_deletions(&self, eref: EdgeRef) -> (r: TimeIndex) {
        self.core_edge(eref.e_pid).deletions_in(&LayerIds::All, None)
    }
}

} // verus!
