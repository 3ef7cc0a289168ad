//! Filter predicates over edges: name filters, layer-name filters and
//! property filters.

use vstd::prelude::*;
use crate::props::Prop;
use crate::props::PropValue;

verus! {

/// What a filter reads of an edge: the names of its endpoints, the names of
/// the layers it exists in, and its properties.
pub struct Edge {
    pub src: String,
    pub dst: String,
    pub layer_names: Vec<String>,
    pub properties: Vec<(String, Prop)>,
}

/// Accepts a string that equals `eq` (if given) and differs from `ne` (if given).
pub struct StringFilter {
    pub eq: Option<String>,
    pub ne: Option<String>,
}

/// Accepts a string that is one of `contains`.
pub struct StringVecFilter {
    pub contains: Vec<String>,
}

/// Accepts an entity that has a property whose name is `key` (if given) and
/// whose value is the string `value_str` (if given).
pub struct PropertyHasFilter {
    pub key: Option<String>,
    pub value_str: Option<String>,
}

/// A conjunction of optional predicates over an edge. A filter with no
/// predicate set accepts every edge.
pub struct EdgeFilter {
    pub node_names: Option<StringVecFilter>,
    pub src: Option<StringFilter>,
    pub dst: Option<StringFilter>,
    pub property_has: Option<PropertyHasFilter>,
    pub layer_names: Option<StringVecFilter>,
}

impl StringFilter {
    pub open spec fn accepts(&self, value: Seq<char>) -> bool {
        &&& self.eq matches Some(s) ==> value == s@
        &&& self.ne matches Some(s) ==> value != s@
    }

    pub fn matches(&self, value: &String) -> (r: bool)
        ensures
            r == self.accepts(value@),
    {
        if let Some(eq) = &self.eq {
            if !(*value == *eq) {
                return false;
            }
        }
        if let Some(ne) = &self.ne {
            if *value == *ne {
                return false;
            }
        }
        true
    }
}

impl StringVecFilter {
    pub open spec fn accepts(&self, value: Seq<char>) -> bool {
        exists|i: int| 0 <= i < self.contains.len() && #[trigger] self.contains[i]@ == value
    }

    pub fn contains(&self, value: &String) -> (r: bool)
        ensures
            r == self.accepts(value@),
    {
        let mut i: usize = 0;
        while i < self.contains.len()
            invariant
                i <= self.contains.len(),
                forall|j: int| 0 <= j < i ==> #[trigger] self.contains[j]@ != value@,
            decreases self.contains.len() - i,
        {
            if self.contains[i] == *value {
                return true;
            }
            i += 1;
        }
        false
    }

    /// Whether at least one of `values` is accepted.
    pub open spec fn accepts_any(&self, values: Seq<String>) -> bool {
        exists|i: int| 0 <= i < values.len() && self.accepts(#[trigger] values[i]@)
    }

    pub fn contains_any(&self, values: &Vec<String>) -> (r: bool)
        ensures
            r == self.accepts_any(values@),
    {
        let mut i: usize = 0;
        while i < values.len()
            invariant
                i <= values.len(),
                forall|j: int| 0 <= j < i ==> !self.accepts(#[trigger] values[j]@),
            decreases values.len() - i,
        {
            if self.contains(&values[i]) {
                return true;
            }
            i += 1;
        }
        false
    }
}

impl PropertyHasFilter {
    /// Whether the property `(name, value)` meets both conditions of the filter.
    pub open spec fn accepts_property(&self, name: Seq<char>, value: PropValue) -> bool {
        &&& self.key matches Some(k) ==> name == k@
        &&& self.value_str matches Some(s) ==> value == PropValue::Str(s@)
    }

    pub open spec fn accepts(&self, properties: Seq<(String, Prop)>) -> bool {
        exists|i: int|
            0 <= i < properties.len() && self.accepts_property(
                (#[trigger] properties[i]).0@,
                properties[i].1@,
            )
    }

    fn matches_property(&self, name: &String, value: &Prop) -> (r: bool)
        ensures
            r == self.accepts_property(name@, value@),
    {
        if let Some(k) = &self.key {
            if !(*name == *k) {
                return false;
            }
        }
        if let Some(s) = &self.value_str {
            match value {
                Prop::Str(v) => {
                    if !(*v == *s) {
                        return false;
                    }
                },
                _ => {
                    return false;
                },
            }
        }
        true
    }

    pub fn matches_edge_properties(&self, edge: &Edge) -> (r: bool)
        ensures
            r == self.accepts(edge.properties@),
    {
        let mut i: usize = 0;
        while i < edge.properties.len()
            invariant
                i <= edge.properties.len(),
                forall|j: int|
                    0 <= j < i ==> !self.accepts_property(
                        (#[trigger] edge.properties[j]).0@,
                        edge.properties[j].1@,
                    ),
            decreases edge.properties.len() - i,
        {
            if self.matches_property(&edge.properties[i].0, &edge.properties[i].1) {
                return true;
            }
            i += 1;
        }
        false
    }
}

impl EdgeFilter {
    /// The filter with no predicate set.
    pub fn new() -> (r: EdgeFilter)
        ensures
            r.node_names is None,
            r.src is None,
            r.dst is None,
            r.property_has is None,
            r.layer_names is None,
    {
        EdgeFilter { node_names: None, src: None, dst: None, property_has: None, layer_names: None }
    }

    /// An edge is accepted when every predicate that is set holds of it:
    /// both endpoint names are among `node_names`, the source name passes
    /// `src`, the destination name passes `dst`, some property passes
    /// `property_has`, and some layer of the edge is among `layer_names`.
    pub open spec fn accepts(&self, edge: &Edge) -> bool {
        &&& self.node_names matches Some(f) ==> f.accepts(edge.src@) && f.accepts(edge.dst@)
        &&& self.src matches Some(f) ==> f.accepts(edge.src@)
        &&& self.dst matches Some(f) ==> f.accepts(edge.dst@)
        &&& self.property_has matches Some(f) ==> f.accepts(edge.properties@)
        &&& self.layer_names matches Some(f) ==> f.accepts_any(edge.layer_names@)
    }

    /// Evaluates the predicates in order and stops at the first that fails.
    pub fn matches(&self, edge: &Edge) -> (r: bool)
        ensures
            r == self.accepts(edge),
    {
        if let Some(names_filter) = &self.node_names {
            if !names_filter.contains(&edge.src) || !names_filter.contains(&edge.dst) {
                return false;
            }
        }
        if let Some(name_filter) = &self.src {
            if !name_filter.matches(&edge.src) {
                return false;
            }
        }
        if let Some(name_filter) = &self.dst {
            if !name_filter.matches(&edge.dst) {
                return false;
            }
        }
        if let Some(property_has_filter) = &self.property_has {
            if !property_has_filter.matches_edge_properties(edge) {
                return false;
            }
        }
        if let Some(name_filter) = &self.layer_names {
            return name_filter.contains_any(&edge.layer_names);
        }
        true
    }
}

} // verus!
