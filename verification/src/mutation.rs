//! The mutation operations of a graph: typed entry points that resolve the
//! time given and hand the operation to the store.

use vstd::prelude::*;
use vstd::string::StringSliceAdditionalSpecFns;
use crate::core_ops::CoreGraphOps;
use crate::errors::GraphError;
use crate::graph::{layer_name, Graph, GraphView};
use crate::props::{named_values, Prop, PropValue};
use crate::time::{parse_time, parse_time_spec};
use crate::time_index::TimeIndexEntry;

verus! {

/// A time as a caller gives it: a number of milliseconds, or text with the
/// format to read it against.
pub trait TryIntoTime: Sized {
    /// The time that the value gives, if it gives one.
    spec fn time_value(&self) -> Option<i64>;

    fn try_into_time(self) -> (r: Result<i64, GraphError>)
        ensures
            match self.time_value() {
                Some(t) => r == Ok::<i64, GraphError>(t),
                None => r == Err::<i64, GraphError>(GraphError::ParseTime),
            },
    ;
}

impl TryIntoTime for i64 {
    open spec fn time_value(&self) -> Option<i64> {
        Some(*self)
    }

    fn try_into_time(self) -> (r: Result<i64, GraphError>) {
        Ok(self)
    }
}

/// A time string with the format to read it against.
pub struct FormattedTime<'a> {
    pub time: &'a str,
    pub format: &'a str,
}

impl<'a> TryIntoTime for FormattedTime<'a> {
    open spec fn time_value(&self) -> Option<i64> {
        parse_time_spec(self.time.spec_bytes(), self.format.spec_bytes())
    }

    fn try_into_time(self) -> (r: Result<i64, GraphError>) {
        parse_time(self.time, self.format)
    }
}

impl TimeIndexEntry {
    /// The entry of the next edge event of `graph` at the time `t`: the
    /// time that `t` gives, with the next secondary key of the store.
    pub fn from_input<T: TryIntoTime>(graph: &Graph, t: T) -> (r: Result<TimeIndexEntry, GraphError>)
        ensures
            match t.time_value() {
                Some(time) => r == Ok::<TimeIndexEntry, GraphError>(
                    TimeIndexEntry(time, graph@.next_event),
                ),
                None => r == Err::<TimeIndexEntry, GraphError>(GraphError::ParseTime),
            },
    {
        match t.try_into_time() {
            Ok(time) => Ok(TimeIndexEntry(time, graph.next_event_id())),
            Err(e) => Err(e),
        }
    }
}

/// The result and the store after `add_vertex`.
pub open spec fn add_vertex_outcome(
    g: GraphView,
    time: Option<i64>,
    id: u64,
    props: Seq<(Seq<char>, PropValue)>,
) -> (Result<(), GraphError>, GraphView) {
    match time {
        None => (Err(GraphError::ParseTime), g),
        Some(t) => (Ok(()), g.add_vertex(t, id, props)),
    }
}

/// The result and the store after `add_edge`.
pub open spec fn add_edge_outcome(
    g: GraphView,
    time: Option<i64>,
    src: u64,
    dst: u64,
    props: Seq<(Seq<char>, PropValue)>,
    layer: Option<Seq<char>>,
) -> (Result<(), GraphError>, GraphView) {
    match time {
        None => (Err(GraphError::ParseTime), g),
        Some(t) => (Ok(()), g.add_edge(t, src, dst, props, layer)),
    }
}

/// The result and the store after `delete_edge`.
pub open spec fn delete_edge_outcome(
    g: GraphView,
    time: Option<i64>,
    src: u64,
    dst: u64,
    layer: Option<Seq<char>>,
) -> (Result<(), GraphError>, GraphView) {
    match time {
        None => (Err(GraphError::ParseTime), g),
        Some(t) => match g.layer_of(layer) {
            None => (Err(GraphError::InvalidLayer), g),
            Some(l) => (Ok(()), g.delete_edge(t, src, dst, l)),
        },
    }
}

/// The result and the store after `add_vertex_properties`.
pub open spec fn add_vertex_properties_outcome(
    g: GraphView,
    v: u64,
    props: Seq<(Seq<char>, PropValue)>,
) -> (Result<(), GraphError>, GraphView) {
    match g.vertex_index(v) {
        None => (Err(GraphError::VertexNotFound), g),
        Some(i) => (Ok(()), g.set_vertex_static(i, props)),
    }
}

/// The result and the store after `add_edge_properties`.
pub open spec fn add_edge_properties_outcome(
    g: GraphView,
    src: u64,
    dst: u64,
    props: Seq<(Seq<char>, PropValue)>,
    layer: Option<Seq<char>>,
) -> (Result<(), GraphError>, GraphView) {
    match (g.layer_of(layer), g.find_edge(src, dst)) {
        (None, _) => (Err(GraphError::InvalidLayer), g),
        (Some(_), None) => (Err(GraphError::EdgeNotFound), g),
        (Some(_), Some(e)) => (Ok(()), g.set_edge_static(e, props)),
    }
}

/// The result and the store after `add_properties`.
pub open spec fn add_properties_outcome(
    g: GraphView,
    time: Option<i64>,
    props: Seq<(Seq<char>, PropValue)>,
) -> (Result<(), GraphError>, GraphView) {
    match time {
        None => (Err(GraphError::ParseTime), g),
        Some(t) => (Ok(()), g.add_properties(t, props)),
    }
}

/// Additions of vertices and edges. An addition merges into what is
/// there: it fails only if the time given cannot be read, and then it has
/// no effect.
pub trait AdditionOps: CoreGraphOps {
    fn add_vertex<T: TryIntoTime>(&mut self, t: T, id: u64, props: &Vec<(String, Prop)>) -> (r:
        Result<(), GraphError>)
        requires
            old(self).valid(),
        ensures
            final(self).valid(),
            (r, final(self).store()) == add_vertex_outcome(
                old(self).store(),
                t.time_value(),
                id,
                named_values(props@),
            ),
    ;

    fn add_edge<T: TryIntoTime>(
        &mut self,
        t: T,
        src: u64,
        dst: u64,
        props: &Vec<(String, Prop)>,
        layer: Option<&str>,
    ) -> (r: Result<(), GraphError>)
        requires
            old(self).valid(),
        ensures
            final(self).valid(),
            (r, final(self).store()) == add_edge_outcome(
                old(self).store(),
                t.time_value(),
                src,
                dst,
                named_values(props@),
                layer_name(layer),
            ),
    ;
}

/// Deletions of edges. A deletion fails, without effect, if the time given
/// cannot be read or if no layer has the name given.
pub trait DeletionOps: CoreGraphOps {
    fn delete_edge<T: TryIntoTime>(&mut self, t: T, src: u64, dst: u64, layer: Option<&str>) -> (r:
        Result<(), GraphError>)
        requires
            old(self).valid(),
        ensures
            final(self).valid(),
            (r, final(self).store()) == delete_edge_outcome(
                old(self).store(),
                t.time_value(),
                src,
                dst,
                layer_name(layer),
            ),
    ;

    fn delete_edge_with_custom_time_format(
        &mut self,
        t: &str,
        fmt: &str,
        src: u64,
        dst: u64,
        layer: Option<&str>,
    ) -> (r: Result<(), GraphError>)
        requires
            old(self).valid(),
        ensures
            final(self).valid(),
            (r, final(self).store()) == delete_edge_outcome(
                old(self).store(),
                parse_time_spec(t.spec_bytes(), fmt.spec_bytes()),
                src,
                dst,
                layer_name(layer),
            ),
    {
        match parse_time(t, fmt) {
            Ok(time) => self.delete_edge(time, src, dst, layer),
            Err(e) => Err(e),
        }
    }
}

/// Additions of properties to what is there.
pub trait PropertyAdditionOps: CoreGraphOps {
    /// Sets static properties on the vertex `v`. Fails, without effect,
    /// if there is no such vertex.
    fn add_vertex_properties(&mut self, v: u64, data: &Vec<(String, Prop)>) -> (r: Result<
        (),
        GraphError,
    >)
        requires
            old(self).valid(),
        ensures
            final(self).valid(),
            (r, final(self).store()) == add_vertex_properties_outcome(
                old(self).store(),
                v,
                named_values(data@),
            ),
    ;

    /// Merges `props` into the temporal properties of the graph at the
    /// time given. Fails, without effect, if the time cannot be read.
    fn add_properties<T: TryIntoTime>(&mut self, t: T, props: &Vec<(String, Prop)>) -> (r: Result<
        (),
        GraphError,
    >)
        requires
            old(self).valid(),
        ensures
            final(self).valid(),
            (r, final(self).store()) == add_properties_outcome(
                old(self).store(),
                t.time_value(),
                named_values(props@),
            ),
    ;

    /// Sets static properties on the graph.
    fn add_static_properties(&mut self, props: &Vec<(String, Prop)>) -> (r: Result<(), GraphError>)
        requires
            old(self).valid(),
        ensures
            final(self).valid(),
            r == Ok::<(), GraphError>(()),
            final(self).store() == old(self).store().add_static_properties(named_values(props@)),
    ;

    /// Sets static properties on the edge from `src` to `dst`. Fails,
    /// without effect, if no layer has the name given or if there is no
    /// such edge.
    fn add_edge_properties(
        &mut self,
        src: u64,
        dst: u64,
        props: &Vec<(String, Prop)>,
        layer: Option<&str>,
    ) -> (r: Result<(), GraphError>)
        requires
            old(self).valid(),
        ensures
            final(self).valid(),
            (r, final(self).store()) == add_edge_properties_outcome(
                old(self).store(),
                src,
                dst,
                named_values(props@),
                layer_name(layer),
            ),
    ;
}

impl AdditionOps for Graph {
    fn add_vertex<T: TryIntoTime>(&mut self, t: T, id: u64, props: &Vec<(String, Prop)>) -> (r:
        Result<(), GraphError>) {
        match t.try_into_time() {
            Ok(time) => self.internal_add_vertex(time, id, props),
            Err(e) => Err(e),
        }
    }

    fn add_edge<T: TryIntoTime>(
        &mut self,
        t: T,
        src: u64,
        dst: u64,
        props: &Vec<(String, Prop)>,
        layer: Option<&str>,
    ) -> (r: Result<(), GraphError>) {
        match t.try_into_time() {
            Ok(time) => self.internal_add_edge(time, src, dst, props, layer),
            Err(e) => Err(e),
        }
    }
}

impl DeletionOps for Graph {
    fn delete_edge<T: TryIntoTime>(&mut self, t: T, src: u64, dst: u64, layer: Option<&str>) -> (r:
        Result<(), GraphError>) {
        match t.try_into_time() {
            Ok(time) => self.internal_delete_edge(time, src, dst, layer),
            Err(e) => Err(e),
        }
    }
}

impl PropertyAdditionOps for Graph {
    fn add_vertex_properties(&mut self, v: u64, data: &Vec<(String, Prop)>) -> (r: Result<
        (),
        GraphError,
    >) {
        self.internal_add_vertex_properties(v, data)
    }

    fn add_properties<T: TryIntoTime>(&mut self, t: T, props: &Vec<(String, Prop)>) -> (r: Result<
        (),
        GraphError,
    >) {
        match t.try_into_time() {
            Ok(time) => self.internal_add_properties(time, props),
            Err(e) => Err(e),
        }
    }

    fn add_static_properties(
        &mut self,
        props: &Vec<(String, Prop)>,
    ) -> (r: Result<(), GraphError>) {
        self.internal_add_static_properties(props)
    }

    fn add_edge_properties(
        &mut self,
        src: u64,
        dst: u64,
        props: &Vec<(String, Prop)>,
        layer: Option<&str>,
    ) -> (r: Result<(), GraphError>) {
        self.internal_add_edge_properties(src, dst, props, layer)
    }
}

} // verus!
