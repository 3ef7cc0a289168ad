//! Storage and query core of a temporal multigraph: time indices, the graph
//! store with its mutation operations, time semantics over windows and layer
//! sets, and composable views over a base graph.
//!
//! A [`graph::Graph`] owns the history: vertices, edges in layers, deletions
//! and properties, each with its times. History is only ever extended
//! ([`mutation`], [`history`]). Every query is answered from the store
//! within the bounds, the layers and the vertices of a view
//! ([`time_semantics`], [`graph_view_ops`]); a view holds a reference to its
//! base and narrows one of the three ([`windowed_graph`], [`layered_graph`],
//! [`subgraph`]), so that a stack of views answers as one view with all the
//! restrictions, and as the graph that holds nothing else
//! ([`restriction`]).

pub mod core_deletion_ops;
pub mod core_ops;
pub mod entities;
pub mod errors;
pub mod filters;
pub mod graph;
pub mod graph_view_ops;
pub mod graphgen;
pub mod history;
pub mod layered_graph;
pub mod layers;
pub mod mutation;
pub mod props;
pub mod restriction;
pub mod subgraph;
pub mod time;
pub mod time_index;
pub mod time_semantics;
pub mod windowed_graph;
