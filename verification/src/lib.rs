//! A verified compiler from streams of cross-reference facts (node and edge
//! records keyed by external "tickets") into a typed semantic graph, together
//! with the derived views that consumers read: resolved entity names, parent
//! containment, and aggregated typed dependency edges.

pub mod collections;
pub mod data_structures;
pub mod edge_kind;
pub mod entity;
pub mod errors;
pub mod exclusion;
pub mod node_kind;
pub mod path_filtering;
pub mod raw_graph;
pub mod raw_node;
pub mod spec_graph;
pub mod stats;
pub mod strutil;
pub mod ticket;
pub mod util;
