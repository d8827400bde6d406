//! Radial focus-graph layout and navigation for a mind map: a tree of circular
//! nodes, a focus node whose neighbours orbit it, and hit-testing of pointer
//! positions against the orbiting nodes.

pub mod error;
pub mod geometry;
pub mod graph_store;
pub mod layout;
pub mod mind_graph;

pub use error::MindGraphError;
pub use geometry::Point;
pub use graph_store::{Circle, CircleGraph};
pub use layout::{slot_angle, Angle};
pub use mind_graph::MindGraph;
