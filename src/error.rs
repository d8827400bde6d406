use vstd::prelude::*;

verus! {

/// Failures of the graph and focus operations: each one means that the caller
/// named a node that does not exist.
#[derive(Debug, Clone, Copy, PartialEq, Eq, Structural)]
pub enum MindGraphError {
    /// `add_node` was given a parent that is not in the graph.
    InvalidParent,
    /// `set_focus` was given a node that is not in the graph.
    InvalidFocus,
    /// A lookup named a node that is not in the graph.
    NotFound,
}

} // verus!
