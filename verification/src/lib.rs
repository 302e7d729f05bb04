//! Computational histories of the variables of an automatic-differentiation graph:
//! the forward and backward paths of nodes keyed by their operation identifiers,
//! the buffers that list those nodes in evaluation order, and the sets of
//! changeable nodes and parameters that a history gathers.

pub mod counter;
pub mod key_order;
pub mod path;
pub mod history;
pub mod diff_history;
pub mod ops;
pub mod laws;
