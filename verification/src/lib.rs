//! Incremental retained-tree mutation engine for a UI renderer.
//!
//! The engine consumes an ordered stream of structural edit operations and
//! applies them to a persistent render tree, while keeping three derived
//! indices consistent with the new tree shape: a layout tree, a paint-layer
//! assignment and a paragraph registry.  On every structural removal it runs
//! a cascading cleanup over those indices and accumulates a single dirty
//! rectangle for the frame.

pub mod rect;
pub mod registries;
pub mod layout;
pub mod node;
pub mod edit;
pub mod template;
pub mod writer;
pub mod laws;
pub mod values;
