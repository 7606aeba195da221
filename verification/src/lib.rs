//! Neuradix platform foundations: deployment graph validation, bounded Python
//! worker supervision decisions, and deterministic recording containers.
pub mod graph;
pub mod python;
pub mod record;
pub mod text;
