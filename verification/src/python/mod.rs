//! Decisions and bounded state for isolated Python worker processes: validated
//! I/O limits and deadlines, newline framing, heartbeat responsiveness and
//! resource policy. Process and pipe handling stays with the caller.
pub mod config;
pub mod error;
pub mod resource;
pub mod time;
pub mod heartbeat;
pub mod launcher;
pub mod protocol;
pub mod deadline;
pub mod session;
