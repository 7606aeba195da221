//! Deployment graph compiler: a declarative deployment manifest becomes a
//! validated topology, and policy violations are reported before anything is
//! wired at runtime. Validation is pure and offline.
pub mod delay;
pub mod yaml;
pub mod configuration;
pub mod model;
pub mod registry;
pub mod issues;
pub mod assemble;
pub mod policy;
pub mod cycle;
pub mod identity;
pub mod canonical;
pub mod reorder;
pub mod validate;
