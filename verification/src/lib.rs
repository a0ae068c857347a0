//! An ordered static-registration library: scattered declaration sites
//! contribute payloads to named registries, and a collector materializes,
//! once per registry, the ordered collection of those payloads.

pub mod decimal;
pub mod dir;
pub mod invoke_list;
pub mod registry;
pub mod render;
