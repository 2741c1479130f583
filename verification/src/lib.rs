//! A dependency-version-resolution engine: given top-level requirements and
//! an interpreter-environment description, it selects one artifact per
//! package name satisfying every direct and transitive constraint, or
//! explains why no such selection exists.

pub mod derivation;
pub mod error;
pub mod index;
pub mod package;
pub mod range;
pub mod reporter;
pub mod selector;
pub mod solver;
pub mod text;
pub mod trusted_url;
pub mod version;
pub mod version_map;
