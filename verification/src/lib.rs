//! Resolution and retrieval planning for packages of an npm-style registry:
//! a verified parser for the registry's version-range syntax, a version
//! selector, a dependency-graph walker, and checksum bookkeeping for
//! downloaded archives.

pub mod artifact;
pub mod commands;
pub mod errors;
pub mod matching;
pub mod registry;
pub mod serde;
pub mod utils;
pub mod version;
