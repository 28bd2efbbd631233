//! The route-script directive preprocessor: diagnostics, directive
//! recognition, the rewriting passes, and include resolution.

pub mod errors;
pub mod inclusion;
pub mod passes;
pub mod pat;
pub mod submap;
