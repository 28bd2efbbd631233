//! Parsing layer for legacy train-simulation content: a route-script
//! directive preprocessor, a mesh-instruction post-processor, and the
//! small parsers and data types that support them.

pub mod datatypes;
pub mod extensions_cfg;
pub mod filesystem;
pub mod kvp;
pub mod laws;
pub mod mesh;
pub mod mip;
pub mod numeric_bool;
pub mod random;
pub mod route;
pub mod span;
pub mod text;
pub mod train_dat;

pub use span::Span;
