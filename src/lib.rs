//! Data engine of a pager for large, possibly still-growing tabular files:
//! an incremental row index, schema widening, column statistics and a
//! windowed cache over a row source.

pub mod index;
pub mod schema;
pub mod stats;
pub mod kind;
pub mod prompt;
pub mod source;
pub mod cache;
pub mod text;
