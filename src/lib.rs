//! Aggregates the sizes of the defined symbols of an object file by the
//! first path segment of their demangled names, and renders the result.
pub mod group;
pub mod aggregate;
pub mod analyze;
pub mod report;

pub use aggregate::{SymbolInfo, SymbolRecord};
