//! Recursive size aggregation of filesystem snapshots, a total order on
//! per-path results, and byte-size rendering.

pub mod format;
pub mod order;
pub mod report;
pub mod tree;
