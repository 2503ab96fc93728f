//! Inventory of a directory tree: which walked entries are reported, how the
//! per-file records are gathered and ordered, and how the report rows are
//! rendered. Walking the tree, reading metadata and writing the report file
//! are left to the caller.

pub mod record;
pub mod sort;
pub mod select;
pub mod collect;
pub mod report;
pub mod scan;
