//! Column, filter and sort engine for a disk usage report.
//!
//! Mount records come in as plain values; the library resolves columns by
//! name, parses typed literals, orders records by a sort directive and keeps
//! the records that a filter expression accepts.
pub mod text;
pub mod col;
pub mod value;
pub mod record;
pub mod overlay;
pub mod sorting;
pub mod filter;
pub mod args;
pub mod pipeline;
