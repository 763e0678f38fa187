//! portpeek: is a service listening on these TCP ports?
//!
//! The library holds the tool's logic: reading port specs and durations, the
//! gate that keeps scans on this machine unless remote hosts are allowed, the
//! service table, the ordering and counting of probe results, the decisions of
//! a wait, and the text of the report. Connecting, sleeping and printing are
//! left to the caller.

pub mod gate;
pub mod parse;
pub mod report;
pub mod scan;
pub mod services;
pub mod span;
pub mod text;
pub mod wait;
