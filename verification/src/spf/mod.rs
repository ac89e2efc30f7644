//! Sender Policy Framework: reading a record, evaluating it for a candidate
//! address, and walking the graph of records that include or redirect to one
//! another.

pub mod record;
pub mod evaluate;
pub mod graph;
