//! Network topology: following a host name to its addresses, keeping what
//! was found in a bounded cache, and resolving hosts in batches.

pub mod names;
pub mod settings;
pub mod doh;
pub mod chain;
pub mod cache;
pub mod batch;
