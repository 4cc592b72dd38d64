//! Retrieval and aggregation engine for nuclear-decay radiation records.
//!
//! Given user-written nuclide identifiers and a pool of decay records keyed
//! only by parent excitation energy, the library isolates the records that
//! belong to each requested isomeric state, computes the normalization
//! factor, and orders the records for reporting.

pub mod ident;
pub mod cli;
pub mod nuclide;
pub mod mcnp;
pub mod records;
pub mod resolve;
pub mod sort;
pub mod wrappers;
