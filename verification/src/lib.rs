//! State-synchronization and spend-construction engine of a shielded light
//! client wallet: reconstructs the wallet's spendable value by scanning blocks,
//! keeps notes, nullifiers and incremental witnesses mutually consistent, and
//! plans outgoing transactions against that state.

pub mod advance;
pub mod integrity;
pub mod laws;
pub mod notes;
pub mod reads;
pub mod rewind;
pub mod scan;
pub mod spend;
pub mod store;
pub mod txstore;
pub mod types;
