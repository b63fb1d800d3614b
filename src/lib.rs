//! Two small account-based programs modelled over an in-memory ledger: a
//! lamport vault guarded by a lock and a registry of topic-tagged posts.
//! Every instruction validates its accounts, then either commits all of its
//! writes (and its event) or fails leaving the ledger untouched.
pub mod address;
pub mod constraints;
pub mod errors;
pub mod events;
pub mod ledger;
pub mod state;
pub mod vault;
pub mod twitter;
