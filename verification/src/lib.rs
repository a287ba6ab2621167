//! Connecting and disconnecting two-way peg data.

pub mod address;
pub mod bundle;
pub mod collect;
pub mod connect;
pub mod data;
pub mod disconnect;
pub mod error;
pub mod guard;
pub mod laws;
pub mod order;
pub mod output;
pub mod rollback;
pub mod state;
pub mod sum;
pub mod table;
