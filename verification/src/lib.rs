//! Reversible package-manager transactions: build install or purge commands
//! as plain data, classify how a run of one turned out, record each
//! successful installation in an append-only log of timestamped records, and
//! find in that log the transaction a rollback should reverse.

use vstd::prelude::*;

pub mod command;
pub mod executor;
pub mod record;
pub mod resolver;
pub mod store;
pub mod timestamp;

verus! {

} // verus!
