//! An election ledger: organizations registered by an owner create time-boxed
//! elections, and every voter casts at most one ballot in each of them.
//!
//! The ledger is a state machine over five tables. Caller identity, current
//! time and attached payment are handed to every operation as plain values.
//!
//! - [`ledger`] holds the ledger and its operations; [`model`] says what
//!   they mean and [`laws`] what follows.
//! - [`election`], [`account`], [`error`] and [`fee`] hold what the
//!   operations take and give.
//! - [`decimal`] reads and writes numbers as text.
//! - [`table`], [`keys`] and [`assoc`] hold the tables.
//! - [`snapshot`] and [`audit`] hand the tables to a host that stores them,
//!   and take them back.

pub mod account;
pub mod assoc;
pub mod audit;
pub mod decimal;
pub mod election;
pub mod error;
pub mod fee;
pub mod keys;
pub mod laws;
pub mod ledger;
pub mod model;
pub mod snapshot;
pub mod table;

pub use account::AccountId;
pub use election::{Candidate, Election, ElectionInput, ElectionView};
pub use error::{ElectionError, ValidationError};
pub use fee::to_yocto;
pub use ledger::Elections;
pub use snapshot::Snapshot;
