//! A payment splitter: splits are defined once (recipients and their shares in
//! basis points) and then executed to divide a payment among the recipients.
//!
//! `types` holds the data of a split and the values the library hands back,
//! `shares` the share and payout arithmetic, `ops` the decisions taken on one
//! stored split, `contract` the contract's storage with its public operations,
//! and `laws` the properties that span several operations.

pub mod types;
pub mod shares;
pub mod ops;
pub mod contract;
pub mod laws;

pub use contract::{ContractState, DataKey, SorobanSplitContract, StorageTier};
pub use shares::{plan_payouts, recipient_amount, sum_shares, TOTAL_BASIS_POINTS};
pub use types::{Address, ContractEvent, Split, SplitError, Transfer};
