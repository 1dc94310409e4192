//! A two-way peg bridge: a multi-signature witness state machine that mints
//! native balance for attested deposits and burns it for attested withdrawals.

pub mod approval;
pub mod bridge;
pub mod hashing;
pub mod laws;
pub mod ledger;
pub mod types;

pub use bridge::{Bridge, BridgeView};
pub use hashing::{hash_of, withdraw_key, H256};
pub use ledger::{Ledger, LedgerError};
pub use types::{BridgeError, DepositRecord, Event, WithdrawRecord};
