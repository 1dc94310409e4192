//! Records, events and errors of the bridge, with their mathematical views.

use crate::hashing::H256;
use vstd::prelude::*;

verus! {

/// Why a bridge call was refused. Each call returns the first that applies.
#[derive(Debug, Clone, Copy, PartialEq, Eq)]
pub enum BridgeError {
    /// A deposit for this external transaction hash already exists.
    DepositAlreadyExists,
    /// No deposit exists for this external transaction hash.
    InvalidTxHash,
    /// A withdrawal with the computed record hash already exists.
    WithdrawAlreadyExists,
    /// No withdrawal exists for this record hash.
    InvalidRecordHash,
    /// The target differs from the one in the record.
    AccountMismatch,
    /// The quantity differs from the one in the record.
    QuantityMismatch,
    /// The record is already finalized.
    AlreadyCompleted,
    /// The caller is not a current authority.
    NotAuthority,
    /// The caller has already attested this record.
    DuplicateAttestation,
    /// The caller holds less than the quantity to withdraw.
    InsufficientBalance,
    /// The ledger could not burn the withdrawn quantity at finalization.
    LedgerBurnFailure,
    /// The ledger could not mint the deposited quantity at finalization: the
    /// balance or the issuance would exceed the largest balance.
    LedgerMintOverflow,
    /// A record index would exceed the largest `u32`.
    CounterOverflow,
}

impl BridgeError {
    /// The short message that describes the error.
    pub fn message(&self) -> &'static str {
        match self {
            BridgeError::DepositAlreadyExists => "Deposit should not exist",
            BridgeError::InvalidTxHash => "Invalid transaction hash",
            BridgeError::WithdrawAlreadyExists => "Withdraw already exists",
            BridgeError::InvalidRecordHash => "Invalid record hash",
            BridgeError::AccountMismatch => "Accounts do not match",
            BridgeError::QuantityMismatch => "Quantities don't match",
            BridgeError::AlreadyCompleted => "Transaction already completed",
            BridgeError::NotAuthority => "Invalid non-authority sender",
            BridgeError::DuplicateAttestation => "Invalid duplicate signings",
            BridgeError::InsufficientBalance => "Invalid balance for withdraw",
            BridgeError::LedgerBurnFailure => "Ledger could not burn the quantity",
            BridgeError::LedgerMintOverflow => "Ledger could not mint the quantity",
            BridgeError::CounterOverflow => "Record counter overflow",
        }
    }
}

/// A proposal to credit `target` with `quantity`, keyed by an external
/// transaction hash.
#[derive(Debug, Clone, PartialEq, Eq)]
pub struct DepositRecord {
    pub index: u32,
    pub target: u64,
    pub quantity: u64,
    /// The authorities that attested, in order of arrival.
    pub signers: Vec<u64>,
    pub completed: bool,
}

/// The mathematical view of a deposit record.
pub struct DepositRecordView {
    pub index: u32,
    pub target: u64,
    pub quantity: u64,
    pub signers: Seq<u64>,
    pub completed: bool,
}

impl View for DepositRecord {
    type V = DepositRecordView;

    open spec fn view(&self) -> DepositRecordView {
        DepositRecordView {
            index: self.index,
            target: self.target,
            quantity: self.quantity,
            signers: self.signers@,
            completed: self.completed,
        }
    }
}

/// A proposal to debit `target` by `quantity`, keyed by a record hash derived
/// from the target's nonce.
#[derive(Debug, Clone, PartialEq, Eq)]
pub struct WithdrawRecord {
    pub index: u32,
    pub target: u64,
    pub quantity: u64,
    /// The authorities that attested, each with its cross-chain signature
    /// bundle, in order of arrival.
    pub signers: Vec<(u64, Vec<u8>)>,
    pub completed: bool,
}

/// The mathematical view of a withdrawal record.
pub struct WithdrawRecordView {
    pub index: u32,
    pub target: u64,
    pub quantity: u64,
    pub signers: Seq<(u64, Seq<u8>)>,
    pub completed: bool,
}

/// The view of one attestation of a withdrawal.
pub open spec fn signature_view(s: (u64, Vec<u8>)) -> (u64, Seq<u8>) {
    (s.0, s.1@)
}

impl View for WithdrawRecord {
    type V = WithdrawRecordView;

    open spec fn view(&self) -> WithdrawRecordView {
        WithdrawRecordView {
            index: self.index,
            target: self.target,
            quantity: self.quantity,
            signers: self.signers@.map_values(|s: (u64, Vec<u8>)| signature_view(s)),
            completed: self.completed,
        }
    }
}

/// The accounts that attested a withdrawal, in order.
pub open spec fn signer_ids(signers: Seq<(u64, Seq<u8>)>) -> Seq<u64> {
    signers.map_values(|s: (u64, Seq<u8>)| s.0)
}

/// What the bridge reports to observers.
#[derive(Debug, Clone, PartialEq, Eq)]
pub enum Event {
    /// A deposit was proposed: target, external transaction hash, quantity.
    Deposit(u64, H256, u64),
    /// A withdrawal was proposed: target, quantity.
    Withdraw(u64, u64),
    /// A new authority set was applied.
    NewAuthorities(Vec<u64>),
}

/// The mathematical view of an event.
pub enum EventView {
    Deposit(u64, Seq<u8>, u64),
    Withdraw(u64, u64),
    NewAuthorities(Seq<u64>),
}

impl View for Event {
    type V = EventView;

    open spec fn view(&self) -> EventView {
        match self {
            Event::Deposit(t, h, q) => EventView::Deposit(*t, h@, *q),
            Event::Withdraw(t, q) => EventView::Withdraw(*t, *q),
            Event::NewAuthorities(l) => EventView::NewAuthorities(l@),
        }
    }
}

} // verus!
