//! The bridge state machine: the authority registry, the proposal store, and
//! the deposit and withdrawal flows that attest, approve and settle proposals.

use crate::approval::{approves, lemma_sum_of_push, lemma_sum_of_update, signers_approve, stake, sum_of};
use crate::hashing::{blake2_256_of, same_hash, withdraw_key, withdraw_key_bytes, H256};
use crate::ledger::{burned, minted, Ledger};
use crate::types::{
    signature_view, signer_ids, BridgeError, DepositRecord, DepositRecordView, Event, EventView,
    WithdrawRecord, WithdrawRecordView,
};
use std::collections::HashMap;
use vstd::prelude::*;

verus! {

broadcast use vstd::std_specs::hash::group_hash_axioms;

/// The mathematical view of the bridge.
pub struct BridgeView {
    /// The current authorities, in order.
    pub authorities: Seq<u64>,
    pub deposit_count: nat,
    /// Deposit keys in order of creation; `deposit_records[i]` is the record
    /// of `deposits[i]`.
    pub deposits: Seq<Seq<u8>>,
    pub deposit_records: Seq<DepositRecordView>,
    pub withdraw_count: nat,
    /// Withdrawal keys in order of creation; `withdraw_records[i]` is the
    /// record of `withdraws[i]`.
    pub withdraws: Seq<Seq<u8>>,
    pub withdraw_records: Seq<WithdrawRecordView>,
    /// Withdrawal nonces; an account not present has nonce zero.
    pub nonces: Map<u64, u32>,
    /// The events reported so far, oldest first.
    pub events: Seq<EventView>,
    /// The ledger the bridge settles into.
    pub ledger: Ledger,
}

/// Counts a withdrawal record when `a` made it.
pub open spec fn made_by(a: u64) -> spec_fn(WithdrawRecordView) -> int {
    |r: WithdrawRecordView|
        if r.target == a {
            1int
        } else {
            0int
        }
}

/// The quantity a deposit record has minted: its quantity once completed.
pub open spec fn deposit_settled() -> spec_fn(DepositRecordView) -> int {
    |r: DepositRecordView|
        if r.completed {
            r.quantity as int
        } else {
            0int
        }
}

/// The quantity a withdrawal record has burned: its quantity once completed.
pub open spec fn withdraw_settled() -> spec_fn(WithdrawRecordView) -> int {
    |r: WithdrawRecordView|
        if r.completed {
            r.quantity as int
        } else {
            0int
        }
}

impl BridgeView {
    /// Whether `a` is a current authority.
    pub open spec fn is_authority(self, a: u64) -> bool {
        self.authorities.contains(a)
    }

    /// Whether a deposit is keyed by `h`.
    pub open spec fn has_deposit(self, h: Seq<u8>) -> bool {
        self.deposits.contains(h)
    }

    /// The position of the deposit keyed by `h`.
    pub open spec fn deposit_index(self, h: Seq<u8>) -> int {
        choose|i: int| 0 <= i < self.deposits.len() && self.deposits[i] == h
    }

    /// The deposit record keyed by `h`, if any.
    pub open spec fn deposit_of(self, h: Seq<u8>) -> Option<DepositRecordView> {
        if self.has_deposit(h) {
            Some(self.deposit_records[self.deposit_index(h)])
        } else {
            None
        }
    }

    /// Whether a withdrawal is keyed by `h`.
    pub open spec fn has_withdraw(self, h: Seq<u8>) -> bool {
        self.withdraws.contains(h)
    }

    /// The position of the withdrawal keyed by `h`.
    pub open spec fn withdraw_index(self, h: Seq<u8>) -> int {
        choose|i: int| 0 <= i < self.withdraws.len() && self.withdraws[i] == h
    }

    /// The withdrawal record keyed by `h`, if any.
    pub open spec fn withdraw_of(self, h: Seq<u8>) -> Option<WithdrawRecordView> {
        if self.has_withdraw(h) {
            Some(self.withdraw_records[self.withdraw_index(h)])
        } else {
            None
        }
    }

    /// The withdrawal nonce of `a`, zero when `a` has none yet.
    pub open spec fn nonce_of(self, a: u64) -> nat {
        if self.nonces.contains_key(a) {
            self.nonces[a] as nat
        } else {
            0
        }
    }

    /// How many withdrawal records `a` has made.
    pub open spec fn withdrawals_made_by(self, a: u64) -> int {
        sum_of(self.withdraw_records, made_by(a))
    }

    /// Quantities minted by completed deposits less those burned by completed
    /// withdrawals.
    pub open spec fn settled(self) -> int {
        sum_of(self.deposit_records, deposit_settled()) - sum_of(
            self.withdraw_records,
            withdraw_settled(),
        )
    }

    /// The invariant of the authority registry and the proposal store.
    pub open spec fn wf(self) -> bool {
        &&& self.authorities.no_duplicates()
        &&& self.deposit_count == self.deposits.len()
        &&& self.deposit_records.len() == self.deposits.len()
        &&& self.deposit_count <= u32::MAX
        &&& self.deposits.no_duplicates()
        &&& forall|i: int|
            0 <= i < self.deposit_records.len() ==> #[trigger] self.deposit_records[i].index == i
        &&& forall|i: int|
            0 <= i < self.deposit_records.len()
                ==> (#[trigger] self.deposit_records[i]).signers.no_duplicates()
        &&& self.withdraw_count == self.withdraws.len()
        &&& self.withdraw_records.len() == self.withdraws.len()
        &&& self.withdraw_count <= u32::MAX
        &&& self.withdraws.no_duplicates()
        &&& forall|i: int|
            0 <= i < self.withdraw_records.len() ==> #[trigger] self.withdraw_records[i].index
                == i
        &&& forall|i: int|
            0 <= i < self.withdraw_records.len() ==> signer_ids(
                (#[trigger] self.withdraw_records[i]).signers,
            ).no_duplicates()
        &&& forall|a: u64| #[trigger] self.nonce_of(a) == self.withdrawals_made_by(a)
    }

    /// What `deposit` of `h` returns.
    pub open spec fn deposit_outcome(self, h: Seq<u8>) -> Result<(), BridgeError> {
        if self.has_deposit(h) {
            Err(BridgeError::DepositAlreadyExists)
        } else if self.deposit_count >= u32::MAX {
            Err(BridgeError::CounterOverflow)
        } else {
            Ok(())
        }
    }

    /// The bridge after `sender` proposes a deposit of `quantity` to `target`
    /// for the external transaction `h`.
    pub open spec fn after_deposit(self, sender: u64, target: u64, h: Seq<u8>, quantity: u64) -> BridgeView {
        BridgeView {
            deposit_count: self.deposit_count + 1,
            deposits: self.deposits.push(h),
            deposit_records: self.deposit_records.push(
                DepositRecordView {
                    index: self.deposit_count as u32,
                    target,
                    quantity,
                    signers: if self.is_authority(sender) {
                        seq![sender]
                    } else {
                        Seq::empty()
                    },
                    completed: false,
                },
            ),
            events: self.events.push(EventView::Deposit(target, h, quantity)),
            ..self
        }
    }

    /// The attesters of the deposit keyed by `h` once `sender` joins them.
    pub open spec fn deposit_attesters(self, sender: u64, h: Seq<u8>) -> Seq<u64> {
        self.deposit_records[self.deposit_index(h)].signers.push(sender)
    }

    /// Whether the deposit keyed by `h` is approved once `sender` attests it.
    pub open spec fn deposit_passes(self, sender: u64, h: Seq<u8>) -> bool {
        approves(stake(self.deposit_attesters(sender, h), self.ledger), self.ledger.issuance() as int)
    }

    /// What `sign_deposit` returns: the first check that fails, in order.
    pub open spec fn sign_deposit_outcome(self, sender: u64, target: u64, h: Seq<u8>, quantity: u64) -> Result<(), BridgeError> {
        let rec = self.deposit_records[self.deposit_index(h)];
        if !self.has_deposit(h) {
            Err(BridgeError::InvalidTxHash)
        } else if rec.target != target {
            Err(BridgeError::AccountMismatch)
        } else if rec.quantity != quantity {
            Err(BridgeError::QuantityMismatch)
        } else if rec.completed {
            Err(BridgeError::AlreadyCompleted)
        } else if !self.is_authority(sender) {
            Err(BridgeError::NotAuthority)
        } else if rec.signers.contains(sender) {
            Err(BridgeError::DuplicateAttestation)
        } else if self.deposit_passes(sender, h) && !self.ledger.can_mint(target, quantity) {
            Err(BridgeError::LedgerMintOverflow)
        } else {
            Ok(())
        }
    }

    /// The bridge after `sender` attests the deposit keyed by `h`: the record
    /// gains the attester and is completed when approved; `ledger` is the
    /// ledger after settlement.
    pub open spec fn after_sign_deposit(self, sender: u64, h: Seq<u8>, ledger: Ledger) -> BridgeView {
        let i = self.deposit_index(h);
        let rec = self.deposit_records[i];
        BridgeView {
            deposit_records: self.deposit_records.update(
                i,
                DepositRecordView {
                    signers: rec.signers.push(sender),
                    completed: self.deposit_passes(sender, h),
                    ..rec
                },
            ),
            ledger,
            ..self
        }
    }

    /// The key of the next withdrawal of `quantity` by `sender`: the digest of
    /// the encoded `(nonce, sender, quantity)`.
    pub open spec fn withdraw_key_of(self, sender: u64, quantity: u64) -> Seq<u8> {
        blake2_256_of(withdraw_key_bytes(self.nonce_of(sender) as u32, sender, quantity))
    }

    /// What `withdraw` returns: the first check that fails, in order.
    pub open spec fn withdraw_outcome(self, sender: u64, quantity: u64) -> Result<(), BridgeError> {
        if self.has_withdraw(self.withdraw_key_of(sender, quantity)) {
            Err(BridgeError::WithdrawAlreadyExists)
        } else if self.ledger.balance_of(sender) < quantity {
            Err(BridgeError::InsufficientBalance)
        } else if self.withdraw_count >= u32::MAX {
            Err(BridgeError::CounterOverflow)
        } else {
            Ok(())
        }
    }

    /// The bridge after `sender` proposes to withdraw `quantity`, with the
    /// signature bundle `bundle`, which counts only when `sender` is an
    /// authority.
    pub open spec fn after_withdraw(self, sender: u64, quantity: u64, bundle: Seq<u8>) -> BridgeView {
        BridgeView {
            withdraw_count: self.withdraw_count + 1,
            withdraws: self.withdraws.push(self.withdraw_key_of(sender, quantity)),
            withdraw_records: self.withdraw_records.push(
                WithdrawRecordView {
                    index: self.withdraw_count as u32,
                    target: sender,
                    quantity,
                    signers: if self.is_authority(sender) {
                        seq![(sender, bundle)]
                    } else {
                        Seq::empty()
                    },
                    completed: false,
                },
            ),
            nonces: self.nonces.insert(sender, (self.nonce_of(sender) + 1) as u32),
            events: self.events.push(EventView::Withdraw(sender, quantity)),
            ..self
        }
    }

    /// The attesters of the withdrawal keyed by `h` once `sender` joins them.
    pub open spec fn withdraw_attesters(self, sender: u64, h: Seq<u8>) -> Seq<u64> {
        signer_ids(self.withdraw_records[self.withdraw_index(h)].signers).push(sender)
    }

    /// Whether the withdrawal keyed by `h` is approved once `sender` attests it.
    pub open spec fn withdraw_passes(self, sender: u64, h: Seq<u8>) -> bool {
        approves(stake(self.withdraw_attesters(sender, h), self.ledger), self.ledger.issuance() as int)
    }

    /// What `sign_withdraw` returns: the first check that fails, in order.
    pub open spec fn sign_withdraw_outcome(self, sender: u64, target: u64, h: Seq<u8>, quantity: u64) -> Result<(), BridgeError> {
        let rec = self.withdraw_records[self.withdraw_index(h)];
        if !self.has_withdraw(h) {
            Err(BridgeError::InvalidRecordHash)
        } else if rec.target != target {
            Err(BridgeError::AccountMismatch)
        } else if rec.quantity != quantity {
            Err(BridgeError::QuantityMismatch)
        } else if rec.completed {
            Err(BridgeError::AlreadyCompleted)
        } else if !self.is_authority(sender) {
            Err(BridgeError::NotAuthority)
        } else if signer_ids(rec.signers).contains(sender) {
            Err(BridgeError::DuplicateAttestation)
        } else if self.withdraw_passes(sender, h) && !self.ledger.can_burn(target, quantity) {
            Err(BridgeError::LedgerBurnFailure)
        } else {
            Ok(())
        }
    }

    /// The bridge after `sender` attests the withdrawal keyed by `h` with the
    /// signature bundle `bundle`: the record gains the attestation and is
    /// completed when approved; `ledger` is the ledger after settlement.
    pub open spec fn after_sign_withdraw(self, sender: u64, h: Seq<u8>, bundle: Seq<u8>, ledger: Ledger) -> BridgeView {
        let i = self.withdraw_index(h);
        let rec = self.withdraw_records[i];
        BridgeView {
            withdraw_records: self.withdraw_records.update(
                i,
                WithdrawRecordView {
                    signers: rec.signers.push((sender, bundle)),
                    completed: self.withdraw_passes(sender, h),
                    ..rec
                },
            ),
            ledger,
            ..self
        }
    }

    /// `next` follows `self` in a run of calls: keys and records are only
    /// appended, a completed record never changes again, and the issuance
    /// moves by exactly what records settled in between.
    pub open spec fn settles_into(self, next: BridgeView) -> bool {
        &&& self.deposits.len() <= next.deposits.len()
        &&& self.deposit_records.len() <= next.deposit_records.len()
        &&& self.withdraws.len() <= next.withdraws.len()
        &&& self.withdraw_records.len() <= next.withdraw_records.len()
        &&& forall|i: int| 0 <= i < self.deposits.len() ==> #[trigger] next.deposits[i] == self.deposits[i]
        &&& forall|i: int| 0 <= i < self.withdraws.len() ==> #[trigger] next.withdraws[i] == self.withdraws[i]
        &&& forall|i: int|
            0 <= i < self.deposit_records.len() && (#[trigger] self.deposit_records[i]).completed
                ==> next.deposit_records[i] == self.deposit_records[i]
        &&& forall|i: int|
            0 <= i < self.withdraw_records.len() && (#[trigger] self.withdraw_records[i]).completed
                ==> next.withdraw_records[i] == self.withdraw_records[i]
        &&& next.ledger.issuance() - self.ledger.issuance() == next.settled() - self.settled()
    }
}

/// The bridge: authorities, proposals, nonces, events, and the ledger it
/// settles into.
pub struct Bridge {
    authorities: Vec<u64>,
    deposit_count: u32,
    deposits: Vec<H256>,
    deposit_records: Vec<DepositRecord>,
    withdraw_count: u32,
    withdraws: Vec<H256>,
    withdraw_records: Vec<WithdrawRecord>,
    withdraw_nonce: HashMap<u64, u32>,
    events: Vec<Event>,
    ledger: Ledger,
}

impl View for Bridge {
    type V = BridgeView;

    closed spec fn view(&self) -> BridgeView {
        BridgeView {
            authorities: self.authorities@,
            deposit_count: self.deposit_count as nat,
            deposits: self.deposits@.map_values(|h: H256| h@),
            deposit_records: self.deposit_records@.map_values(|r: DepositRecord| r@),
            withdraw_count: self.withdraw_count as nat,
            withdraws: self.withdraws@.map_values(|h: H256| h@),
            withdraw_records: self.withdraw_records@.map_values(|r: WithdrawRecord| r@),
            nonces: self.withdraw_nonce@,
            events: self.events@.map_values(|e: Event| e@),
            ledger: self.ledger,
        }
    }
}

/// Whether `ids` holds `a`.
fn contains_id(ids: &Vec<u64>, a: u64) -> (r: bool)
    ensures
        r == ids@.contains(a),
{
    let mut i: usize = 0;
    while i < ids.len()
        invariant
            i <= ids@.len(),
            forall|j: int| 0 <= j < i ==> ids@[j] != a,
        decreases ids@.len() - i,
    {
        if ids[i] == a {
            return true;
        }
        i = i + 1;
    }
    false
}

/// Whether `a` and `b` hold the same accounts in the same order.
fn same_ids(a: &Vec<u64>, b: &Vec<u64>) -> (r: bool)
    ensures
        r == (a@ == b@),
{
    if a.len() != b.len() {
        return false;
    }
    let mut i: usize = 0;
    while i < a.len()
        invariant
            i <= a@.len(),
            a@.len() == b@.len(),
            forall|j: int| 0 <= j < i ==> a@[j] == b@[j],
        decreases a@.len() - i,
    {
        if a[i] != b[i] {
            return false;
        }
        i = i + 1;
    }
    assert(a@ =~= b@);
    true
}

/// A copy of `ids`.
fn copy_ids(ids: &Vec<u64>) -> (r: Vec<u64>)
    ensures
        r@ == ids@,
{
    let mut r: Vec<u64> = Vec::new();
    let mut i: usize = 0;
    while i < ids.len()
        invariant
            i <= ids@.len(),
            r@ == ids@.subrange(0, i as int),
        decreases ids@.len() - i,
    {
        r.push(ids[i]);
        i = i + 1;
        assert(r@ =~= ids@.subrange(0, i as int));
    }
    assert(ids@.subrange(0, ids@.len() as int) =~= ids@);
    r
}

/// The accounts among withdrawal attestations, in order.
fn withdraw_signer_ids(signers: &Vec<(u64, Vec<u8>)>) -> (r: Vec<u64>)
    ensures
        r@ == signer_ids(signers@.map_values(|s: (u64, Vec<u8>)| signature_view(s))),
{
    let ghost full = signers@.map_values(|s: (u64, Vec<u8>)| signature_view(s));
    let mut r: Vec<u64> = Vec::new();
    let mut i: usize = 0;
    while i < signers.len()
        invariant
            i <= signers@.len(),
            full == signers@.map_values(|s: (u64, Vec<u8>)| signature_view(s)),
            r@ == signer_ids(full).subrange(0, i as int),
        decreases signers@.len() - i,
    {
        r.push(signers[i].0);
        i = i + 1;
        assert(r@ =~= signer_ids(full).subrange(0, i as int));
    }
    assert(signer_ids(full).subrange(0, signers@.len() as int) =~= signer_ids(full));
    r
}

impl Bridge {
    /// A bridge with the genesis authority list, whose ids are distinct, no
    /// proposals, and the ledger it settles into.
    pub fn new(authorities: Vec<u64>, ledger: Ledger) -> (r: Bridge)
        requires
            authorities@.no_duplicates(),
        ensures
            r@.wf(),
            r@ == (BridgeView {
                authorities: authorities@,
                deposit_count: 0,
                deposits: Seq::empty(),
                deposit_records: Seq::empty(),
                withdraw_count: 0,
                withdraws: Seq::empty(),
                withdraw_records: Seq::empty(),
                nonces: Map::empty(),
                events: Seq::empty(),
                ledger,
            }),
    {
        let r = Bridge {
            authorities,
            deposit_count: 0,
            deposits: Vec::new(),
            deposit_records: Vec::new(),
            withdraw_count: 0,
            withdraws: Vec::new(),
            withdraw_records: Vec::new(),
            withdraw_nonce: HashMap::new(),
            events: Vec::new(),
            ledger,
        };
        proof {
            assert(r@.deposits =~= Seq::empty());
            assert(r@.deposit_records =~= Seq::empty());
            assert(r@.withdraws =~= Seq::empty());
            assert(r@.withdraw_records =~= Seq::empty());
            assert(r@.events =~= Seq::empty());
            assert forall|a: u64| #[trigger] r@.nonce_of(a) == r@.withdrawals_made_by(a) by {}
        }
        r
    }

    /// Whether `a` is a current authority.
    pub fn is_authority(&self, a: u64) -> (r: bool)
        ensures
            r == self@.is_authority(a),
    {
        contains_id(&self.authorities, a)
    }

    /// The position of the deposit keyed by `h`, if any.
    fn find_deposit(&self, h: &H256) -> (r: Option<usize>)
        requires
            self@.wf(),
        ensures
            match r {
                Some(i) => self@.has_deposit(h@) && i == self@.deposit_index(h@) && i
                    < self@.deposits.len(),
                None => !self@.has_deposit(h@),
            },
    {
        let mut i: usize = 0;
        while i < self.deposits.len()
            invariant
                i <= self@.deposits.len(),
                self@.wf(),
                self@.deposits.len() == self.deposits@.len(),
                forall|j: int| 0 <= j < i ==> self@.deposits[j] != h@,
            decreases self@.deposits.len() - i,
        {
            if same_hash(&self.deposits[i], h) {
                proof {
                    let k = self@.deposit_index(h@);
                    assert(self@.deposits[i as int] == h@);
                    assert(self@.deposits[k] == h@ && 0 <= k < self@.deposits.len());
                    assert(self@.deposits.no_duplicates());
                    if k != i as int {
                        assert(self@.deposits[k] != self@.deposits[i as int]);
                    }
                }
                return Some(i);
            }
            i = i + 1;
        }
        None
    }

    /// Proposes a deposit of `quantity` to `target` for the external
    /// transaction `transaction_hash`. A sender that is an authority counts as
    /// its first attester.
    pub fn deposit(&mut self, sender: u64, target: u64, transaction_hash: H256, quantity: u64) -> (r:
        Result<(), BridgeError>)
        requires
            old(self)@.wf(),
        ensures
            final(self)@.wf(),
            r == old(self)@.deposit_outcome(transaction_hash@),
            r is Err ==> final(self)@ == old(self)@,
            r is Ok ==> final(self)@ == old(self)@.after_deposit(
                sender,
                target,
                transaction_hash@,
                quantity,
            ),
            r is Ok ==> final(self)@.has_deposit(transaction_hash@) && final(self)@.deposit_index(
                transaction_hash@,
            ) == old(self)@.deposits.len(),
            old(self)@.settles_into(final(self)@),
    {
        if self.find_deposit(&transaction_hash).is_some() {
            return Err(BridgeError::DepositAlreadyExists);
        }
        if self.deposit_count == u32::MAX {
            return Err(BridgeError::CounterOverflow);
        }
        let mut signers: Vec<u64> = Vec::new();
        if self.is_authority(sender) {
            signers.push(sender);
        }
        let ghost pre = self@;
        let index = self.deposit_count;
        let record = DepositRecord { index, target, quantity, signers, completed: false };
        let ghost rv = record@;
        self.deposits.push(transaction_hash);
        self.deposit_records.push(record);
        self.deposit_count = index + 1;
        self.events.push(Event::Deposit(target, transaction_hash, quantity));
        proof {
            let post = pre.after_deposit(sender, target, transaction_hash@, quantity);
            assert(self@.deposits =~= post.deposits);
            assert(rv.signers =~= post.deposit_records.last().signers);
            assert(self@.deposit_records =~= post.deposit_records);
            assert(self@.events =~= post.events);
            assert(self@ == post);
            lemma_after_deposit_wf(pre, sender, target, transaction_hash@, quantity);
            lemma_last_key_index(post.deposits, transaction_hash@);
            lemma_sum_of_push(pre.deposit_records, post.deposit_records.last(), deposit_settled());
            assert(post.deposit_records =~= pre.deposit_records.push(post.deposit_records.last()));
        }
        Ok(())
    }

    /// Attests, as `sender`, the deposit of `quantity` to `target` keyed by
    /// `transaction_hash`. When the attesters' stake reaches the
    /// super-majority, the quantity is minted to the target and the record is
    /// completed.
    pub fn sign_deposit(&mut self, sender: u64, target: u64, transaction_hash: H256, quantity: u64) -> (r:
        Result<(), BridgeError>)
        requires
            old(self)@.wf(),
        ensures
            final(self)@.wf(),
            r == old(self)@.sign_deposit_outcome(sender, target, transaction_hash@, quantity),
            r is Err ==> final(self)@ == old(self)@,
            r is Ok ==> final(self)@ == old(self)@.after_sign_deposit(
                sender,
                transaction_hash@,
                final(self)@.ledger,
            ),
            r is Ok && old(self)@.deposit_passes(sender, transaction_hash@) ==> minted(
                old(self)@.ledger,
                final(self)@.ledger,
                target,
                quantity,
            ),
            r is Ok && !old(self)@.deposit_passes(sender, transaction_hash@) ==> final(self)@.ledger
                == old(self)@.ledger,
            old(self)@.settles_into(final(self)@),
    {
        let ghost pre = self@;
        let i = match self.find_deposit(&transaction_hash) {
            Some(i) => i,
            None => {
                return Err(BridgeError::InvalidTxHash);
            },
        };
        let index = self.deposit_records[i].index;
        if self.deposit_records[i].target != target {
            return Err(BridgeError::AccountMismatch);
        }
        if self.deposit_records[i].quantity != quantity {
            return Err(BridgeError::QuantityMismatch);
        }
        if self.deposit_records[i].completed {
            return Err(BridgeError::AlreadyCompleted);
        }
        if !self.is_authority(sender) {
            return Err(BridgeError::NotAuthority);
        }
        if contains_id(&self.deposit_records[i].signers, sender) {
            return Err(BridgeError::DuplicateAttestation);
        }
        let mut attesters = copy_ids(&self.deposit_records[i].signers);
        attesters.push(sender);
        let passes = signers_approve(&self.ledger, &attesters);
        proof {
            assert(attesters@ == pre.deposit_attesters(sender, transaction_hash@));
        }
        if passes {
            if self.ledger.increase_free_balance_creating(target, quantity).is_err() {
                return Err(BridgeError::LedgerMintOverflow);
            }
        }
        self.deposit_records[i] = DepositRecord {
            index,
            target,
            quantity,
            signers: attesters,
            completed: passes,
        };
        proof {
            let post = pre.after_sign_deposit(sender, transaction_hash@, self.ledger);
            assert(self@.deposit_records =~= post.deposit_records);
            assert(self@ == post);
            lemma_after_sign_deposit_wf(pre, sender, transaction_hash@, self.ledger);
            lemma_sum_of_update(
                pre.deposit_records,
                i as int,
                post.deposit_records[i as int],
                deposit_settled(),
            );
        }
        Ok(())
    }

    /// The position of the withdrawal keyed by `h`, if any.
    fn find_withdraw(&self, h: &H256) -> (r: Option<usize>)
        requires
            self@.wf(),
        ensures
            match r {
                Some(i) => self@.has_withdraw(h@) && i == self@.withdraw_index(h@) && i
                    < self@.withdraws.len(),
                None => !self@.has_withdraw(h@),
            },
    {
        let mut i: usize = 0;
        while i < self.withdraws.len()
            invariant
                i <= self@.withdraws.len(),
                self@.wf(),
                self@.withdraws.len() == self.withdraws@.len(),
                forall|j: int| 0 <= j < i ==> self@.withdraws[j] != h@,
            decreases self@.withdraws.len() - i,
        {
            if same_hash(&self.withdraws[i], h) {
                proof {
                    let k = self@.withdraw_index(h@);
                    assert(self@.withdraws[i as int] == h@);
                    assert(self@.withdraws[k] == h@ && 0 <= k < self@.withdraws.len());
                    assert(self@.withdraws.no_duplicates());
                    if k != i as int {
                        assert(self@.withdraws[k] != self@.withdraws[i as int]);
                    }
                }
                return Some(i);
            }
            i = i + 1;
        }
        None
    }

    /// The withdrawal nonce of `who`.
    pub fn withdraw_nonce_of(&self, who: u64) -> (r: u32)
        ensures
            r == self@.nonce_of(who),
    {
        match self.withdraw_nonce.get(&who) {
            Some(n) => *n,
            None => 0,
        }
    }

    /// Proposes, as `sender`, to withdraw `quantity` to the eligible chain.
    /// The record is keyed by the digest of `(nonce, sender, quantity)`, and
    /// the sender's nonce advances. A sender that is an authority counts as
    /// its first attester, with `signed_cross_chain_tx` as its bundle.
    pub fn withdraw(&mut self, sender: u64, quantity: u64, signed_cross_chain_tx: Vec<u8>) -> (r:
        Result<(), BridgeError>)
        requires
            old(self)@.wf(),
        ensures
            final(self)@.wf(),
            r == old(self)@.withdraw_outcome(sender, quantity),
            r is Err ==> final(self)@ == old(self)@,
            r is Ok ==> final(self)@ == old(self)@.after_withdraw(
                sender,
                quantity,
                signed_cross_chain_tx@,
            ),
            r is Ok ==> final(self)@.has_withdraw(old(self)@.withdraw_key_of(sender, quantity))
                && final(self)@.withdraw_index(old(self)@.withdraw_key_of(sender, quantity))
                == old(self)@.withdraws.len(),
            old(self)@.settles_into(final(self)@),
    {
        let ghost pre = self@;
        let ghost bundle = signed_cross_chain_tx@;
        let nonce = self.withdraw_nonce_of(sender);
        let key = withdraw_key(nonce, sender, quantity);
        if self.find_withdraw(&key).is_some() {
            return Err(BridgeError::WithdrawAlreadyExists);
        }
        if self.ledger.total_balance(sender) < quantity {
            return Err(BridgeError::InsufficientBalance);
        }
        if self.withdraw_count == u32::MAX {
            return Err(BridgeError::CounterOverflow);
        }
        proof {
            lemma_made_by_bounded(pre.withdraw_records, sender);
        }
        let mut signers: Vec<(u64, Vec<u8>)> = Vec::new();
        if self.is_authority(sender) {
            signers.push((sender, signed_cross_chain_tx));
        }
        let index = self.withdraw_count;
        let record = WithdrawRecord { index, target: sender, quantity, signers, completed: false };
        let ghost rv = record@;
        self.withdraws.push(key);
        self.withdraw_records.push(record);
        self.withdraw_count = index + 1;
        self.withdraw_nonce.insert(sender, nonce + 1);
        self.events.push(Event::Withdraw(sender, quantity));
        proof {
            let post = pre.after_withdraw(sender, quantity, bundle);
            assert(self@.withdraws =~= post.withdraws);
            assert(rv.signers =~= post.withdraw_records.last().signers);
            assert(self@.withdraw_records =~= post.withdraw_records);
            assert(self@.events =~= post.events);
            assert(self@.nonces =~= post.nonces);
            assert(self@ == post);
            lemma_after_withdraw_wf(pre, sender, quantity, bundle);
            lemma_last_key_index(post.withdraws, key@);
            lemma_sum_of_push(pre.withdraw_records, post.withdraw_records.last(), withdraw_settled());
            assert(post.withdraw_records =~= pre.withdraw_records.push(post.withdraw_records.last()));
        }
        Ok(())
    }

    /// Attests, as `sender` and with the signature bundle
    /// `signed_cross_chain_tx`, the withdrawal of `quantity` by `target` keyed
    /// by `record_hash`. When the attesters' stake reaches the super-majority,
    /// the quantity is burned from the target and the record is completed; a
    /// burn the ledger refuses leaves the bridge unchanged.
    pub fn sign_withdraw(
        &mut self,
        sender: u64,
        target: u64,
        record_hash: H256,
        quantity: u64,
        signed_cross_chain_tx: Vec<u8>,
    ) -> (r: Result<(), BridgeError>)
        requires
            old(self)@.wf(),
        ensures
            final(self)@.wf(),
            r == old(self)@.sign_withdraw_outcome(sender, target, record_hash@, quantity),
            r is Err ==> final(self)@ == old(self)@,
            r is Ok ==> final(self)@ == old(self)@.after_sign_withdraw(
                sender,
                record_hash@,
                signed_cross_chain_tx@,
                final(self)@.ledger,
            ),
            r is Ok && old(self)@.withdraw_passes(sender, record_hash@) ==> burned(
                old(self)@.ledger,
                final(self)@.ledger,
                target,
                quantity,
            ),
            r is Ok && !old(self)@.withdraw_passes(sender, record_hash@) ==> final(self)@.ledger
                == old(self)@.ledger,
            old(self)@.settles_into(final(self)@),
    {
        let ghost pre = self@;
        let ghost bundle = signed_cross_chain_tx@;
        let i = match self.find_withdraw(&record_hash) {
            Some(i) => i,
            None => {
                return Err(BridgeError::InvalidRecordHash);
            },
        };
        if self.withdraw_records[i].target != target {
            return Err(BridgeError::AccountMismatch);
        }
        if self.withdraw_records[i].quantity != quantity {
            return Err(BridgeError::QuantityMismatch);
        }
        if self.withdraw_records[i].completed {
            return Err(BridgeError::AlreadyCompleted);
        }
        if !self.is_authority(sender) {
            return Err(BridgeError::NotAuthority);
        }
        let mut attesters = withdraw_signer_ids(&self.withdraw_records[i].signers);
        if contains_id(&attesters, sender) {
            return Err(BridgeError::DuplicateAttestation);
        }
        attesters.push(sender);
        let passes = signers_approve(&self.ledger, &attesters);
        proof {
            assert(attesters@ == pre.withdraw_attesters(sender, record_hash@));
        }
        if passes {
            if self.ledger.decrease_free_balance(target, quantity).is_err() {
                return Err(BridgeError::LedgerBurnFailure);
            }
        }
        self.withdraw_records[i].signers.push((sender, signed_cross_chain_tx));
        self.withdraw_records[i].completed = passes;
        proof {
            let post = pre.after_sign_withdraw(sender, record_hash@, bundle, self.ledger);
            assert(self@.withdraw_records[i as int].signers =~= post.withdraw_records[i as int].signers);
            assert(self@.withdraw_records =~= post.withdraw_records);
            assert(self@ == post);
            lemma_after_sign_withdraw_wf(pre, sender, record_hash@, bundle, self.ledger);
            lemma_sum_of_update(
                pre.withdraw_records,
                i as int,
                post.withdraw_records[i as int],
                withdraw_settled(),
            );
        }
        Ok(())
    }
    /// Applies the validator list of a new session, whose ids are distinct:
    /// when it differs from the current authorities, element by element, it
    /// replaces them and the bridge reports the new set.
    pub fn on_session_change(&mut self, validators: Vec<u64>)
        requires
            old(self)@.wf(),
            validators@.no_duplicates(),
        ensures
            final(self)@.wf(),
            validators@ == old(self)@.authorities ==> final(self)@ == old(self)@,
            validators@ != old(self)@.authorities ==> final(self)@ == (BridgeView {
                authorities: validators@,
                events: old(self)@.events.push(EventView::NewAuthorities(validators@)),
                ..old(self)@
            }),
            old(self)@.settles_into(final(self)@),
    {
        let ghost pre = self@;
        if !same_ids(&validators, &self.authorities) {
            let reported = copy_ids(&validators);
            self.authorities = validators;
            self.events.push(Event::NewAuthorities(reported));
            proof {
                assert(self@.events =~= pre.events.push(EventView::NewAuthorities(self@.authorities)));
            }
        }
        proof {
            assert forall|a: u64| #[trigger] self@.nonce_of(a) == self@.withdrawals_made_by(a) by {
                assert(pre.nonce_of(a) == pre.withdrawals_made_by(a));
            }
        }
    }

    /// The current authorities.
    pub fn authorities(&self) -> (r: &Vec<u64>)
        ensures
            r@ == self@.authorities,
    {
        &self.authorities
    }

    /// The number of deposits proposed.
    pub fn deposit_count(&self) -> (r: u32)
        ensures
            r == self@.deposit_count,
    {
        self.deposit_count
    }

    /// The deposit keys, in order of creation.
    pub fn deposits(&self) -> (r: &Vec<H256>)
        ensures
            r@.map_values(|h: H256| h@) == self@.deposits,
    {
        &self.deposits
    }

    /// The deposit record keyed by `transaction_hash`, if any.
    pub fn deposit_of(&self, transaction_hash: &H256) -> (r: Option<&DepositRecord>)
        requires
            self@.wf(),
        ensures
            match r {
                Some(rec) => self@.deposit_of(transaction_hash@) == Some(rec@),
                None => self@.deposit_of(transaction_hash@) is None,
            },
    {
        match self.find_deposit(transaction_hash) {
            Some(i) => Some(&self.deposit_records[i]),
            None => None,
        }
    }

    /// The number of withdrawals proposed.
    pub fn withdraw_count(&self) -> (r: u32)
        ensures
            r == self@.withdraw_count,
    {
        self.withdraw_count
    }

    /// The withdrawal keys, in order of creation.
    pub fn withdraws(&self) -> (r: &Vec<H256>)
        ensures
            r@.map_values(|h: H256| h@) == self@.withdraws,
    {
        &self.withdraws
    }

    /// The key of the withdrawal created at position `index`.
    pub fn withdraw_record_hash(&self, index: usize) -> (r: H256)
        requires
            index < self@.withdraws.len(),
        ensures
            r@ == self@.withdraws[index as int],
    {
        self.withdraws[index]
    }

    /// The withdrawal record keyed by `record_hash`, if any.
    pub fn withdraw_of(&self, record_hash: &H256) -> (r: Option<&WithdrawRecord>)
        requires
            self@.wf(),
        ensures
            match r {
                Some(rec) => self@.withdraw_of(record_hash@) == Some(rec@),
                None => self@.withdraw_of(record_hash@) is None,
            },
    {
        match self.find_withdraw(record_hash) {
            Some(i) => Some(&self.withdraw_records[i]),
            None => None,
        }
    }

    /// The events reported so far, oldest first.
    pub fn events(&self) -> (r: &Vec<Event>)
        ensures
            r@.map_values(|e: Event| e@) == self@.events,
    {
        &self.events
    }

    /// The ledger the bridge settles into.
    pub fn ledger(&self) -> (r: &Ledger)
        ensures
            *r == self@.ledger,
    {
        &self.ledger
    }
}

proof fn lemma_after_sign_deposit_wf(v: BridgeView, sender: u64, h: Seq<u8>, ledger: Ledger)
    requires
        v.wf(),
        v.has_deposit(h),
        !v.deposit_records[v.deposit_index(h)].signers.contains(sender),
    ensures
        v.after_sign_deposit(sender, h, ledger).wf(),
{
    let post = v.after_sign_deposit(sender, h, ledger);
    let k = v.deposit_index(h);
    assert forall|i: int| 0 <= i < post.deposit_records.len() implies #[trigger] post.deposit_records[i].index == i by {
        assert(v.deposit_records[i].index == i);
    }
    assert forall|i: int| 0 <= i < post.deposit_records.len() implies (
    #[trigger] post.deposit_records[i]).signers.no_duplicates() by {
        assert(v.deposit_records[i].signers.no_duplicates());
        if i == k {
            let s = v.deposit_records[k].signers;
            assert forall|x: int, y: int|
                0 <= x < s.len() + 1 && 0 <= y < s.len() + 1 && x != y implies s.push(sender)[x]
                != s.push(sender)[y] by {
                if x == s.len() {
                    assert(s[y] != sender);
                } else if y == s.len() {
                    assert(s[x] != sender);
                }
            }
        }
    }
    assert forall|a: u64| #[trigger] post.nonce_of(a) == post.withdrawals_made_by(a) by {
        assert(v.nonce_of(a) == v.withdrawals_made_by(a));
    }
}

proof fn lemma_after_deposit_wf(v: BridgeView, sender: u64, target: u64, h: Seq<u8>, quantity: u64)
    requires
        v.wf(),
        v.deposit_outcome(h) is Ok,
    ensures
        v.after_deposit(sender, target, h, quantity).wf(),
{
    let post = v.after_deposit(sender, target, h, quantity);
    let n = v.deposits.len() as int;
    assert forall|i: int, j: int|
        0 <= i < post.deposits.len() && 0 <= j < post.deposits.len() && i != j implies post.deposits[i]
        != post.deposits[j] by {
        if i == n {
            assert(v.deposits[j] != h);
        } else if j == n {
            assert(v.deposits[i] != h);
        }
    }
    assert forall|i: int| 0 <= i < post.deposit_records.len() implies #[trigger] post.deposit_records[i].index == i by {
        if i < n {
            assert(post.deposit_records[i] == v.deposit_records[i]);
        }
    }
    assert forall|i: int| 0 <= i < post.deposit_records.len() implies (
    #[trigger] post.deposit_records[i]).signers.no_duplicates() by {
        if i < n {
            assert(post.deposit_records[i] == v.deposit_records[i]);
        }
    }
    assert forall|a: u64| #[trigger] post.nonce_of(a) == post.withdrawals_made_by(a) by {
        assert(v.nonce_of(a) == v.withdrawals_made_by(a));
    }
}

/// The last of distinct keys is found at the last position.
proof fn lemma_last_key_index(keys: Seq<Seq<u8>>, h: Seq<u8>)
    requires
        keys.len() > 0,
        keys.last() == h,
        keys.no_duplicates(),
    ensures
        keys.contains(h),
        (choose|i: int| 0 <= i < keys.len() && keys[i] == h) == keys.len() - 1,
{
    let n = keys.len() - 1;
    assert(keys[n] == h);
    let k = choose|i: int| 0 <= i < keys.len() && keys[i] == h;
    if k != n {
        assert(keys[k] != keys[n]);
    }
}

/// A run of records holds at most as many records of `a` as records.
proof fn lemma_made_by_bounded(s: Seq<WithdrawRecordView>, a: u64)
    ensures
        0 <= sum_of(s, made_by(a)) <= s.len(),
    decreases s.len(),
{
    if s.len() > 0 {
        lemma_made_by_bounded(s.drop_last(), a);
    }
}

proof fn lemma_after_withdraw_wf(v: BridgeView, sender: u64, quantity: u64, bundle: Seq<u8>)
    requires
        v.wf(),
        v.withdraw_outcome(sender, quantity) is Ok,
    ensures
        v.after_withdraw(sender, quantity, bundle).wf(),
{
    let post = v.after_withdraw(sender, quantity, bundle);
    let n = v.withdraws.len() as int;
    let h = v.withdraw_key_of(sender, quantity);
    lemma_made_by_bounded(v.withdraw_records, sender);
    assert forall|i: int, j: int|
        0 <= i < post.withdraws.len() && 0 <= j < post.withdraws.len() && i != j implies post.withdraws[i]
        != post.withdraws[j] by {
        if i == n {
            assert(v.withdraws[j] != h);
        } else if j == n {
            assert(v.withdraws[i] != h);
        }
    }
    assert forall|i: int| 0 <= i < post.withdraw_records.len() implies #[trigger] post.withdraw_records[i].index == i by {
        if i < n {
            assert(post.withdraw_records[i] == v.withdraw_records[i]);
        }
    }
    assert forall|i: int| 0 <= i < post.withdraw_records.len() implies signer_ids(
        (#[trigger] post.withdraw_records[i]).signers,
    ).no_duplicates() by {
        if i < n {
            assert(post.withdraw_records[i] == v.withdraw_records[i]);
        } else {
            let ids = signer_ids(post.withdraw_records[i].signers);
            assert(ids.len() <= 1);
        }
    }
    let rec = post.withdraw_records.last();
    assert(post.withdraw_records =~= v.withdraw_records.push(rec));
    assert forall|a: u64| #[trigger] post.nonce_of(a) == post.withdrawals_made_by(a) by {
        assert(v.nonce_of(a) == v.withdrawals_made_by(a));
        lemma_sum_of_push(v.withdraw_records, rec, made_by(a));
    }
}

proof fn lemma_after_sign_withdraw_wf(v: BridgeView, sender: u64, h: Seq<u8>, bundle: Seq<u8>, ledger: Ledger)
    requires
        v.wf(),
        v.has_withdraw(h),
        !signer_ids(v.withdraw_records[v.withdraw_index(h)].signers).contains(sender),
    ensures
        v.after_sign_withdraw(sender, h, bundle, ledger).wf(),
{
    let post = v.after_sign_withdraw(sender, h, bundle, ledger);
    let k = v.withdraw_index(h);
    assert forall|i: int| 0 <= i < post.withdraw_records.len() implies #[trigger] post.withdraw_records[i].index == i by {
        assert(v.withdraw_records[i].index == i);
    }
    assert forall|i: int| 0 <= i < post.withdraw_records.len() implies signer_ids(
        (#[trigger] post.withdraw_records[i]).signers,
    ).no_duplicates() by {
        assert(signer_ids(v.withdraw_records[i].signers).no_duplicates());
        if i == k {
            let s = signer_ids(v.withdraw_records[k].signers);
            assert(signer_ids(post.withdraw_records[k].signers) =~= s.push(sender));
            assert forall|x: int, y: int|
                0 <= x < s.len() + 1 && 0 <= y < s.len() + 1 && x != y implies s.push(sender)[x]
                != s.push(sender)[y] by {
                if x == s.len() {
                    assert(s[y] != sender);
                } else if y == s.len() {
                    assert(s[x] != sender);
                }
            }
        }
    }
    assert forall|a: u64| #[trigger] post.nonce_of(a) == post.withdrawals_made_by(a) by {
        assert(v.nonce_of(a) == v.withdrawals_made_by(a));
        lemma_sum_of_update(v.withdraw_records, k, post.withdraw_records[k], made_by(a));
    }
}

} // verus!
