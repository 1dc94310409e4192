//! Properties of every reachable bridge state and of every run of calls.

use crate::approval::sum_of;
use crate::bridge::{made_by, BridgeView};
use crate::types::signer_ids;
use vstd::prelude::*;

verus! {

/// Every key in the ordered deposit list has its record, and every key that
/// has a record stands in the list; likewise for withdrawals.
pub proof fn lemma_keys_match_records(v: BridgeView)
    requires
        v.wf(),
    ensures
        forall|i: int|
            0 <= i < v.deposits.len() ==> v.deposit_of(#[trigger] v.deposits[i]) == Some(
                v.deposit_records[i],
            ),
        forall|h: Seq<u8>| #[trigger] v.deposit_of(h) is Some <==> v.deposits.contains(h),
        forall|i: int|
            0 <= i < v.withdraws.len() ==> v.withdraw_of(#[trigger] v.withdraws[i]) == Some(
                v.withdraw_records[i],
            ),
        forall|h: Seq<u8>| #[trigger] v.withdraw_of(h) is Some <==> v.withdraws.contains(h),
{
    assert forall|i: int| 0 <= i < v.deposits.len() implies v.deposit_of(#[trigger] v.deposits[i])
        == Some(v.deposit_records[i]) by {
        let h = v.deposits[i];
        assert(v.deposits.contains(h));
        let k = v.deposit_index(h);
        if k != i {
            assert(v.deposits[k] != v.deposits[i]);
        }
    }
    assert forall|i: int| 0 <= i < v.withdraws.len() implies v.withdraw_of(
        #[trigger] v.withdraws[i],
    ) == Some(v.withdraw_records[i]) by {
        let h = v.withdraws[i];
        assert(v.withdraws.contains(h));
        let k = v.withdraw_index(h);
        if k != i {
            assert(v.withdraws[k] != v.withdraws[i]);
        }
    }
}

/// The withdrawal nonce of each account equals the number of withdrawal
/// records it has created, that is the number of its successful `withdraw`
/// calls.
pub proof fn lemma_nonce_counts_withdrawals(v: BridgeView, a: u64)
    requires
        v.wf(),
    ensures
        v.nonce_of(a) == sum_of(v.withdraw_records, made_by(a)),
{
}

/// No account attests a record twice.
pub proof fn lemma_signers_distinct(v: BridgeView)
    requires
        v.wf(),
    ensures
        forall|i: int|
            0 <= i < v.deposit_records.len() ==> (#[trigger] v.deposit_records[i]).signers.no_duplicates(),
        forall|i: int|
            0 <= i < v.withdraw_records.len() ==> signer_ids(
                (#[trigger] v.withdraw_records[i]).signers,
            ).no_duplicates(),
{
}

/// Two steps of a run make one.
pub proof fn lemma_settles_into_trans(a: BridgeView, b: BridgeView, c: BridgeView)
    requires
        a.settles_into(b),
        b.settles_into(c),
    ensures
        a.settles_into(c),
{
    assert forall|i: int|
        0 <= i < a.deposit_records.len() && (#[trigger] a.deposit_records[i]).completed implies c.deposit_records[i]
        == a.deposit_records[i] by {
        assert(b.deposit_records[i] == a.deposit_records[i]);
    }
    assert forall|i: int|
        0 <= i < a.withdraw_records.len() && (#[trigger] a.withdraw_records[i]).completed implies c.withdraw_records[i]
        == a.withdraw_records[i] by {
        assert(b.withdraw_records[i] == a.withdraw_records[i]);
    }
    assert forall|i: int| 0 <= i < a.deposits.len() implies #[trigger] c.deposits[i] == a.deposits[i] by {
        assert(b.deposits[i] == a.deposits[i]);
    }
    assert forall|i: int| 0 <= i < a.withdraws.len() implies #[trigger] c.withdraws[i] == a.withdraws[i] by {
        assert(b.withdraws[i] == a.withdraws[i]);
    }
}

/// Whether each state of `run` settles into the next, as every bridge call
/// ensures of the state before and after it.
pub open spec fn is_run(run: Seq<BridgeView>) -> bool {
    forall|i: int| 0 <= i < run.len() - 1 ==> (#[trigger] run[i]).settles_into(run[i + 1])
}

/// The first state of a run settles into each later one.
proof fn lemma_run_settles(run: Seq<BridgeView>, j: int)
    requires
        is_run(run),
        0 <= j < run.len(),
    ensures
        run[0].settles_into(run[j]),
    decreases j,
{
    if j == 0 {
        let v = run[0];
        assert(v.settles_into(v));
    } else {
        lemma_run_settles(run, j - 1);
        assert(run[j - 1].settles_into(run[j]));
        lemma_settles_into_trans(run[0], run[j - 1], run[j]);
    }
}

/// Across a run of calls (a block), the total issuance moves by the
/// quantities of the deposits approved in it less those of the withdrawals
/// approved in it.
pub proof fn lemma_issuance_follows_approvals(run: Seq<BridgeView>)
    requires
        run.len() > 0,
        is_run(run),
    ensures
        run.last().ledger.issuance() - run[0].ledger.issuance() == run.last().settled()
            - run[0].settled(),
{
    lemma_run_settles(run, run.len() - 1);
}

/// Once a record is completed, no later call of a run changes it, so the
/// quantity it settled stays as it was and is never minted or burned again.
pub proof fn lemma_completed_records_stay(run: Seq<BridgeView>, j: int)
    requires
        is_run(run),
        0 <= j < run.len(),
    ensures
        forall|i: int|
            0 <= i < run[0].deposit_records.len() && (#[trigger] run[0].deposit_records[i]).completed
                ==> run[j].deposit_records[i] == run[0].deposit_records[i],
        forall|i: int|
            0 <= i < run[0].withdraw_records.len() && (#[trigger] run[0].withdraw_records[i]).completed
                ==> run[j].withdraw_records[i] == run[0].withdraw_records[i],
{
    lemma_run_settles(run, j);
}

} // verus!
