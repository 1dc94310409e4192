//! The stake-weighted super-majority rule that decides when a proposal passes.

use crate::ledger::Ledger;
use vstd::prelude::*;

verus! {

/// The sum of `f` over the elements of `s`.
pub open spec fn sum_of<T>(s: Seq<T>, f: spec_fn(T) -> int) -> int
    decreases s.len(),
{
    if s.len() == 0 {
        0
    } else {
        sum_of(s.drop_last(), f) + f(s.last())
    }
}

/// Appending an element adds its value to the sum.
pub proof fn lemma_sum_of_push<T>(s: Seq<T>, v: T, f: spec_fn(T) -> int)
    ensures
        sum_of(s.push(v), f) == sum_of(s, f) + f(v),
{
    assert(s.push(v).drop_last() =~= s);
}

/// Replacing one element changes the sum by the difference of the values.
pub proof fn lemma_sum_of_update<T>(s: Seq<T>, i: int, v: T, f: spec_fn(T) -> int)
    requires
        0 <= i < s.len(),
    ensures
        sum_of(s.update(i, v), f) == sum_of(s, f) - f(s[i]) + f(v),
    decreases s.len(),
{
    if i == s.len() - 1 {
        assert(s.update(i, v).drop_last() =~= s.drop_last());
    } else {
        assert(s.update(i, v).drop_last() =~= s.drop_last().update(i, v));
        lemma_sum_of_update(s.drop_last(), i, v, f);
    }
}

/// A sum of values that are never negative is not negative.
pub proof fn lemma_sum_of_nonneg<T>(s: Seq<T>, f: spec_fn(T) -> int)
    requires
        forall|x: T| #[trigger] f(x) >= 0,
    ensures
        sum_of(s, f) >= 0,
    decreases s.len(),
{
    if s.len() > 0 {
        lemma_sum_of_nonneg(s.drop_last(), f);
    }
}

/// The balance of each account, as an integer.
pub open spec fn balance_fn(ledger: Ledger) -> spec_fn(u64) -> int {
    |a: u64| ledger.balance_of(a) as int
}

/// The stake behind a set of attesters: the sum of their current balances.
pub open spec fn stake(signers: Seq<u64>, ledger: Ledger) -> int {
    sum_of(signers, balance_fn(ledger))
}

/// The super-majority test with an approval bias of the square root of two,
/// in integers: `approve² > 2·against²`.
pub open spec fn super_majority(approve: int, against: int) -> bool {
    approve * approve > 2 * (against * against)
}

/// Whether attesters holding `stake` out of an issuance of `total` carry a
/// proposal: the stake of the others is `total - stake`, or zero when the
/// stake covers the issuance.
pub open spec fn approves(stake: int, total: int) -> bool {
    super_majority(stake, if total > stake { total - stake } else { 0 })
}

/// The super-majority test on machine integers.
pub fn super_majority_approve(approve: u64, against: u64) -> (r: bool)
    ensures
        r == super_majority(approve as int, against as int),
{
    let a: u128 = approve as u128;
    let b: u128 = against as u128;
    assert(a * a <= u64::MAX * u64::MAX) by (nonlinear_arith)
        requires
            a <= u64::MAX,
    ;
    assert(b * b <= u64::MAX * u64::MAX) by (nonlinear_arith)
        requires
            b <= u64::MAX,
    ;
    let a2: u128 = a * a;
    let b2: u128 = b * b;
    a2 > b2 && a2 - b2 > b2
}

/// Whether attesters holding `stake` out of an issuance of `total` carry a
/// proposal; the stake of the others is found by saturating subtraction.
pub fn approved(stake: u64, total: u64) -> (r: bool)
    ensures
        r == approves(stake as int, total as int),
{
    super_majority_approve(stake, total.saturating_sub(stake))
}

/// A stake capped at the largest balance decides as the full stake does, as
/// long as the issuance is a balance.
proof fn lemma_capped_stake_decides(s: int, total: int)
    requires
        s >= 0,
        0 <= total <= u64::MAX,
    ensures
        approves(if s > u64::MAX { u64::MAX as int } else { s }, total) == approves(s, total),
{
    if s > u64::MAX {
        let m = u64::MAX as int;
        assert(m * m > 0) by (nonlinear_arith)
            requires
                m > 0,
        ;
        assert(s * s > 0) by (nonlinear_arith)
            requires
                s > 0,
        ;
    }
}

/// The stake of `signers`, capped at the largest balance.
fn capped_stake(ledger: &Ledger, signers: &Vec<u64>) -> (r: u64)
    ensures
        r == (if stake(signers@, *ledger) > u64::MAX {
            u64::MAX as int
        } else {
            stake(signers@, *ledger)
        }),
{
    let ghost f = balance_fn(*ledger);
    let mut acc: u64 = 0;
    let mut i: usize = 0;
    while i < signers.len()
        invariant
            i <= signers@.len(),
            f == balance_fn(*ledger),
            acc == (if sum_of(signers@.subrange(0, i as int), f) > u64::MAX {
                u64::MAX as int
            } else {
                sum_of(signers@.subrange(0, i as int), f)
            }),
        decreases signers@.len() - i,
    {
        let b = ledger.total_balance(signers[i]);
        proof {
            let pre = signers@.subrange(0, i as int);
            assert(signers@.subrange(0, i + 1) =~= pre.push(signers@[i as int]));
            lemma_sum_of_push(pre, signers@[i as int], f);
            lemma_sum_of_nonneg(pre, f);
        }
        if acc > u64::MAX - b {
            acc = u64::MAX;
        } else {
            acc = acc + b;
        }
        i = i + 1;
    }
    assert(signers@.subrange(0, signers@.len() as int) =~= signers@);
    acc
}

/// Whether `signers` carry a proposal under the current balances and issuance.
pub fn signers_approve(ledger: &Ledger, signers: &Vec<u64>) -> (r: bool)
    ensures
        r == approves(stake(signers@, *ledger), ledger.issuance() as int),
{
    let s = capped_stake(ledger, signers);
    let total = ledger.total_issuance();
    proof {
        lemma_sum_of_nonneg(signers@, balance_fn(*ledger));
        lemma_capped_stake_decides(stake(signers@, *ledger), total as int);
    }
    approved(s, total)
}

} // verus!
