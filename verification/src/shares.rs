use vstd::prelude::*;

use crate::types::{Address, Transfer};

verus! {

/// Shares are basis points; a split's shares add up to exactly this many.
pub const TOTAL_BASIS_POINTS: u32 = 10000;

/// The sum of the shares, as a mathematical integer.
pub open spec fn share_total(shares: Seq<u32>) -> int
    decreases shares.len(),
{
    if shares.len() == 0 {
        0
    } else {
        share_total(shares.drop_last()) + shares.last()
    }
}

/// What a recipient with `share` basis points receives of `amount`, rounded down.
pub open spec fn payout(amount: int, share: int) -> int {
    amount * share / 10000
}

/// Whether paying some recipient among the first `n` overflows `i128`.
pub open spec fn payout_overflows(shares: Seq<u32>, amount: int, n: nat) -> bool {
    exists|i: int| 0 <= i < n && amount * shares[i] > i128::MAX
}

/// The transfers that pay the first `n` recipients their part of `amount`, in
/// order, leaving out those whose part rounds down to zero.
pub open spec fn payouts(
    caller: Address,
    token: Address,
    recipients: Seq<Address>,
    shares: Seq<u32>,
    amount: int,
    n: nat,
) -> Seq<Transfer>
    decreases n,
{
    if n == 0 {
        seq![]
    } else {
        let earlier = payouts(caller, token, recipients, shares, amount, (n - 1) as nat);
        let due: int = payout(amount, shares[n - 1] as int);
        if due > 0 {
            earlier.push(Transfer { from: caller, to: recipients[n - 1], token, amount: due as i128 })
        } else {
            earlier
        }
    }
}

/// A prefix never adds up to more than the whole.
pub proof fn lemma_share_total_prefix(shares: Seq<u32>, i: int)
    requires
        0 <= i <= shares.len(),
    ensures
        0 <= share_total(shares.take(i)) <= share_total(shares),
    decreases shares.len(),
{
    if i < shares.len() {
        assert(shares.drop_last().take(i) =~= shares.take(i));
        lemma_share_total_prefix(shares.drop_last(), i);
    } else {
        assert(shares.take(i) =~= shares);
        lemma_share_total_nonneg(shares);
    }
}

/// Shares never add up to less than zero.
pub proof fn lemma_share_total_nonneg(shares: Seq<u32>)
    ensures
        share_total(shares) >= 0,
    decreases shares.len(),
{
    if shares.len() > 0 {
        lemma_share_total_nonneg(shares.drop_last());
    }
}

/// Adds up the shares; `None` where the sum does not fit in a `u32`.
pub fn sum_shares(shares: &Vec<u32>) -> (total: Option<u32>)
    ensures
        total == (if share_total(shares@) <= u32::MAX {
            Some(share_total(shares@) as u32)
        } else {
            None
        }),
{
    let mut total: u32 = 0;
    let mut i: usize = 0;
    while i < shares.len()
        invariant
            i <= shares@.len(),
            total == share_total(shares@.take(i as int)),
        decreases shares@.len() - i,
    {
        assert(shares@.take(i + 1).drop_last() =~= shares@.take(i as int));
        match total.checked_add(shares[i]) {
            Some(t) => {
                total = t;
            },
            None => {
                proof {
                    lemma_share_total_prefix(shares@, i + 1);
                }
                return None;
            },
        }
        i = i + 1;
    }
    assert(shares@.take(i as int) =~= shares@);
    Some(total)
}

/// What a recipient with `share` basis points receives of `amount`; `None`
/// where `amount * share` does not fit in an `i128`.
pub fn recipient_amount(amount: i128, share: u32) -> (due: Option<i128>)
    requires
        amount > 0,
    ensures
        due == (if amount * share <= i128::MAX {
            Some(payout(amount as int, share as int) as i128)
        } else {
            None
        }),
{
    let share_wide: i128 = share as i128;
    match amount.checked_mul(share_wide) {
        Some(product) => {
            assert(product >= 0) by (nonlinear_arith)
                requires
                    product == amount * share_wide,
                    amount > 0,
                    share_wide >= 0,
            ;
            Some(product / 10000)
        },
        None => None,
    }
}

/// The transfers that pay `amount` from `caller` to the recipients in `token`;
/// `None` where some recipient's part overflows.
pub fn plan_payouts(
    caller: &Address,
    token: &Address,
    recipients: &Vec<Address>,
    shares: &Vec<u32>,
    amount: i128,
) -> (plan: Option<Vec<Transfer>>)
    requires
        amount > 0,
        shares@.len() >= recipients@.len(),
    ensures
        match plan {
            None => payout_overflows(shares@, amount as int, recipients@.len()),
            Some(v) => {
                &&& !payout_overflows(shares@, amount as int, recipients@.len())
                &&& v@ == payouts(
                    *caller,
                    *token,
                    recipients@,
                    shares@,
                    amount as int,
                    recipients@.len(),
                )
            },
        },
{
    let mut plan: Vec<Transfer> = Vec::new();
    let mut i: usize = 0;
    while i < recipients.len()
        invariant
            i <= recipients@.len(),
            shares@.len() >= recipients@.len(),
            amount > 0,
            !payout_overflows(shares@, amount as int, i as nat),
            plan@ == payouts(*caller, *token, recipients@, shares@, amount as int, i as nat),
        decreases recipients@.len() - i,
    {
        match recipient_amount(amount, shares[i]) {
            Some(due) => {
                if due > 0 {
                    plan.push(
                        Transfer {
                            from: caller.clone(),
                            to: recipients[i].clone(),
                            token: token.clone(),
                            amount: due,
                        },
                    );
                }
            },
            None => {
                assert(amount * shares@[i as int] > i128::MAX);
                return None;
            },
        }
        i = i + 1;
    }
    Some(plan)
}

} // verus!
