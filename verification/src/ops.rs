use vstd::prelude::*;

use crate::shares::{
    TOTAL_BASIS_POINTS, share_total, payout_overflows, payouts, sum_shares, plan_payouts,
    lemma_share_total_nonneg,
};
use crate::types::{Address, Split, SplitView, SplitError, Transfer};

verus! {

/// Why a list of recipients with these shares cannot form a split, checked in
/// this order; `None` where it can.
pub open spec fn distribution_error(recipients_len: nat, shares: Seq<u32>) -> Option<SplitError> {
    if recipients_len == 0 {
        Some(SplitError::NoRecipients)
    } else if recipients_len != shares.len() {
        Some(SplitError::LengthMismatch)
    } else if share_total(shares) > u32::MAX {
        Some(SplitError::ShareSumOverflow)
    } else if share_total(shares) != TOTAL_BASIS_POINTS {
        Some(SplitError::SharesNotWhole)
    } else {
        None
    }
}

/// Refusal with the error where there is one, acceptance where there is none.
pub open spec fn refusal(error: Option<SplitError>) -> Result<(), SplitError> {
    match error {
        Some(e) => Err(e),
        None => Ok(()),
    }
}

/// Why a split with this name, recipients and shares cannot be created.
pub open spec fn creation_error(name: Seq<char>, recipients_len: nat, shares: Seq<u32>) -> Option<
    SplitError,
> {
    if name.len() == 0 {
        Some(SplitError::NameEmpty)
    } else {
        distribution_error(recipients_len, shares)
    }
}

/// What every stored split satisfies.
pub open spec fn well_formed(s: SplitView) -> bool {
    &&& s.name@.len() > 0
    &&& distribution_error(s.recipients.len(), s.shares) is None
}

/// The split as it was loaded, by its view.
pub open spec fn loaded_view(loaded: Option<&Split>) -> Option<SplitView> {
    match loaded {
        Some(s) => Some(s@),
        None => None,
    }
}

/// A result that carries a split, by its view.
pub open spec fn split_result_view(r: Result<Split, SplitError>) -> Result<SplitView, SplitError> {
    match r {
        Ok(s) => Ok(s@),
        Err(e) => Err(e),
    }
}

/// The outcome of an owner's request to replace the recipients and shares.
pub open spec fn updated(
    loaded: Option<SplitView>,
    caller: Address,
    recipients: Seq<Address>,
    shares: Seq<u32>,
) -> Result<SplitView, SplitError> {
    match loaded {
        None => Err(SplitError::SplitNotFound),
        Some(s) => if s.owner@ != caller@ {
            Err(SplitError::NotOwner)
        } else if !s.active {
            Err(SplitError::SplitNotActive)
        } else if let Some(e) = distribution_error(recipients.len(), shares) {
            Err(e)
        } else {
            Ok(SplitView { recipients, shares, ..s })
        },
    }
}

/// The outcome of an owner's request to deactivate the split.
pub open spec fn deactivated(loaded: Option<SplitView>, caller: Address) -> Result<
    SplitView,
    SplitError,
> {
    match loaded {
        None => Err(SplitError::SplitNotFound),
        Some(s) => if s.owner@ != caller@ {
            Err(SplitError::NotOwner)
        } else if !s.active {
            Err(SplitError::AlreadyInactive)
        } else {
            Ok(SplitView { active: false, ..s })
        },
    }
}

/// The outcome of an owner's request to reactivate the split.
pub open spec fn reactivated(loaded: Option<SplitView>, caller: Address) -> Result<
    SplitView,
    SplitError,
> {
    match loaded {
        None => Err(SplitError::SplitNotFound),
        Some(s) => if s.owner@ != caller@ {
            Err(SplitError::NotOwner)
        } else if s.active {
            Err(SplitError::AlreadyActive)
        } else {
            Ok(SplitView { active: true, ..s })
        },
    }
}

/// The outcome of a request to pay `amount` of `token` from `caller` through
/// the split: the transfers to make, or why none is made.
pub open spec fn execution(
    loaded: Option<SplitView>,
    caller: Address,
    token: Address,
    amount: i128,
) -> Result<Seq<Transfer>, SplitError> {
    if amount <= 0 {
        Err(SplitError::AmountNotPositive)
    } else {
        match loaded {
            None => Err(SplitError::SplitNotFound),
            Some(s) => if !s.active {
                Err(SplitError::SplitNotActive)
            } else if payout_overflows(s.shares, amount as int, s.recipients.len()) {
                Err(SplitError::PayoutOverflow)
            } else {
                Ok(payouts(caller, token, s.recipients, s.shares, amount as int, s.recipients.len()))
            },
        }
    }
}

/// A result that carries transfers, by their values.
pub open spec fn plan_result_view(r: Result<Vec<Transfer>, SplitError>) -> Result<
    Seq<Transfer>,
    SplitError,
> {
    match r {
        Ok(v) => Ok(v@),
        Err(e) => Err(e),
    }
}

/// Checks that the recipients and shares can form a split.
pub fn check_distribution(recipients: &Vec<Address>, shares: &Vec<u32>) -> (r: Result<
    (),
    SplitError,
>)
    ensures
        r == refusal(distribution_error(recipients@.len(), shares@)),
{
    if recipients.len() == 0 {
        return Err(SplitError::NoRecipients);
    }
    if recipients.len() != shares.len() {
        return Err(SplitError::LengthMismatch);
    }
    let summed = sum_shares(shares);
    proof {
        lemma_share_total_nonneg(shares@);
    }
    match summed {
        None => {
            Err(SplitError::ShareSumOverflow)
        },
        Some(total) => if total == TOTAL_BASIS_POINTS {
            Ok(())
        } else {
            Err(SplitError::SharesNotWhole)
        },
    }
}

/// Checks that the contract may be initialized: only while no admin is
/// recorded.
pub fn check_initialization(recorded_admin: Option<&Address>) -> (r: Result<(), SplitError>)
    ensures
        r == (if recorded_admin is Some {
            Err::<(), SplitError>(SplitError::AlreadyInitialized)
        } else {
            Ok(())
        }),
{
    match recorded_admin {
        Some(_) => Err(SplitError::AlreadyInitialized),
        None => Ok(()),
    }
}

/// Checks that a split with this name, recipients and shares can be created.
pub fn check_creation(name: &String, recipients: &Vec<Address>, shares: &Vec<u32>) -> (r: Result<
    (),
    SplitError,
>)
    ensures
        r == refusal(creation_error(name@, recipients@.len(), shares@)),
{
    if name.as_str().is_empty() {
        return Err(SplitError::NameEmpty);
    }
    check_distribution(recipients, shares)
}

/// The split that creating one makes when `count` splits were created
/// before: its id is `count + 1`, and it starts active.
pub fn new_split(
    count: u64,
    owner: Address,
    name: String,
    recipients: Vec<Address>,
    shares: Vec<u32>,
) -> (r: Result<Split, SplitError>)
    requires
        count < u64::MAX,
    ensures
        split_result_view(r) == (match creation_error(name@, recipients@.len(), shares@) {
            Some(e) => Err(e),
            None => Ok(
                SplitView {
                    split_id: (count + 1) as u64,
                    owner,
                    name,
                    recipients: recipients@,
                    shares: shares@,
                    active: true,
                },
            ),
        }),
{
    match check_creation(&name, &recipients, &shares) {
        Err(e) => Err(e),
        Ok(()) => Ok(Split { split_id: count + 1, owner, name, recipients, shares, active: true }),
    }
}

/// Replaces the recipients and shares of a loaded split, on its owner's request.
pub fn update_record(
    loaded: Option<&Split>,
    caller: &Address,
    recipients: Vec<Address>,
    shares: Vec<u32>,
) -> (r: Result<Split, SplitError>)
    ensures
        split_result_view(r) == updated(loaded_view(loaded), *caller, recipients@, shares@),
{
    match loaded {
        None => Err(SplitError::SplitNotFound),
        Some(s) => {
            if !s.owner.same_as(caller) {
                return Err(SplitError::NotOwner);
            }
            if !s.active {
                return Err(SplitError::SplitNotActive);
            }
            match check_distribution(&recipients, &shares) {
                Err(e) => Err(e),
                Ok(()) => Ok(
                    Split {
                        split_id: s.split_id,
                        owner: s.owner.clone(),
                        name: s.name.clone(),
                        recipients,
                        shares,
                        active: s.active,
                    },
                ),
            }
        },
    }
}

/// Deactivates a loaded split, on its owner's request.
pub fn deactivate_record(loaded: Option<&Split>, caller: &Address) -> (r: Result<
    Split,
    SplitError,
>)
    ensures
        split_result_view(r) == deactivated(loaded_view(loaded), *caller),
{
    match loaded {
        None => Err(SplitError::SplitNotFound),
        Some(s) => {
            if !s.owner.same_as(caller) {
                return Err(SplitError::NotOwner);
            }
            if !s.active {
                return Err(SplitError::AlreadyInactive);
            }
            let mut next = s.clone();
            next.active = false;
            Ok(next)
        },
    }
}

/// Reactivates a loaded split, on its owner's request.
pub fn reactivate_record(loaded: Option<&Split>, caller: &Address) -> (r: Result<
    Split,
    SplitError,
>)
    ensures
        split_result_view(r) == reactivated(loaded_view(loaded), *caller),
{
    match loaded {
        None => Err(SplitError::SplitNotFound),
        Some(s) => {
            if !s.owner.same_as(caller) {
                return Err(SplitError::NotOwner);
            }
            if s.active {
                return Err(SplitError::AlreadyActive);
            }
            let mut next = s.clone();
            next.active = true;
            Ok(next)
        },
    }
}

/// The transfers that executing a loaded split with `amount` of `token` from
/// `caller` makes, or why it is refused.
pub fn plan_execution(
    loaded: Option<&Split>,
    caller: &Address,
    token: &Address,
    amount: i128,
) -> (r: Result<Vec<Transfer>, SplitError>)
    requires
        amount > 0 ==> (loaded matches Some(s) ==> (s.active ==> s.shares@.len()
            >= s.recipients@.len())),
    ensures
        plan_result_view(r) == execution(loaded_view(loaded), *caller, *token, amount),
{
    if amount <= 0 {
        return Err(SplitError::AmountNotPositive);
    }
    match loaded {
        None => Err(SplitError::SplitNotFound),
        Some(s) => {
            if !s.active {
                return Err(SplitError::SplitNotActive);
            }
            match plan_payouts(caller, token, &s.recipients, &s.shares, amount) {
                None => Err(SplitError::PayoutOverflow),
                Some(plan) => Ok(plan),
            }
        },
    }
}

} // verus!
