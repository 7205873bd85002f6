use vstd::prelude::*;

use vstd::arithmetic::div_mod::{
    lemma_fundamental_div_mod, lemma_mod_bound, lemma_div_multiples_vanish, lemma_div_is_ordered,
};
use vstd::arithmetic::mul::{
    lemma_mul_is_distributive_add, lemma_mul_is_associative, lemma_mul_nonnegative,
    lemma_mul_inequality,
};

use crate::shares::{share_total, payout, payout_overflows, payouts, lemma_share_total_prefix};
use crate::ops::{well_formed, execution, updated, deactivated, reactivated, creation_error};
use crate::contract::{
    ContractState, Call, lookup, stored, ids_are_the_count, stored_well_formed, after, created_id,
    deployed,
};
use crate::types::{Address, ContractEvent, SplitError, SplitView, Transfer};

verus! {

/// The sum of the amounts of some transfers.
pub open spec fn transfer_total(transfers: Seq<Transfer>) -> int
    decreases transfers.len(),
{
    if transfers.len() == 0 {
        0
    } else {
        transfer_total(transfers.drop_last()) + transfers.last().amount
    }
}

/// The sum of the parts due to the first `n` recipients.
pub open spec fn due_total(shares: Seq<u32>, amount: int, n: nat) -> int
    decreases n,
{
    if n == 0 {
        0
    } else {
        due_total(shares, amount, (n - 1) as nat) + payout(amount, shares[n - 1] as int)
    }
}

proof fn lemma_payout_bounds(amount: int, share: int)
    requires
        amount >= 0,
        share >= 0,
    ensures
        0 <= payout(amount, share),
        amount * share - 10000 < 10000 * payout(amount, share) <= amount * share,
{
    let x: int = amount * share;
    lemma_mul_nonnegative(amount, share);
    lemma_fundamental_div_mod(x, 10000);
    lemma_mod_bound(x, 10000);
}

proof fn lemma_transfer_total_is_due_total(
    caller: Address,
    token: Address,
    recipients: Seq<Address>,
    shares: Seq<u32>,
    amount: int,
    n: nat,
)
    requires
        amount > 0,
        n <= shares.len(),
        !payout_overflows(shares, amount, n),
    ensures
        transfer_total(payouts(caller, token, recipients, shares, amount, n)) == due_total(
            shares,
            amount,
            n,
        ),
    decreases n,
{
    if n > 0 {
        let i: int = n - 1;
        assert(!payout_overflows(shares, amount, (n - 1) as nat));
        lemma_transfer_total_is_due_total(caller, token, recipients, shares, amount, (n - 1) as nat);
        lemma_payout_bounds(amount, shares[i] as int);
        assert(amount * shares[i] <= i128::MAX);
        let earlier = payouts(caller, token, recipients, shares, amount, (n - 1) as nat);
        let due: int = payout(amount, shares[i] as int);
        if due > 0 {
            let t = Transfer { from: caller, to: recipients[i], token, amount: due as i128 };
            assert(earlier.push(t).drop_last() =~= earlier);
        }
    }
}

proof fn lemma_due_total_bounds(shares: Seq<u32>, amount: int, n: nat)
    requires
        amount >= 0,
        n <= shares.len(),
    ensures
        amount * share_total(shares.take(n as int)) - 9999 * n <= 10000 * due_total(shares, amount, n)
            <= amount * share_total(shares.take(n as int)),
    decreases n,
{
    if n == 0 {
        assert(shares.take(0) =~= Seq::<u32>::empty());
    } else {
        let i: int = n - 1;
        lemma_due_total_bounds(shares, amount, (n - 1) as nat);
        assert(shares.take(n as int).drop_last() =~= shares.take(i));
        lemma_mul_is_distributive_add(amount, share_total(shares.take(i)), shares[i] as int);
        lemma_payout_bounds(amount, shares[i] as int);
    }
}

proof fn lemma_due_total_exact(shares: Seq<u32>, amount: int, n: nat)
    requires
        amount >= 0,
        amount % 10000 == 0,
        n <= shares.len(),
    ensures
        due_total(shares, amount, n) == (amount / 10000) * share_total(shares.take(n as int)),
    decreases n,
{
    let k: int = amount / 10000;
    lemma_fundamental_div_mod(amount, 10000);
    if n == 0 {
        assert(shares.take(0) =~= Seq::<u32>::empty());
    } else {
        let i: int = n - 1;
        lemma_due_total_exact(shares, amount, (n - 1) as nat);
        assert(shares.take(n as int).drop_last() =~= shares.take(i));
        lemma_mul_is_distributive_add(k, share_total(shares.take(i)), shares[i] as int);
        lemma_mul_is_associative(10000, k, shares[i] as int);
        lemma_div_multiples_vanish(k * shares[i], 10000);
    }
}

/// Executing a well-formed active split never pays out more than the amount,
/// and what stays unpaid (rounding dust) is less than one unit per recipient.
/// The only refusal left is a payout that overflows.
pub proof fn law_payouts_stay_within_amount(
    s: SplitView,
    caller: Address,
    token: Address,
    amount: i128,
)
    requires
        well_formed(s),
        s.active,
        amount > 0,
    ensures
        match execution(Some(s), caller, token, amount) {
            Ok(transfers) => {
                &&& transfer_total(transfers) <= amount
                &&& amount - transfer_total(transfers) < s.recipients.len()
            },
            Err(e) => e == SplitError::PayoutOverflow,
        },
{
    let n: nat = s.recipients.len();
    if !payout_overflows(s.shares, amount as int, n) {
        lemma_transfer_total_is_due_total(caller, token, s.recipients, s.shares, amount as int, n);
        lemma_due_total_bounds(s.shares, amount as int, n);
        assert(s.shares.take(n as int) =~= s.shares);
        assert(amount * share_total(s.shares) == amount * 10000);
    }
}

/// Where the amount is a whole multiple of 10000, executing a well-formed
/// split pays out exactly the amount: nothing is lost to rounding.
pub proof fn law_whole_amounts_are_paid_exactly(
    s: SplitView,
    caller: Address,
    token: Address,
    amount: i128,
)
    requires
        well_formed(s),
        s.active,
        amount > 0,
        amount % 10000 == 0,
    ensures
        execution(Some(s), caller, token, amount) matches Ok(transfers) ==> transfer_total(
            transfers,
        ) == amount,
{
    let n: nat = s.recipients.len();
    if !payout_overflows(s.shares, amount as int, n) {
        lemma_transfer_total_is_due_total(caller, token, s.recipients, s.shares, amount as int, n);
        lemma_due_total_exact(s.shares, amount as int, n);
        assert(s.shares.take(n as int) =~= s.shares);
        lemma_fundamental_div_mod(amount as int, 10000);
        assert(share_total(s.shares) == 10000);
        assert((amount / 10000) * share_total(s.shares) == (amount / 10000) * 10000);
    }
}

proof fn lemma_payouts_shape(
    caller: Address,
    token: Address,
    recipients: Seq<Address>,
    shares: Seq<u32>,
    amount: int,
    n: nat,
)
    requires
        amount > 0,
        n <= shares.len(),
        !payout_overflows(shares, amount, n),
    ensures
        payouts(caller, token, recipients, shares, amount, n).len() <= n,
        forall|i: int|
            0 <= i < payouts(caller, token, recipients, shares, amount, n).len() ==> {
                let t = #[trigger] payouts(caller, token, recipients, shares, amount, n)[i];
                &&& t.from == caller
                &&& t.token == token
                &&& t.amount > 0
            },
    decreases n,
{
    if n > 0 {
        let i: int = n - 1;
        assert(!payout_overflows(shares, amount, (n - 1) as nat));
        lemma_payouts_shape(caller, token, recipients, shares, amount, (n - 1) as nat);
        lemma_payout_bounds(amount, shares[i] as int);
        assert(amount * shares[i] <= i128::MAX);
    }
}

/// Executing a split asks for at most one transfer per recipient, each of a
/// positive amount, from the caller, in the token given.
pub proof fn law_payouts_are_positive_transfers_from_caller(
    s: SplitView,
    caller: Address,
    token: Address,
    amount: i128,
)
    requires
        well_formed(s),
    ensures
        execution(Some(s), caller, token, amount) matches Ok(transfers) ==> {
            &&& transfers.len() <= s.recipients.len()
            &&& forall|i: int|
                0 <= i < transfers.len() ==> {
                    &&& (#[trigger] transfers[i]).from == caller
                    &&& transfers[i].token == token
                    &&& transfers[i].amount > 0
                }
        },
{
    if amount > 0 && s.recipients.len() <= s.shares.len() && !payout_overflows(
        s.shares,
        amount as int,
        s.recipients.len(),
    ) {
        lemma_payouts_shape(caller, token, s.recipients, s.shares, amount as int, s.recipients.len());
    }
}

/// A deactivated split is never executed.
pub proof fn law_inactive_split_is_not_executed(
    s: SplitView,
    caller: Address,
    token: Address,
    amount: i128,
)
    requires
        !s.active,
        amount > 0,
    ensures
        execution(Some(s), caller, token, amount) == Err::<Seq<Transfer>, SplitError>(
            SplitError::SplitNotActive,
        ),
{
}

/// No one but a split's owner can update, deactivate or reactivate it.
pub proof fn law_only_the_owner_changes_a_split(
    s: SplitView,
    caller: Address,
    recipients: Seq<Address>,
    shares: Seq<u32>,
)
    requires
        s.owner@ != caller@,
    ensures
        updated(Some(s), caller, recipients, shares) == Err::<SplitView, SplitError>(
            SplitError::NotOwner,
        ),
        deactivated(Some(s), caller) == Err::<SplitView, SplitError>(SplitError::NotOwner),
        reactivated(Some(s), caller) == Err::<SplitView, SplitError>(SplitError::NotOwner),
{
}

/// An update changes only the recipients and shares: the id, owner, name and
/// activity stay, and a well-formed split stays well formed.
pub proof fn law_update_keeps_identity(
    s: SplitView,
    caller: Address,
    recipients: Seq<Address>,
    shares: Seq<u32>,
)
    requires
        well_formed(s),
    ensures
        updated(Some(s), caller, recipients, shares) matches Ok(next) ==> {
            &&& next.split_id == s.split_id
            &&& next.owner == s.owner
            &&& next.name == s.name
            &&& next.active == s.active
            &&& next.recipients == recipients
            &&& next.shares == shares
            &&& well_formed(next)
        },
{
}

/// After a split is created, reading it back under its new id gives exactly
/// what was created, active.
pub proof fn law_created_split_reads_back(
    state: ContractState,
    owner: Address,
    name: String,
    recipients: Seq<Address>,
    shares: Seq<u32>,
)
    requires
        state.counter < u64::MAX,
        creation_error(name@, recipients.len(), shares) is None,
    ensures
        ({
            let split_id: u64 = (state.counter + 1) as u64;
            let created = SplitView { split_id, owner, name, recipients, shares, active: true };
            let after = stored(
                state,
                split_id,
                created,
                ContractEvent::SplitCreated { split_id, owner },
            );
            &&& lookup(after.splits, split_id) == Some(created)
            &&& well_formed(created)
            &&& forall|other: u64| other != split_id ==> #[trigger] lookup(after.splits, other)
                == lookup(state.splits, other)
        }),
{
}

/// Deactivating a split and then reactivating it, both by its owner, leaves
/// the stored splits as they were.
pub proof fn law_deactivate_then_reactivate_restores(
    state: ContractState,
    split_id: u64,
    owner: Address,
)
    requires
        lookup(state.splits, split_id) matches Some(s) && s.active && s.owner@ == owner@,
    ensures
        deactivated(lookup(state.splits, split_id), owner) matches Ok(off) && {
            let paused = stored(
                state,
                split_id,
                off,
                ContractEvent::SplitDeactivated { split_id, owner },
            );
            reactivated(lookup(paused.splits, split_id), owner) matches Ok(on) && stored(
                paused,
                split_id,
                on,
                ContractEvent::SplitReactivated { split_id, owner },
            ).splits == state.splits
        },
{
    let s = state.splits[split_id];
    let off = SplitView { active: false, ..s };
    let paused = stored(state, split_id, off, ContractEvent::SplitDeactivated { split_id, owner });
    assert(lookup(paused.splits, split_id) == Some(off));
    let on = SplitView { active: true, ..off };
    assert(on == s);
    assert(paused.splits.insert(split_id, on) =~= state.splits);
}

/// Executing an active, well-formed split succeeds for every positive amount
/// up to `i128::MAX / 10000`: no share exceeds the whole, so no payout overflows.
pub proof fn law_moderate_amounts_are_always_paid(
    s: SplitView,
    caller: Address,
    token: Address,
    amount: i128,
)
    requires
        well_formed(s),
        s.active,
        0 < amount <= i128::MAX / 10000,
    ensures
        execution(Some(s), caller, token, amount) is Ok,
{
    assert forall|i: int| 0 <= i < s.recipients.len() implies amount * s.shares[i] <= i128::MAX by {
        lemma_share_total_prefix(s.shares, i);
        lemma_share_total_prefix(s.shares, i + 1);
        assert(s.shares.take(i + 1).drop_last() =~= s.shares.take(i));
        assert(s.shares[i] <= 10000);
        lemma_mul_is_distributive_add(amount as int, s.shares[i] as int, 10000 - s.shares[i]);
        lemma_mul_nonnegative(amount as int, 10000 - s.shares[i]);
        assert(amount * 10000 <= i128::MAX);
        assert(amount * s.shares[i] + amount * (10000 - s.shares[i]) == amount * 10000);
    }
}

proof fn lemma_payout_monotone(smaller: int, larger: int, share: int)
    requires
        0 <= smaller <= larger,
        share >= 0,
    ensures
        payout(smaller, share) <= payout(larger, share),
{
    lemma_mul_inequality(smaller, larger, share);
    lemma_div_is_ordered(smaller * share, larger * share, 10000);
}

proof fn lemma_due_total_monotone(shares: Seq<u32>, smaller: int, larger: int, n: nat)
    requires
        0 <= smaller <= larger,
        n <= shares.len(),
    ensures
        due_total(shares, smaller, n) <= due_total(shares, larger, n),
    decreases n,
{
    if n > 0 {
        lemma_due_total_monotone(shares, smaller, larger, (n - 1) as nat);
        lemma_payout_monotone(smaller, larger, shares[n - 1] as int);
    }
}

/// A larger amount never pays any recipient less, nor pays less in all.
pub proof fn law_payouts_grow_with_amount(
    s: SplitView,
    caller: Address,
    token: Address,
    smaller: i128,
    larger: i128,
)
    requires
        well_formed(s),
        s.active,
        0 < smaller <= larger,
    ensures
        forall|i: int|
            0 <= i < s.shares.len() ==> payout(smaller as int, #[trigger] s.shares[i] as int)
                <= payout(larger as int, s.shares[i] as int),
        execution(Some(s), caller, token, smaller) matches Ok(paid_smaller) ==> (execution(
            Some(s),
            caller,
            token,
            larger,
        ) matches Ok(paid_larger) ==> transfer_total(paid_smaller) <= transfer_total(paid_larger)),
{
    assert forall|i: int| 0 <= i < s.shares.len() implies payout(
        smaller as int,
        #[trigger] s.shares[i] as int,
    ) <= payout(larger as int, s.shares[i] as int) by {
        lemma_payout_monotone(smaller as int, larger as int, s.shares[i] as int);
    }
    let n: nat = s.recipients.len();
    if !payout_overflows(s.shares, smaller as int, n) && !payout_overflows(
        s.shares,
        larger as int,
        n,
    ) {
        lemma_transfer_total_is_due_total(caller, token, s.recipients, s.shares, smaller as int, n);
        lemma_transfer_total_is_due_total(caller, token, s.recipients, s.shares, larger as int, n);
        lemma_due_total_monotone(s.shares, smaller as int, larger as int, n);
    }
}

/// The id a new split gets is never in use, and once it is stored the stored
/// ids are again exactly `1..=count`: ids are unique and the count is the
/// number of splits created.
pub proof fn law_new_ids_are_fresh(state: ContractState, split: SplitView, event: ContractEvent)
    requires
        ids_are_the_count(state.splits, state.counter),
        state.counter < u64::MAX,
    ensures
        ({
            let split_id: u64 = (state.counter + 1) as u64;
            &&& lookup(state.splits, split_id) is None
            &&& ids_are_the_count(stored(state, split_id, split, event).splits, split_id)
        }),
{
    let split_id: u64 = (state.counter + 1) as u64;
    assert(!state.splits.contains_key(split_id));
}

/// The state after a sequence of calls, made in order on a freshly deployed
/// contract.
pub open spec fn run(calls: Seq<Call>) -> ContractState
    decreases calls.len(),
{
    if calls.len() == 0 {
        deployed()
    } else {
        after(run(calls.drop_last()), calls.last())
    }
}

/// The ids handed out by a sequence of calls, in the order they were handed out.
pub open spec fn issued_ids(calls: Seq<Call>) -> Seq<u64>
    decreases calls.len(),
{
    if calls.len() == 0 {
        seq![]
    } else {
        let earlier = issued_ids(calls.drop_last());
        match created_id(run(calls.drop_last()), calls.last()) {
            Some(split_id) => earlier.push(split_id),
            None => earlier,
        }
    }
}

proof fn lemma_after_keeps_ids(state: ContractState, call: Call)
    requires
        stored_well_formed(state.splits),
        ids_are_the_count(state.splits, state.counter),
    ensures
        stored_well_formed(after(state, call).splits),
        ids_are_the_count(after(state, call).splits, after(state, call).counter),
        after(state, call).counter == (match created_id(state, call) {
            Some(split_id) => split_id,
            None => state.counter,
        }),
        forall|split_id: u64| #[trigger]
            state.splits.contains_key(split_id) ==> after(state, call).splits.contains_key(
                split_id,
            ),
{
    let next = after(state, call);
    match call {
        Call::Create { owner, name, recipients, shares } => {
            if let Some(split_id) = created_id(state, call) {
                assert(!state.splits.contains_key(split_id));
                assert forall|id: u64| #[trigger]
                    next.splits.contains_key(id) implies next.splits[id].split_id == id
                    && well_formed(next.splits[id]) by {
                    if id != split_id {
                        assert(state.splits.contains_key(id));
                    }
                }
            }
        },
        Call::Update { owner, split_id, recipients, shares } => {
            if lookup(state.splits, split_id) is Some {
                assert(state.splits.contains_key(split_id));
            }
        },
        Call::Deactivate { owner, split_id } => {
            if lookup(state.splits, split_id) is Some {
                assert(state.splits.contains_key(split_id));
            }
        },
        Call::Reactivate { owner, split_id } => {
            if lookup(state.splits, split_id) is Some {
                assert(state.splits.contains_key(split_id));
            }
        },
        _ => {},
    }
}

/// Over any sequence of calls since deployment, initializations included
/// anywhere: the count is the number of splits created; the ids handed out
/// are 1, 2, 3, ... in order, so none is handed out twice; every id handed
/// out stays stored; and the stored splits are exactly those ids, each well
/// formed.
pub proof fn law_ids_over_any_history(calls: Seq<Call>)
    ensures
        run(calls).counter == issued_ids(calls).len(),
        forall|i: int| 0 <= i < issued_ids(calls).len() ==> #[trigger] issued_ids(calls)[i] == i + 1,
        forall|i: int, j: int|
            0 <= i < j < issued_ids(calls).len() ==> issued_ids(calls)[i] != issued_ids(calls)[j],
        forall|i: int|
            0 <= i < issued_ids(calls).len() ==> #[trigger] lookup(
                run(calls).splits,
                issued_ids(calls)[i],
            ) is Some,
        ids_are_the_count(run(calls).splits, run(calls).counter),
        stored_well_formed(run(calls).splits),
    decreases calls.len(),
{
    if calls.len() == 0 {
        assert(deployed().splits =~= Map::<u64, SplitView>::empty());
    } else {
        let earlier = calls.drop_last();
        law_ids_over_any_history(earlier);
        lemma_after_keeps_ids(run(earlier), calls.last());
        let ids = issued_ids(calls);
        assert forall|i: int| 0 <= i < ids.len() implies #[trigger] lookup(
            run(calls).splits,
            ids[i],
        ) is Some by {
            assert(1 <= ids[i] <= run(calls).counter);
        }
    }
}

/// A split is never created over another: the id a successful creation hands
/// out was never handed out before and holds no stored split, and every other
/// stored split stays as it was.
pub proof fn law_creation_never_overwrites(calls: Seq<Call>, call: Call)
    requires
        created_id(run(calls), call) is Some,
    ensures
        ({
            let split_id: u64 = created_id(run(calls), call)->0;
            let before = run(calls);
            let later = after(before, call);
            &&& !issued_ids(calls).contains(split_id)
            &&& lookup(before.splits, split_id) is None
            &&& forall|other: u64|
                other != split_id ==> #[trigger] lookup(later.splits, other) == lookup(
                    before.splits,
                    other,
                )
        }),
{
    law_ids_over_any_history(calls);
    let split_id: u64 = created_id(run(calls), call)->0;
    let ids = issued_ids(calls);
    if ids.contains(split_id) {
        let i: int = choose|i: int| 0 <= i < ids.len() && ids[i] == split_id;
        assert(ids[i] == i + 1);
    }
}

} // verus!

verus! {

/// The sum of some shares, added from the front.
pub open spec fn sum_of_shares(shares: Seq<u32>) -> int
    decreases shares.len(),
{
    if shares.len() == 0 {
        0
    } else {
        shares[0] + sum_of_shares(shares.drop_first())
    }
}

proof fn lemma_share_total_from_front(shares: Seq<u32>)
    ensures
        share_total(shares) == sum_of_shares(shares),
    decreases shares.len(),
{
    if shares.len() > 0 {
        lemma_share_total_from_front(shares.drop_first());
        lemma_share_total_first(shares);
    }
}

proof fn lemma_share_total_first(shares: Seq<u32>)
    requires
        shares.len() > 0,
    ensures
        share_total(shares) == shares[0] + share_total(shares.drop_first()),
    decreases shares.len(),
{
    if shares.len() > 1 {
        lemma_share_total_first(shares.drop_last());
        assert(shares.drop_first().drop_last() =~= shares.drop_last().drop_first());
    } else {
        assert(shares.drop_first() =~= Seq::<u32>::empty());
        assert(shares.drop_last() =~= Seq::<u32>::empty());
    }
}

/// Creation succeeds exactly when the name is not empty, there is at least one
/// recipient, there is one share per recipient and the shares add up to 10000,
/// whatever the number of recipients.
pub proof fn law_creation_accepts_every_valid_split(
    name: Seq<char>,
    recipients_len: nat,
    shares: Seq<u32>,
)
    ensures
        creation_error(name, recipients_len, shares) is None <==> {
            &&& name.len() > 0
            &&& recipients_len >= 1
            &&& shares.len() == recipients_len
            &&& sum_of_shares(shares) == 10000
        },
{
    lemma_share_total_from_front(shares);
}

/// The owner of an active split can replace its recipients and shares with any
/// valid ones: at least one recipient, one share per recipient, shares adding
/// up to 10000. The update is refused otherwise, and a successful one stores
/// exactly the given recipients and shares and changes nothing else.
pub proof fn law_owner_update_of_active_split(
    s: SplitView,
    caller: Address,
    recipients: Seq<Address>,
    shares: Seq<u32>,
)
    requires
        s.owner@ == caller@,
        s.active,
    ensures
        updated(Some(s), caller, recipients, shares) is Ok <==> {
            &&& recipients.len() >= 1
            &&& shares.len() == recipients.len()
            &&& sum_of_shares(shares) == 10000
        },
        updated(Some(s), caller, recipients, shares) is Ok ==> updated(
            Some(s),
            caller,
            recipients,
            shares,
        ) == Ok::<SplitView, SplitError>(
            SplitView {
                split_id: s.split_id,
                owner: s.owner,
                name: s.name,
                recipients,
                shares,
                active: true,
            },
        ),
{
    lemma_share_total_from_front(shares);
}

/// The owner deactivates an active split and reactivates an inactive one;
/// either way the stored split keeps its id, owner, name, recipients and
/// shares, and only the active flag changes.
pub proof fn law_activity_changes_only_the_flag(s: SplitView, caller: Address)
    requires
        s.owner@ == caller@,
    ensures
        s.active ==> deactivated(Some(s), caller) == Ok::<SplitView, SplitError>(
            SplitView {
                split_id: s.split_id,
                owner: s.owner,
                name: s.name,
                recipients: s.recipients,
                shares: s.shares,
                active: false,
            },
        ),
        !s.active ==> reactivated(Some(s), caller) == Ok::<SplitView, SplitError>(
            SplitView {
                split_id: s.split_id,
                owner: s.owner,
                name: s.name,
                recipients: s.recipients,
                shares: s.shares,
                active: true,
            },
        ),
        !s.active ==> deactivated(Some(s), caller) == Err::<SplitView, SplitError>(
            SplitError::AlreadyInactive,
        ),
        s.active ==> reactivated(Some(s), caller) == Err::<SplitView, SplitError>(
            SplitError::AlreadyActive,
        ),
{
}

/// The indices, below `n`, of the recipients whose part of `amount` is
/// positive, in increasing order.
pub open spec fn paying_indices(shares: Seq<u32>, amount: int, n: nat) -> Seq<int>
    decreases n,
{
    if n == 0 {
        seq![]
    } else {
        let earlier = paying_indices(shares, amount, (n - 1) as nat);
        if amount * shares[n - 1] / 10000 > 0 {
            earlier.push(n - 1)
        } else {
            earlier
        }
    }
}

proof fn lemma_payouts_follow_indices(
    caller: Address,
    token: Address,
    recipients: Seq<Address>,
    shares: Seq<u32>,
    amount: int,
    n: nat,
)
    requires
        amount > 0,
        n <= shares.len(),
        n <= recipients.len(),
        !payout_overflows(shares, amount, n),
    ensures
        ({
            let paid = payouts(caller, token, recipients, shares, amount, n);
            let idx = paying_indices(shares, amount, n);
            &&& paid.len() == idx.len()
            &&& forall|k: int| 0 <= k < idx.len() ==> 0 <= #[trigger] idx[k] < n
            &&& forall|k: int, l: int| 0 <= k < l < idx.len() ==> idx[k] < idx[l]
            &&& forall|i: int|
                0 <= i < n && amount * shares[i] / 10000 > 0 ==> #[trigger] idx.contains(i)
            &&& forall|k: int|
                0 <= k < idx.len() ==> #[trigger] paid[k] == (Transfer {
                    from: caller,
                    to: recipients[idx[k]],
                    token,
                    amount: (amount * shares[idx[k]] / 10000) as i128,
                })
        }),
    decreases n,
{
    if n > 0 {
        let i: int = n - 1;
        assert(!payout_overflows(shares, amount, (n - 1) as nat));
        lemma_payouts_follow_indices(caller, token, recipients, shares, amount, (n - 1) as nat);
        let idx = paying_indices(shares, amount, n);
        let prev = paying_indices(shares, amount, (n - 1) as nat);
        assert forall|j: int|
            0 <= j < n && amount * shares[j] / 10000 > 0 implies #[trigger] idx.contains(j) by {
            if j < i {
                assert(prev.contains(j));
                let k: int = choose|k: int| 0 <= k < prev.len() && prev[k] == j;
                assert(idx[k] == j);
            } else {
                assert(idx[idx.len() - 1] == i);
            }
        }
    }
}

/// A successful execution makes exactly one transfer per recipient whose part
/// is positive, in recipient order: the transfer for recipient `i` goes from
/// the caller, in the token given, to `recipients[i]`, for
/// `amount * shares[i] / 10000`. No recipient whose part is positive is left
/// out, and none is paid twice.
pub proof fn law_each_recipient_is_paid_its_own_part(
    s: SplitView,
    caller: Address,
    token: Address,
    amount: i128,
)
    requires
        well_formed(s),
    ensures
        execution(Some(s), caller, token, amount) matches Ok(transfers) ==> {
            let idx = paying_indices(s.shares, amount as int, s.recipients.len());
            &&& transfers.len() == idx.len()
            &&& forall|k: int| 0 <= k < idx.len() ==> 0 <= #[trigger] idx[k] < s.recipients.len()
            &&& forall|k: int, l: int| 0 <= k < l < idx.len() ==> idx[k] < idx[l]
            &&& forall|i: int|
                0 <= i < s.recipients.len() && amount * s.shares[i] / 10000 > 0
                    ==> #[trigger] idx.contains(i)
            &&& forall|k: int|
                0 <= k < idx.len() ==> #[trigger] transfers[k] == (Transfer {
                    from: caller,
                    to: s.recipients[idx[k]],
                    token,
                    amount: (amount * s.shares[idx[k]] / 10000) as i128,
                })
        },
{
    if amount > 0 && !payout_overflows(s.shares, amount as int, s.recipients.len()) {
        lemma_payouts_follow_indices(
            caller,
            token,
            s.recipients,
            s.shares,
            amount as int,
            s.recipients.len(),
        );
    }
}

/// A recipient's part is its share of the amount in basis points, rounded
/// down: the largest whole number whose 10000-fold does not exceed
/// `amount * share`.
pub proof fn law_part_is_rounded_down_share(amount: int, share: int)
    requires
        amount >= 0,
        share >= 0,
    ensures
        0 <= payout(amount, share),
        10000 * payout(amount, share) <= amount * share < 10000 * (payout(amount, share) + 1),
{
    lemma_payout_bounds(amount, share);
}

/// Executing a split is refused exactly when the amount is not positive, the
/// split is missing or inactive, or some recipient's part overflows, and the
/// first of these that holds, in that order, is the error.
pub proof fn law_execution_refusals(
    loaded: Option<SplitView>,
    caller: Address,
    token: Address,
    amount: i128,
)
    ensures
        amount <= 0 ==> execution(loaded, caller, token, amount) == Err::<Seq<Transfer>, SplitError>(
            SplitError::AmountNotPositive,
        ),
        amount > 0 ==> (loaded is None ==> execution(loaded, caller, token, amount) == Err::<
            Seq<Transfer>,
            SplitError,
        >(SplitError::SplitNotFound)),
        amount > 0 ==> (loaded matches Some(s) ==> (!s.active ==> execution(
            loaded,
            caller,
            token,
            amount,
        ) == Err::<Seq<Transfer>, SplitError>(SplitError::SplitNotActive))),
        amount > 0 ==> (loaded matches Some(s) ==> (s.active ==> (execution(
            loaded,
            caller,
            token,
            amount,
        ) is Err <==> exists|i: int|
            0 <= i < s.recipients.len() && amount * #[trigger] s.shares[i] > i128::MAX))),
        execution(loaded, caller, token, amount) matches Err(e) ==> (amount > 0 ==> (
        loaded matches Some(s) ==> (s.active ==> e == SplitError::PayoutOverflow))),
{
}

/// An update is refused for a missing split, then for anyone but the owner,
/// then for an inactive split.
pub proof fn law_update_refusals(
    loaded: Option<SplitView>,
    caller: Address,
    recipients: Seq<Address>,
    shares: Seq<u32>,
)
    ensures
        loaded is None ==> updated(loaded, caller, recipients, shares) == Err::<
            SplitView,
            SplitError,
        >(SplitError::SplitNotFound),
        loaded matches Some(s) ==> (s.owner@ != caller@ ==> updated(
            loaded,
            caller,
            recipients,
            shares,
        ) == Err::<SplitView, SplitError>(SplitError::NotOwner)),
        loaded matches Some(s) ==> (s.owner@ == caller@ && !s.active ==> updated(
            loaded,
            caller,
            recipients,
            shares,
        ) == Err::<SplitView, SplitError>(SplitError::SplitNotActive)),
        loaded is None ==> deactivated(loaded, caller) == Err::<SplitView, SplitError>(
            SplitError::SplitNotFound,
        ),
        loaded is None ==> reactivated(loaded, caller) == Err::<SplitView, SplitError>(
            SplitError::SplitNotFound,
        ),
{
}

} // verus!
