use std::collections::HashMap;

use soroban_split::{Address, ContractEvent, SorobanSplitContract, SplitError, Transfer};

fn generate(label: &str) -> Address {
    Address::new(&format!("G{}", label))
}

fn setup() -> (Address, SorobanSplitContract) {
    let admin = generate("ADMIN");
    let mut client = SorobanSplitContract::new();
    client.initialize(admin.clone()).unwrap();
    (admin, client)
}

fn make_split(
    client: &mut SorobanSplitContract,
    owner: &Address,
    recipients: Vec<Address>,
    shares: Vec<u32>,
) -> u64 {
    client
        .create_split(owner.clone(), "Test Split".to_string(), recipients, shares)
        .unwrap()
}

/// Token balances after minting to some accounts and making the transfers.
fn balances_after(minted: &[(Address, i128)], transfers: &[Transfer]) -> HashMap<String, i128> {
    let mut balances: HashMap<String, i128> = HashMap::new();
    for (account, amount) in minted {
        *balances.entry(account.strkey.clone()).or_insert(0) += *amount;
    }
    for t in transfers {
        *balances.entry(t.from.strkey.clone()).or_insert(0) -= t.amount;
        *balances.entry(t.to.strkey.clone()).or_insert(0) += t.amount;
    }
    balances
}

fn balance(balances: &HashMap<String, i128>, account: &Address) -> i128 {
    *balances.get(&account.strkey).unwrap_or(&0)
}

#[test]
fn test_initialize() {
    let (_admin, client) = setup();
    assert_eq!(client.get_count(), 0);
}

#[test]
fn test_create_split() {
    let (_, mut client) = setup();
    let owner = generate("OWNER");
    let r1 = generate("R1");
    let r2 = generate("R2");

    let recipients = vec![r1.clone(), r2.clone()];
    let shares = vec![7000u32, 3000u32];

    let id = client
        .create_split(owner.clone(), "Revenue Split".to_string(), recipients, shares)
        .unwrap();

    assert_eq!(id, 1);
    assert_eq!(client.get_count(), 1);

    let split = client.get_split(id).unwrap();
    assert_eq!(split.owner, owner);
    assert!(split.active);
    assert_eq!(split.shares[0], 7000u32);
    assert_eq!(split.shares[1], 3000u32);
}

#[test]
fn test_execute_split_distributes_correctly() {
    let (_, mut client) = setup();
    let token = Address::new("CTOKEN");
    let owner = generate("OWNER");
    let caller = generate("CALLER");
    let r1 = generate("R1");
    let r2 = generate("R2");
    let r3 = generate("R3");

    let recipients = vec![r1.clone(), r2.clone(), r3.clone()];
    let shares = vec![7000u32, 2000u32, 1000u32];

    let id = make_split(&mut client, &owner, recipients, shares);
    let transfers = client.execute_split(caller.clone(), id, token, 10_000i128).unwrap();

    let balances = balances_after(&[(caller.clone(), 10_000)], &transfers);
    assert_eq!(balance(&balances, &r1), 7000);
    assert_eq!(balance(&balances, &r2), 2000);
    assert_eq!(balance(&balances, &r3), 1000);
}

#[test]
fn test_execute_single_recipient() {
    let (_, mut client) = setup();
    let token = Address::new("CTOKEN");
    let owner = generate("OWNER");
    let caller = generate("CALLER");
    let r1 = generate("R1");

    let id = make_split(&mut client, &owner, vec![r1.clone()], vec![10000u32]);
    let transfers = client.execute_split(caller.clone(), id, token, 5_000i128).unwrap();

    let balances = balances_after(&[(caller.clone(), 5_000)], &transfers);
    assert_eq!(balance(&balances, &r1), 5000);
}

#[test]
fn test_update_split() {
    let (_, mut client) = setup();
    let owner = generate("OWNER");
    let r1 = generate("R1");
    let r2 = generate("R2");

    let id = make_split(&mut client, &owner, vec![r1.clone()], vec![10000u32]);

    let new_recipients = vec![r1.clone(), r2.clone()];
    let new_shares = vec![5000u32, 5000u32];

    client.update_split(owner.clone(), id, new_recipients, new_shares).unwrap();

    let split = client.get_split(id).unwrap();
    assert_eq!(split.recipients.len(), 2);
    assert_eq!(split.shares[0], 5000u32);
    assert_eq!(split.shares[1], 5000u32);
}

#[test]
fn test_deactivate_split() {
    let (_, mut client) = setup();
    let owner = generate("OWNER");
    let r1 = generate("R1");

    let id = make_split(&mut client, &owner, vec![r1], vec![10000u32]);
    assert!(client.get_split(id).unwrap().active);

    client.deactivate_split(owner.clone(), id).unwrap();
    assert!(!client.get_split(id).unwrap().active);
}

#[test]
fn test_reactivate_split() {
    let (_, mut client) = setup();
    let owner = generate("OWNER");
    let r1 = generate("R1");

    let id = make_split(&mut client, &owner, vec![r1], vec![10000u32]);
    client.deactivate_split(owner.clone(), id).unwrap();
    assert!(!client.get_split(id).unwrap().active);

    client.reactivate_split(owner.clone(), id).unwrap();
    assert!(client.get_split(id).unwrap().active);
}

#[test]
fn test_multiple_splits_increment_counter() {
    let (_, mut client) = setup();
    let owner = generate("OWNER");
    let r1 = generate("R1");

    let recipients = vec![r1];
    let shares = vec![10000u32];

    let id1 = make_split(&mut client, &owner, recipients.clone(), shares.clone());
    let id2 = make_split(&mut client, &owner, recipients.clone(), shares.clone());
    let id3 = make_split(&mut client, &owner, recipients, shares);

    assert_eq!(id1, 1);
    assert_eq!(id2, 2);
    assert_eq!(id3, 3);
    assert_eq!(client.get_count(), 3);
}

#[test]
fn test_get_recipients_and_shares() {
    let (_, mut client) = setup();
    let owner = generate("OWNER");
    let r1 = generate("R1");
    let r2 = generate("R2");

    let id = make_split(&mut client, &owner, vec![r1.clone(), r2.clone()], vec![6000u32, 4000u32]);

    let r = client.get_recipients(id).unwrap();
    assert_eq!(r.len(), 2);

    let s = client.get_shares(id).unwrap();
    assert_eq!(s[0], 6000u32);
    assert_eq!(s[1], 4000u32);
}

#[test]
fn test_shares_must_sum_to_10000() {
    let (_, mut client) = setup();
    let owner = generate("OWNER");
    let r1 = generate("R1");

    let err = client
        .create_split(owner, "Bad Split".to_string(), vec![r1], vec![5000u32])
        .unwrap_err();
    assert_eq!(err, SplitError::SharesNotWhole);
    assert_eq!(err.message(), "Shares must sum to 10000 basis points");
}

#[test]
fn test_length_mismatch_panics() {
    let (_, mut client) = setup();
    let owner = generate("OWNER");
    let r1 = generate("R1");
    let r2 = generate("R2");

    let err = client
        .create_split(owner, "Bad Split".to_string(), vec![r1, r2], vec![10000u32])
        .unwrap_err();
    assert_eq!(err, SplitError::LengthMismatch);
    assert_eq!(err.message(), "Recipients and shares length mismatch");
}

#[test]
fn test_execute_inactive_split_panics() {
    let (_, mut client) = setup();
    let token = Address::new("CTOKEN");
    let owner = generate("OWNER");
    let caller = generate("CALLER");
    let r1 = generate("R1");

    let id = make_split(&mut client, &owner, vec![r1], vec![10000u32]);
    client.deactivate_split(owner.clone(), id).unwrap();
    let err = client.execute_split(caller, id, token, 1000i128).unwrap_err();
    assert_eq!(err, SplitError::SplitNotActive);
    assert_eq!(err.message(), "Split is not active");
}

#[test]
fn test_zero_amount_panics() {
    let (_, mut client) = setup();
    let token = Address::new("CTOKEN");
    let owner = generate("OWNER");
    let caller = generate("CALLER");
    let r1 = generate("R1");

    let id = make_split(&mut client, &owner, vec![r1], vec![10000u32]);
    let err = client.execute_split(caller, id, token, 0i128).unwrap_err();
    assert_eq!(err, SplitError::AmountNotPositive);
    assert_eq!(err.message(), "Amount must be greater than zero");
}

#[test]
fn test_non_owner_cannot_deactivate() {
    let (_, mut client) = setup();
    let owner = generate("OWNER");
    let attacker = generate("ATTACKER");
    let r1 = generate("R1");

    let id = make_split(&mut client, &owner, vec![r1], vec![10000u32]);
    let err = client.deactivate_split(attacker, id).unwrap_err();
    assert_eq!(err, SplitError::NotOwner);
    assert_eq!(err.message(), "Not the split owner");
}

// ------------------------------------------------------------------
// Further cases
// ------------------------------------------------------------------

#[test]
fn count_is_zero_before_initialize() {
    let client = SorobanSplitContract::new();
    assert_eq!(client.get_count(), 0);
    assert!(client.events().is_empty());
}

#[test]
fn created_split_reads_back_whole() {
    let (_, mut client) = setup();
    let owner = generate("OWNER");
    let r1 = generate("R1");
    let r2 = generate("R2");
    let id = client
        .create_split(owner.clone(), "Team".to_string(), vec![r1.clone(), r2.clone()], vec![2500, 7500])
        .unwrap();
    let split = client.get_split(id).unwrap();
    assert_eq!(split.split_id, id);
    assert_eq!(split.owner, owner);
    assert_eq!(split.name, "Team");
    assert_eq!(split.recipients, vec![r1.clone(), r2.clone()]);
    assert_eq!(split.shares, vec![2500, 7500]);
    assert!(split.active);
    assert_eq!(client.get_recipients(id).unwrap(), vec![r1, r2]);
    assert_eq!(client.get_shares(id).unwrap(), vec![2500, 7500]);
}

#[test]
fn create_split_rejects_empty_name() {
    let (_, mut client) = setup();
    let err = client
        .create_split(generate("OWNER"), String::new(), vec![generate("R1")], vec![10000])
        .unwrap_err();
    assert_eq!(err, SplitError::NameEmpty);
    assert_eq!(err.message(), "Name cannot be empty");
    assert_eq!(client.get_count(), 0);
}

#[test]
fn create_split_rejects_no_recipients() {
    let (_, mut client) = setup();
    let err = client
        .create_split(generate("OWNER"), "Empty".to_string(), vec![], vec![])
        .unwrap_err();
    assert_eq!(err, SplitError::NoRecipients);
    assert_eq!(err.message(), "Must have at least one recipient");
}

#[test]
fn create_split_rejects_overflowing_shares() {
    let (_, mut client) = setup();
    let err = client
        .create_split(
            generate("OWNER"),
            "Wrap".to_string(),
            vec![generate("R1"), generate("R2")],
            vec![u32::MAX, 10001],
        )
        .unwrap_err();
    assert_eq!(err, SplitError::ShareSumOverflow);
    assert_eq!(client.get_count(), 0);
}

#[test]
fn name_is_checked_before_the_shares() {
    let (_, mut client) = setup();
    let err = client
        .create_split(generate("OWNER"), String::new(), vec![generate("R1")], vec![1])
        .unwrap_err();
    assert_eq!(err, SplitError::NameEmpty);
}

#[test]
fn missing_split_is_reported() {
    let (_, mut client) = setup();
    let owner = generate("OWNER");
    assert_eq!(client.get_split(7).unwrap_err(), SplitError::SplitNotFound);
    assert_eq!(client.get_recipients(7).unwrap_err(), SplitError::SplitNotFound);
    assert_eq!(client.get_shares(7).unwrap_err(), SplitError::SplitNotFound);
    assert_eq!(client.deactivate_split(owner.clone(), 7).unwrap_err(), SplitError::SplitNotFound);
    assert_eq!(client.reactivate_split(owner.clone(), 7).unwrap_err(), SplitError::SplitNotFound);
    assert_eq!(
        client.update_split(owner.clone(), 7, vec![generate("R1")], vec![10000]).unwrap_err(),
        SplitError::SplitNotFound
    );
    let err = client.execute_split(owner, 7, Address::new("CTOKEN"), 10).unwrap_err();
    assert_eq!(err, SplitError::SplitNotFound);
    assert_eq!(err.message(), "Split not found");
}

#[test]
fn amount_is_checked_before_the_split_is_looked_up() {
    let (_, mut client) = setup();
    let err = client
        .execute_split(generate("CALLER"), 99, Address::new("CTOKEN"), -5)
        .unwrap_err();
    assert_eq!(err, SplitError::AmountNotPositive);
}

#[test]
fn deactivating_twice_is_refused() {
    let (_, mut client) = setup();
    let owner = generate("OWNER");
    let id = make_split(&mut client, &owner, vec![generate("R1")], vec![10000]);
    client.deactivate_split(owner.clone(), id).unwrap();
    let err = client.deactivate_split(owner, id).unwrap_err();
    assert_eq!(err, SplitError::AlreadyInactive);
    assert_eq!(err.message(), "Split already inactive");
}

#[test]
fn reactivating_an_active_split_is_refused() {
    let (_, mut client) = setup();
    let owner = generate("OWNER");
    let id = make_split(&mut client, &owner, vec![generate("R1")], vec![10000]);
    let err = client.reactivate_split(owner, id).unwrap_err();
    assert_eq!(err, SplitError::AlreadyActive);
    assert_eq!(err.message(), "Split is already active");
}

#[test]
fn non_owner_cannot_update_or_reactivate() {
    let (_, mut client) = setup();
    let owner = generate("OWNER");
    let other = generate("OTHER");
    let id = make_split(&mut client, &owner, vec![generate("R1")], vec![10000]);
    let before = client.get_split(id).unwrap();
    assert_eq!(
        client.update_split(other.clone(), id, vec![other.clone()], vec![10000]).unwrap_err(),
        SplitError::NotOwner
    );
    client.deactivate_split(owner.clone(), id).unwrap();
    assert_eq!(client.reactivate_split(other, id).unwrap_err(), SplitError::NotOwner);
    let after = client.get_split(id).unwrap();
    assert_eq!(after.recipients, before.recipients);
    assert!(!after.active);
}

#[test]
fn inactive_split_cannot_be_updated() {
    let (_, mut client) = setup();
    let owner = generate("OWNER");
    let id = make_split(&mut client, &owner, vec![generate("R1")], vec![10000]);
    client.deactivate_split(owner.clone(), id).unwrap();
    let err = client.update_split(owner, id, vec![generate("R2")], vec![10000]).unwrap_err();
    assert_eq!(err, SplitError::SplitNotActive);
}

#[test]
fn update_is_validated_and_leaves_the_split_when_refused() {
    let (_, mut client) = setup();
    let owner = generate("OWNER");
    let id = make_split(&mut client, &owner, vec![generate("R1")], vec![10000]);
    let before = client.get_split(id).unwrap();
    let events_before = client.events().len();
    assert_eq!(
        client.update_split(owner.clone(), id, vec![], vec![]).unwrap_err(),
        SplitError::NoRecipients
    );
    assert_eq!(
        client.update_split(owner.clone(), id, vec![generate("R2")], vec![9999]).unwrap_err(),
        SplitError::SharesNotWhole
    );
    assert_eq!(client.get_split(id).unwrap(), before);
    assert_eq!(client.events().len(), events_before);
}

#[test]
fn update_keeps_id_owner_name_and_activity() {
    let (_, mut client) = setup();
    let owner = generate("OWNER");
    let id = make_split(&mut client, &owner, vec![generate("R1")], vec![10000]);
    client
        .update_split(owner.clone(), id, vec![generate("R2"), generate("R3")], vec![1, 9999])
        .unwrap();
    let split = client.get_split(id).unwrap();
    assert_eq!(split.split_id, id);
    assert_eq!(split.owner, owner);
    assert_eq!(split.name, "Test Split");
    assert!(split.active);
    assert_eq!(split.recipients, vec![generate("R2"), generate("R3")]);
    assert_eq!(split.shares, vec![1, 9999]);
}

#[test]
fn deactivate_then_reactivate_restores_the_split() {
    let (_, mut client) = setup();
    let owner = generate("OWNER");
    let id = make_split(&mut client, &owner, vec![generate("R1"), generate("R2")], vec![4000, 6000]);
    let before = client.get_split(id).unwrap();
    client.deactivate_split(owner.clone(), id).unwrap();
    client.reactivate_split(owner.clone(), id).unwrap();
    assert_eq!(client.get_split(id).unwrap(), before);
}

#[test]
fn execution_does_not_change_the_split() {
    let (_, mut client) = setup();
    let owner = generate("OWNER");
    let id = make_split(&mut client, &owner, vec![generate("R1")], vec![10000]);
    let before = client.get_split(id).unwrap();
    client.execute_split(generate("CALLER"), id, Address::new("CTOKEN"), 77).unwrap();
    assert_eq!(client.get_split(id).unwrap(), before);
    assert_eq!(client.get_count(), 1);
}

#[test]
fn execution_skips_parts_that_round_to_zero() {
    let (_, mut client) = setup();
    let owner = generate("OWNER");
    let r1 = generate("R1");
    let r2 = generate("R2");
    let id = make_split(&mut client, &owner, vec![r1.clone(), r2.clone()], vec![9999, 1]);
    let transfers = client.execute_split(generate("CALLER"), id, Address::new("CTOKEN"), 100).unwrap();
    assert_eq!(transfers.len(), 1);
    assert_eq!(transfers[0].to, r1);
    assert_eq!(transfers[0].amount, 99);
}

#[test]
fn execution_leaves_dust_below_one_unit_per_recipient() {
    let (_, mut client) = setup();
    let owner = generate("OWNER");
    let id = make_split(
        &mut client,
        &owner,
        vec![generate("R1"), generate("R2"), generate("R3")],
        vec![3333, 3333, 3334],
    );
    let transfers = client.execute_split(generate("CALLER"), id, Address::new("CTOKEN"), 10_001).unwrap();
    let amounts: Vec<i128> = transfers.iter().map(|t| t.amount).collect();
    assert_eq!(amounts, vec![3333, 3333, 3334]);
    let total: i128 = amounts.iter().sum();
    assert!(total <= 10_001);
    assert!(10_001 - total < 3);
}

#[test]
fn whole_amounts_are_paid_exactly() {
    let (_, mut client) = setup();
    let owner = generate("OWNER");
    let id = make_split(
        &mut client,
        &owner,
        vec![generate("R1"), generate("R2"), generate("R3")],
        vec![3333, 3333, 3334],
    );
    let transfers = client.execute_split(generate("CALLER"), id, Address::new("CTOKEN"), 30_000).unwrap();
    let total: i128 = transfers.iter().map(|t| t.amount).sum();
    assert_eq!(total, 30_000);
}

#[test]
fn transfers_come_from_the_caller_in_the_token() {
    let (_, mut client) = setup();
    let owner = generate("OWNER");
    let caller = generate("CALLER");
    let token = Address::new("CTOKEN");
    let id = make_split(&mut client, &owner, vec![generate("R1"), generate("R2")], vec![5000, 5000]);
    let transfers = client.execute_split(caller.clone(), id, token.clone(), 3).unwrap();
    assert_eq!(transfers.len(), 2);
    for t in &transfers {
        assert_eq!(t.from, caller);
        assert_eq!(t.token, token);
        assert_eq!(t.amount, 1);
    }
}

#[test]
fn overflowing_payout_is_refused() {
    let (_, mut client) = setup();
    let owner = generate("OWNER");
    let id = make_split(&mut client, &owner, vec![generate("R1")], vec![10000]);
    let err = client
        .execute_split(generate("CALLER"), id, Address::new("CTOKEN"), i128::MAX)
        .unwrap_err();
    assert_eq!(err, SplitError::PayoutOverflow);
    assert_eq!(client.events().len(), 2);
}

#[test]
fn events_record_every_accepted_operation() {
    let admin = generate("ADMIN");
    let owner = generate("OWNER");
    let caller = generate("CALLER");
    let mut client = SorobanSplitContract::new();
    client.initialize(admin.clone()).unwrap();
    let id = make_split(&mut client, &owner, vec![generate("R1")], vec![10000]);
    client.execute_split(caller.clone(), id, Address::new("CTOKEN"), 500).unwrap();
    client.update_split(owner.clone(), id, vec![generate("R2")], vec![10000]).unwrap();
    client.deactivate_split(owner.clone(), id).unwrap();
    client.reactivate_split(owner.clone(), id).unwrap();
    let _ = client.deactivate_split(caller.clone(), id);
    assert_eq!(
        client.events(),
        &vec![
            ContractEvent::Initialized { admin },
            ContractEvent::SplitCreated { split_id: 1, owner: owner.clone() },
            ContractEvent::SplitExecuted { split_id: 1, caller, amount: 500 },
            ContractEvent::SplitUpdated { split_id: 1, owner: owner.clone() },
            ContractEvent::SplitDeactivated { split_id: 1, owner: owner.clone() },
            ContractEvent::SplitReactivated { split_id: 1, owner },
        ]
    );
}

#[test]
fn initializing_again_is_refused() {
    let (_admin, mut client) = setup();
    let owner = generate("OWNER");
    make_split(&mut client, &owner, vec![generate("R1")], vec![10000]);
    make_split(&mut client, &owner, vec![generate("R2")], vec![10000]);
    let events_before = client.events().len();
    let err = client.initialize(generate("INTRUDER")).unwrap_err();
    assert_eq!(err, SplitError::AlreadyInitialized);
    assert_eq!(err.message(), "Contract already initialized");
    assert_eq!(client.get_count(), 2);
    assert_eq!(client.events().len(), events_before);
    let id = make_split(&mut client, &owner, vec![generate("R3")], vec![10000]);
    assert_eq!(id, 3);
    assert_eq!(client.get_split(1).unwrap().recipients, vec![generate("R1")]);
    assert_eq!(client.get_split(2).unwrap().recipients, vec![generate("R2")]);
}

#[test]
fn initializing_after_creating_keeps_the_count() {
    let mut client = SorobanSplitContract::new();
    let owner = generate("OWNER");
    let first = make_split(&mut client, &owner, vec![generate("R1")], vec![10000]);
    assert_eq!(first, 1);
    client.initialize(generate("ADMIN")).unwrap();
    assert_eq!(client.get_count(), 1);
    let second = make_split(&mut client, &owner, vec![generate("R2")], vec![10000]);
    assert_eq!(second, 2);
    assert_eq!(client.get_split(1).unwrap().recipients, vec![generate("R1")]);
}

#[test]
fn largest_moderate_amount_is_paid() {
    let (_, mut client) = setup();
    let owner = generate("OWNER");
    let id = make_split(&mut client, &owner, vec![generate("R1"), generate("R2")], vec![4000, 6000]);
    let amount = i128::MAX / 10_000;
    let transfers = client.execute_split(generate("CALLER"), id, Address::new("CTOKEN"), amount).unwrap();
    assert_eq!(transfers.len(), 2);
    assert_eq!(transfers[0].amount, amount * 4000 / 10_000);
    assert_eq!(transfers[1].amount, amount * 6000 / 10_000);
}

#[test]
fn count_matches_creations_over_a_mixed_history() {
    let mut client = SorobanSplitContract::new();
    let owner = generate("OWNER");
    let caller = generate("CALLER");
    let mut issued = Vec::new();
    issued.push(make_split(&mut client, &owner, vec![generate("R1")], vec![10000]));
    client.initialize(generate("ADMIN")).unwrap();
    let _ = client.create_split(owner.clone(), "Bad".to_string(), vec![generate("R1")], vec![1]);
    issued.push(make_split(&mut client, &owner, vec![generate("R2")], vec![10000]));
    client.execute_split(caller, 1, Address::new("CTOKEN"), 100).unwrap();
    let _ = client.initialize(generate("OTHER"));
    client.deactivate_split(owner.clone(), 2).unwrap();
    issued.push(make_split(&mut client, &owner, vec![generate("R3")], vec![10000]));
    assert_eq!(issued, vec![1, 2, 3]);
    assert_eq!(client.get_count(), 3);
    for id in &issued {
        assert_eq!(client.get_split(*id).unwrap().split_id, *id);
    }
}
