use std::collections::HashMap;

use vstd::prelude::*;

use crate::ops::{
    creation_error, well_formed, loaded_view, split_result_view, plan_result_view, updated,
    deactivated, reactivated, execution, new_split, update_record, deactivate_record,
    reactivate_record, plan_execution, check_initialization,
};
use crate::types::{
    Address, Split, SplitView, SplitError, Transfer, ContractEvent, copy_addresses, copy_shares,
};

verus! {

broadcast use vstd::std_specs::hash::group_hash_axioms;

/// The keys under which the contract keeps its data.
#[derive(Debug, Clone, Copy, PartialEq, Eq, Structural)]
pub enum DataKey {
    /// A split, by its id.
    Split(u64),
    /// The number of splits created.
    Counter,
    /// The contract's admin.
    Admin,
}

/// The storage in which a key is kept.
#[derive(Debug, Clone, Copy, PartialEq, Eq, Structural)]
pub enum StorageTier {
    /// Shared with the contract instance: its global settings.
    Instance,
    /// Kept per key: the records that must outlive the instance's settings.
    Persistent,
}

impl DataKey {
    /// Where the data under this key is kept: splits are persistent, the
    /// counter and the admin live with the instance.
    pub fn tier(&self) -> (tier: StorageTier)
        ensures
            tier == (match *self {
                DataKey::Split(_) => StorageTier::Persistent,
                _ => StorageTier::Instance,
            }),
    {
        match self {
            DataKey::Split(_) => StorageTier::Persistent,
            DataKey::Counter => StorageTier::Instance,
            DataKey::Admin => StorageTier::Instance,
        }
    }
}

/// The contract: its storage (admin, split counter, splits by id) and the
/// events it has published.
pub struct SorobanSplitContract {
    admin: Option<Address>,
    counter: u64,
    splits: HashMap<u64, Split>,
    events: Vec<ContractEvent>,
}

/// The contract's state as a mathematical value.
pub struct ContractState {
    pub admin: Option<Address>,
    pub counter: u64,
    pub splits: Map<u64, SplitView>,
    pub events: Seq<ContractEvent>,
}

impl View for SorobanSplitContract {
    type V = ContractState;

    closed spec fn view(&self) -> ContractState {
        ContractState {
            admin: self.admin,
            counter: self.counter,
            splits: self.splits@.map_values(|s: Split| s@),
            events: self.events@,
        }
    }
}

/// The split stored under `split_id`, if any.
pub open spec fn lookup(splits: Map<u64, SplitView>, split_id: u64) -> Option<SplitView> {
    if splits.contains_key(split_id) {
        Some(splits[split_id])
    } else {
        None
    }
}

/// Every stored split is well formed and carries the id it is stored under.
pub open spec fn stored_well_formed(splits: Map<u64, SplitView>) -> bool {
    forall|id: u64|
        #[trigger] splits.contains_key(id) ==> splits[id].split_id == id && well_formed(splits[id])
}

/// The splits stored are exactly those with ids `1..=count`: one per split
/// created, each id used once.
pub open spec fn ids_are_the_count(splits: Map<u64, SplitView>, count: u64) -> bool {
    forall|id: u64| #[trigger] splits.contains_key(id) <==> 1 <= id <= count
}

/// The state after a split is stored and an event published.
pub open spec fn stored(
    state: ContractState,
    split_id: u64,
    split: SplitView,
    event: ContractEvent,
) -> ContractState {
    ContractState {
        splits: state.splits.insert(split_id, split),
        events: state.events.push(event),
        ..state
    }
}

/// A call to one of the contract's state-changing operations, with its arguments.
pub enum Call {
    Initialize { admin: Address },
    Create { owner: Address, name: String, recipients: Seq<Address>, shares: Seq<u32> },
    Execute { caller: Address, split_id: u64, token: Address, amount: i128 },
    Update { owner: Address, split_id: u64, recipients: Seq<Address>, shares: Seq<u32> },
    Deactivate { owner: Address, split_id: u64 },
    Reactivate { owner: Address, split_id: u64 },
}

/// The state of a freshly deployed contract.
pub open spec fn deployed() -> ContractState {
    ContractState {
        admin: None,
        counter: 0,
        splits: Map::empty(),
        events: Seq::empty(),
    }
}

/// The id that a call hands out: that of the split it creates, if it creates
/// one. A creation at the machine limit (`u64::MAX` splits) is never made.
pub open spec fn created_id(state: ContractState, call: Call) -> Option<u64> {
    match call {
        Call::Create { owner, name, recipients, shares } => if state.counter < u64::MAX
            && creation_error(name@, recipients.len(), shares) is None {
            Some((state.counter + 1) as u64)
        } else {
            None
        },
        _ => None,
    }
}

/// The state after a call; a refused call leaves the state as it was.
pub open spec fn after(state: ContractState, call: Call) -> ContractState {
    match call {
        Call::Initialize { admin } => if state.admin is Some {
            state
        } else {
            ContractState {
                admin: Some(admin),
                events: state.events.push(ContractEvent::Initialized { admin }),
                ..state
            }
        },
        Call::Create { owner, name, recipients, shares } => match created_id(state, call) {
            Some(split_id) => ContractState {
                counter: split_id,
                ..stored(
                    state,
                    split_id,
                    SplitView { split_id, owner, name, recipients, shares, active: true },
                    ContractEvent::SplitCreated { split_id, owner },
                )
            },
            None => state,
        },
        Call::Execute { caller, split_id, token, amount } => if execution(
            lookup(state.splits, split_id),
            caller,
            token,
            amount,
        ) is Ok {
            ContractState {
                events: state.events.push(ContractEvent::SplitExecuted { split_id, caller, amount }),
                ..state
            }
        } else {
            state
        },
        Call::Update { owner, split_id, recipients, shares } => match updated(
            lookup(state.splits, split_id),
            owner,
            recipients,
            shares,
        ) {
            Ok(next) => stored(state, split_id, next, ContractEvent::SplitUpdated { split_id, owner }),
            Err(_) => state,
        },
        Call::Deactivate { owner, split_id } => match deactivated(
            lookup(state.splits, split_id),
            owner,
        ) {
            Ok(next) => stored(
                state,
                split_id,
                next,
                ContractEvent::SplitDeactivated { split_id, owner },
            ),
            Err(_) => state,
        },
        Call::Reactivate { owner, split_id } => match reactivated(
            lookup(state.splits, split_id),
            owner,
        ) {
            Ok(next) => stored(
                state,
                split_id,
                next,
                ContractEvent::SplitReactivated { split_id, owner },
            ),
            Err(_) => state,
        },
    }
}

impl SorobanSplitContract {
    /// What the contract's state always satisfies.
    pub open spec fn inv(&self) -> bool {
        &&& stored_well_formed(self@.splits)
        &&& ids_are_the_count(self@.splits, self@.counter)
    }

    /// A freshly deployed contract: nothing stored, nothing published.
    pub fn new() -> (c: SorobanSplitContract)
        ensures
            c.inv(),
            c@ == deployed(),
            c@.admin is None,
            c@.counter == 0,
            c@.splits == Map::<u64, SplitView>::empty(),
            c@.events == Seq::<ContractEvent>::empty(),
    {
        let c = SorobanSplitContract {
            admin: None,
            counter: 0,
            splits: HashMap::new(),
            events: Vec::new(),
        };
        assert(c@.splits =~= Map::<u64, SplitView>::empty());
        c
    }

    proof fn lemma_lookup(&self, split_id: u64, found: Option<&Split>)
        requires
            found matches Some(s) ==> self.splits@.contains_key(split_id) && self.splits@[split_id] == *s,
            found is None ==> !self.splits@.contains_key(split_id),
        ensures
            loaded_view(found) == lookup(self@.splits, split_id),
    {
    }

    /// Records the admin, once: a contract that has an admin refuses to be
    /// initialized again. The split counter is left as it is.
    pub fn initialize(&mut self, admin: Address) -> (r: Result<(), SplitError>)
        requires
            old(self).inv(),
        ensures
            final(self).inv(),
            final(self)@ == after(old(self)@, Call::Initialize { admin }),
            old(self)@.admin is Some ==> r == Err::<(), SplitError>(SplitError::AlreadyInitialized)
                && final(self)@ == old(self)@,
            old(self)@.admin is None ==> r == Ok::<(), SplitError>(()) && final(self)@ == (
            ContractState {
                admin: Some(admin),
                events: old(self)@.events.push(ContractEvent::Initialized { admin }),
                ..old(self)@
            }),
    {
        if let Err(e) = check_initialization(self.admin.as_ref()) {
            return Err(e);
        }
        self.admin = Some(admin.clone());
        self.events.push(ContractEvent::Initialized { admin });
        assert(self@.splits =~= old(self)@.splits);
        Ok(())
    }

    /// Creates a split owned by `owner`; its id is one more than the number
    /// of splits created before, and it starts active.
    pub fn create_split(
        &mut self,
        owner: Address,
        name: String,
        recipients: Vec<Address>,
        shares: Vec<u32>,
    ) -> (r: Result<u64, SplitError>)
        requires
            old(self).inv(),
            old(self)@.counter < u64::MAX,
        ensures
            final(self).inv(),
            final(self)@ == after(
                old(self)@,
                Call::Create { owner, name, recipients: recipients@, shares: shares@ },
            ),
            created_id(
                old(self)@,
                Call::Create { owner, name, recipients: recipients@, shares: shares@ },
            ) == (match r {
                Ok(split_id) => Some(split_id),
                Err(_) => None,
            }),
            match creation_error(name@, recipients@.len(), shares@) {
                Some(e) => r == Err::<u64, SplitError>(e) && final(self)@ == old(self)@,
                None => {
                    let split_id: u64 = (old(self)@.counter + 1) as u64;
                    &&& r == Ok::<u64, SplitError>(split_id)
                    &&& !old(self)@.splits.contains_key(split_id)
                    &&& final(self)@ == (ContractState {
                        counter: split_id,
                        ..stored(
                            old(self)@,
                            split_id,
                            SplitView {
                                split_id,
                                owner,
                                name,
                                recipients: recipients@,
                                shares: shares@,
                                active: true,
                            },
                            ContractEvent::SplitCreated { split_id, owner },
                        )
                    })
                },
            },
    {
        let event_owner = owner.clone();
        match new_split(self.counter, owner, name, recipients, shares) {
            Err(e) => Err(e),
            Ok(split) => {
                let split_id: u64 = split.split_id;
                self.splits.insert(split_id, split);
                self.counter = split_id;
                self.events.push(ContractEvent::SplitCreated { split_id, owner: event_owner });
                proof {
                    let ghost m = self@.splits;
                    assert(m =~= old(self)@.splits.insert(split_id, self.splits@[split_id]@));
                }
                Ok(split_id)
            },
        }
    }

    /// Pays `amount` of `token` from `caller` to the split's recipients by
    /// their shares: hands back the transfers to make, in recipient order.
    pub fn execute_split(
        &mut self,
        caller: Address,
        split_id: u64,
        token: Address,
        amount: i128,
    ) -> (r: Result<Vec<Transfer>, SplitError>)
        requires
            old(self).inv(),
        ensures
            final(self).inv(),
            final(self)@ == after(old(self)@, Call::Execute { caller, split_id, token, amount }),
            plan_result_view(r) == execution(
                lookup(old(self)@.splits, split_id),
                caller,
                token,
                amount,
            ),
            r is Err ==> final(self)@ == old(self)@,
            r is Ok ==> final(self)@ == (ContractState {
                events: old(self)@.events.push(
                    ContractEvent::SplitExecuted { split_id, caller, amount },
                ),
                ..old(self)@
            }),
    {
        let found = self.splits.get(&split_id);
        proof {
            self.lemma_lookup(split_id, found);
        }
        let result = plan_execution(found, &caller, &token, amount);
        if result.is_ok() {
            self.events.push(ContractEvent::SplitExecuted { split_id, caller, amount });
        }
        result
    }

    /// Replaces the recipients and shares of a split, on its owner's request.
    pub fn update_split(
        &mut self,
        owner: Address,
        split_id: u64,
        recipients: Vec<Address>,
        shares: Vec<u32>,
    ) -> (r: Result<(), SplitError>)
        requires
            old(self).inv(),
        ensures
            final(self).inv(),
            final(self)@ == after(
                old(self)@,
                Call::Update { owner, split_id, recipients: recipients@, shares: shares@ },
            ),
            match updated(lookup(old(self)@.splits, split_id), owner, recipients@, shares@) {
                Err(e) => r == Err::<(), SplitError>(e) && final(self)@ == old(self)@,
                Ok(next) => r == Ok::<(), SplitError>(()) && final(self)@ == stored(
                    old(self)@,
                    split_id,
                    next,
                    ContractEvent::SplitUpdated { split_id, owner },
                ),
            },
    {
        let found = self.splits.get(&split_id);
        proof {
            self.lemma_lookup(split_id, found);
        }
        match update_record(found, &owner, recipients, shares) {
            Err(e) => Err(e),
            Ok(next) => {
                self.splits.insert(split_id, next);
                self.events.push(ContractEvent::SplitUpdated { split_id, owner });
                proof {
                    let ghost m = self@.splits;
                    assert(m =~= old(self)@.splits.insert(split_id, self.splits@[split_id]@));
                }
                Ok(())
            },
        }
    }

    /// Stops a split from being executed, on its owner's request.
    pub fn deactivate_split(&mut self, owner: Address, split_id: u64) -> (r: Result<(), SplitError>)
        requires
            old(self).inv(),
        ensures
            final(self).inv(),
            final(self)@ == after(old(self)@, Call::Deactivate { owner, split_id }),
            match deactivated(lookup(old(self)@.splits, split_id), owner) {
                Err(e) => r == Err::<(), SplitError>(e) && final(self)@ == old(self)@,
                Ok(next) => r == Ok::<(), SplitError>(()) && final(self)@ == stored(
                    old(self)@,
                    split_id,
                    next,
                    ContractEvent::SplitDeactivated { split_id, owner },
                ),
            },
    {
        let found = self.splits.get(&split_id);
        proof {
            self.lemma_lookup(split_id, found);
        }
        match deactivate_record(found, &owner) {
            Err(e) => Err(e),
            Ok(next) => {
                self.splits.insert(split_id, next);
                self.events.push(ContractEvent::SplitDeactivated { split_id, owner });
                proof {
                    let ghost m = self@.splits;
                    assert(m =~= old(self)@.splits.insert(split_id, self.splits@[split_id]@));
                }
                Ok(())
            },
        }
    }

    /// Lets a deactivated split be executed again, on its owner's request.
    pub fn reactivate_split(&mut self, owner: Address, split_id: u64) -> (r: Result<(), SplitError>)
        requires
            old(self).inv(),
        ensures
            final(self).inv(),
            final(self)@ == after(old(self)@, Call::Reactivate { owner, split_id }),
            match reactivated(lookup(old(self)@.splits, split_id), owner) {
                Err(e) => r == Err::<(), SplitError>(e) && final(self)@ == old(self)@,
                Ok(next) => r == Ok::<(), SplitError>(()) && final(self)@ == stored(
                    old(self)@,
                    split_id,
                    next,
                    ContractEvent::SplitReactivated { split_id, owner },
                ),
            },
    {
        let found = self.splits.get(&split_id);
        proof {
            self.lemma_lookup(split_id, found);
        }
        match reactivate_record(found, &owner) {
            Err(e) => Err(e),
            Ok(next) => {
                self.splits.insert(split_id, next);
                self.events.push(ContractEvent::SplitReactivated { split_id, owner });
                proof {
                    let ghost m = self@.splits;
                    assert(m =~= old(self)@.splits.insert(split_id, self.splits@[split_id]@));
                }
                Ok(())
            },
        }
    }

    /// The split stored under `split_id`.
    pub fn get_split(&self, split_id: u64) -> (r: Result<Split, SplitError>)
        ensures
            split_result_view(r) == (match lookup(self@.splits, split_id) {
                Some(s) => Ok(s),
                None => Err(SplitError::SplitNotFound),
            }),
    {
        let found = self.splits.get(&split_id);
        proof {
            self.lemma_lookup(split_id, found);
        }
        match found {
            Some(s) => Ok(s.clone()),
            None => Err(SplitError::SplitNotFound),
        }
    }

    /// The number of splits created: the highest id in use.
    pub fn get_count(&self) -> (count: u64)
        ensures
            count == self@.counter,
    {
        self.counter
    }

    /// The recipients of the split stored under `split_id`.
    pub fn get_recipients(&self, split_id: u64) -> (r: Result<Vec<Address>, SplitError>)
        ensures
            match lookup(self@.splits, split_id) {
                Some(s) => r matches Ok(v) && v@ == s.recipients,
                None => r == Err::<Vec<Address>, SplitError>(SplitError::SplitNotFound),
            },
    {
        let found = self.splits.get(&split_id);
        proof {
            self.lemma_lookup(split_id, found);
        }
        match found {
            Some(s) => Ok(copy_addresses(&s.recipients)),
            None => Err(SplitError::SplitNotFound),
        }
    }

    /// The shares of the split stored under `split_id`.
    pub fn get_shares(&self, split_id: u64) -> (r: Result<Vec<u32>, SplitError>)
        ensures
            match lookup(self@.splits, split_id) {
                Some(s) => r matches Ok(v) && v@ == s.shares,
                None => r == Err::<Vec<u32>, SplitError>(SplitError::SplitNotFound),
            },
    {
        let found = self.splits.get(&split_id);
        proof {
            self.lemma_lookup(split_id, found);
        }
        match found {
            Some(s) => Ok(copy_shares(&s.shares)),
            None => Err(SplitError::SplitNotFound),
        }
    }

    /// The events published so far, oldest first.
    pub fn events(&self) -> (events: &Vec<ContractEvent>)
        ensures
            events@ == self@.events,
    {
        &self.events
    }
}

} // verus!
