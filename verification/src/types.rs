use vstd::prelude::*;

verus! {

/// An account or contract address, held by its textual (strkey) form.
#[derive(Debug, PartialEq, Eq)]
pub struct Address {
    pub strkey: String,
}

impl View for Address {
    type V = Seq<char>;

    open spec fn view(&self) -> Seq<char> {
        self.strkey@
    }
}

impl Address {
    /// Builds an address from its textual form.
    pub fn new(strkey: &str) -> (a: Address)
        ensures
            a@ == strkey@,
    {
        Address { strkey: strkey.to_string() }
    }

    /// Whether two addresses are the same address.
    pub fn same_as(&self, other: &Address) -> (r: bool)
        ensures
            r == (self@ == other@),
    {
        self.strkey == other.strkey
    }
}

impl Clone for Address {
    fn clone(&self) -> (a: Self)
        ensures
            a == *self,
    {
        Address { strkey: self.strkey.clone() }
    }
}

} // verus!

verus! {

/// One token transfer that executing a split asks for.
#[derive(Debug, PartialEq, Eq)]
pub struct Transfer {
    pub from: Address,
    pub to: Address,
    pub token: Address,
    pub amount: i128,
}

} // verus!

verus! {

/// A payment split: who is paid, with which shares, and who controls it.
#[derive(Debug, PartialEq, Eq)]
pub struct Split {
    pub split_id: u64,
    pub owner: Address,
    pub name: String,
    pub recipients: Vec<Address>,
    /// Shares in basis points, one per recipient.
    pub shares: Vec<u32>,
    pub active: bool,
}

/// A split as a mathematical value.
pub struct SplitView {
    pub split_id: u64,
    pub owner: Address,
    pub name: String,
    pub recipients: Seq<Address>,
    pub shares: Seq<u32>,
    pub active: bool,
}

impl View for Split {
    type V = SplitView;

    open spec fn view(&self) -> SplitView {
        SplitView {
            split_id: self.split_id,
            owner: self.owner,
            name: self.name,
            recipients: self.recipients@,
            shares: self.shares@,
            active: self.active,
        }
    }
}

/// A copy of a list of addresses.
pub fn copy_addresses(addresses: &Vec<Address>) -> (copy: Vec<Address>)
    ensures
        copy@ == addresses@,
{
    let mut copy: Vec<Address> = Vec::new();
    let mut i: usize = 0;
    while i < addresses.len()
        invariant
            i <= addresses@.len(),
            copy@ == addresses@.take(i as int),
        decreases addresses@.len() - i,
    {
        copy.push(addresses[i].clone());
        i = i + 1;
        assert(copy@ =~= addresses@.take(i as int));
    }
    assert(addresses@.take(i as int) =~= addresses@);
    copy
}

/// A copy of a list of shares.
pub fn copy_shares(shares: &Vec<u32>) -> (copy: Vec<u32>)
    ensures
        copy@ == shares@,
{
    let mut copy: Vec<u32> = Vec::new();
    let mut i: usize = 0;
    while i < shares.len()
        invariant
            i <= shares@.len(),
            copy@ == shares@.take(i as int),
        decreases shares@.len() - i,
    {
        copy.push(shares[i]);
        i = i + 1;
        assert(copy@ =~= shares@.take(i as int));
    }
    assert(shares@.take(i as int) =~= shares@);
    copy
}

impl Clone for Split {
    fn clone(&self) -> (s: Self)
        ensures
            s@ == self@,
    {
        Split {
            split_id: self.split_id,
            owner: self.owner.clone(),
            name: self.name.clone(),
            recipients: copy_addresses(&self.recipients),
            shares: copy_shares(&self.shares),
            active: self.active,
        }
    }
}

/// Why a request to the contract is refused.
#[derive(Debug, Clone, Copy, PartialEq, Eq, Structural)]
pub enum SplitError {
    NameEmpty,
    NoRecipients,
    LengthMismatch,
    ShareSumOverflow,
    SharesNotWhole,
    AmountNotPositive,
    SplitNotFound,
    SplitNotActive,
    NotOwner,
    AlreadyInactive,
    AlreadyActive,
    AlreadyInitialized,
    PayoutOverflow,
}

impl SplitError {
    /// The text the contract rejects a request with.
    pub fn message(&self) -> (text: &'static str)
        ensures
            text@ == match *self {
                SplitError::NameEmpty => "Name cannot be empty"@,
                SplitError::NoRecipients => "Must have at least one recipient"@,
                SplitError::LengthMismatch => "Recipients and shares length mismatch"@,
                SplitError::ShareSumOverflow => "attempt to add with overflow"@,
                SplitError::SharesNotWhole => "Shares must sum to 10000 basis points"@,
                SplitError::AmountNotPositive => "Amount must be greater than zero"@,
                SplitError::SplitNotFound => "Split not found"@,
                SplitError::SplitNotActive => "Split is not active"@,
                SplitError::NotOwner => "Not the split owner"@,
                SplitError::AlreadyInactive => "Split already inactive"@,
                SplitError::AlreadyActive => "Split is already active"@,
                SplitError::AlreadyInitialized => "Contract already initialized"@,
                SplitError::PayoutOverflow => "attempt to multiply with overflow"@,
            },
    {
        match *self {
            SplitError::NameEmpty => "Name cannot be empty",
            SplitError::NoRecipients => "Must have at least one recipient",
            SplitError::LengthMismatch => "Recipients and shares length mismatch",
            SplitError::ShareSumOverflow => "attempt to add with overflow",
            SplitError::SharesNotWhole => "Shares must sum to 10000 basis points",
            SplitError::AmountNotPositive => "Amount must be greater than zero",
            SplitError::SplitNotFound => "Split not found",
            SplitError::SplitNotActive => "Split is not active",
            SplitError::NotOwner => "Not the split owner",
            SplitError::AlreadyInactive => "Split already inactive",
            SplitError::AlreadyActive => "Split is already active",
            SplitError::AlreadyInitialized => "Contract already initialized",
            SplitError::PayoutOverflow => "attempt to multiply with overflow",
        }
    }
}

/// An event the contract publishes.
#[derive(Debug, PartialEq, Eq)]
pub enum ContractEvent {
    Initialized { admin: Address },
    SplitCreated { split_id: u64, owner: Address },
    SplitExecuted { split_id: u64, caller: Address, amount: i128 },
    SplitUpdated { split_id: u64, owner: Address },
    SplitDeactivated { split_id: u64, owner: Address },
    SplitReactivated { split_id: u64, owner: Address },
}

} // verus!
