use crate::addr::DerivedAddress;
use vstd::prelude::*;

verus! {

/// An authenticated identity, as handed to the protocol by the external
/// signature-verification capability. The protocol never inspects key
/// material; it only compares identities for equality, so an identity is
/// carried as a single plain value.
#[derive(Clone, Copy, Debug, PartialEq, Eq, Structural, Hash)]
pub struct Identity {
    pub key: u64,
}

/// An account that exclusively holds token value on behalf of a logical
/// owner. Its `balance` is mutated only by the transfer engine, and only
/// as part of an atomic step that also updates the owning record's
/// counters; its `mint` is immutable after creation.
#[derive(Debug)]
pub struct CustodyVault {
    pub owner: DerivedAddress,
    pub mint: Identity,
    pub balance: u64,
}

/// The automated-market-maker pool record: a singleton whose
/// `total_deposits` counter grows by checked addition only.
#[derive(Clone, Copy, Debug, PartialEq, Eq, Structural)]
pub struct PoolState {
    pub authority: Identity,
    pub bump: u8,
    pub total_deposits: u64,
}

/// An escrow record: the maker's terms, reserved at initialization.
/// The conditional transfer that settles the escrow is a separate,
/// later phase; initialization only records the terms.
#[derive(Clone, Copy, Debug, PartialEq, Eq, Structural)]
pub struct EscrowState {
    pub authority: Identity,
    pub bump: u8,
    pub seed: u64,
    pub deposit_amount: u64,
    pub receive_amount: u64,
}

/// A marketplace listing record: the maker lists one unit of `mint` at
/// `price`.
#[derive(Clone, Copy, Debug, PartialEq, Eq, Structural)]
pub struct ListingState {
    pub maker: Identity,
    pub bump: u8,
    pub price: u64,
    pub mint: Identity,
}

/// The staking configuration record: a singleton per deployment holding
/// the reward mint and the global staking parameters.
#[derive(Clone, Copy, Debug, PartialEq, Eq, Structural)]
pub struct StakeConfigState {
    pub authority: Identity,
    pub bump: u8,
    pub reward_mint: Identity,
    pub points_per_stake: u8,
    pub freeze_period: u32,
}

/// A DAO record: named by its creator, counting its proposals
/// monotonically.
#[derive(Debug)]
pub struct DaoState {
    pub authority: Identity,
    pub bump: u8,
    pub name: Vec<u8>,
    pub proposal_count: u32,
}

/// A proposal record of a DAO, keyed by the DAO's proposal counter at
/// creation time.
#[derive(Debug)]
pub struct ProposalState {
    pub authority: Identity,
    pub bump: u8,
    pub metadata: Vec<u8>,
    pub yes_vote_count: u32,
    pub no_vote_count: u32,
}

/// A typed state record: one of the protocol's record variants. Every
/// variant carries the authority permitted to perform privileged
/// mutations on it.
#[derive(Debug)]
pub enum StateRecord {
    Pool(PoolState),
    Escrow(EscrowState),
    Listing(ListingState),
    StakeConfig(StakeConfigState),
    Dao(DaoState),
    Proposal(ProposalState),
}

impl StateRecord {
    /// The identity permitted to perform privileged mutations on this
    /// record. For a listing that is its maker.
    pub open spec fn spec_authority(&self) -> Identity {
        match self {
            StateRecord::Pool(p) => p.authority,
            StateRecord::Escrow(e) => e.authority,
            StateRecord::Listing(l) => l.maker,
            StateRecord::StakeConfig(c) => c.authority,
            StateRecord::Dao(d) => d.authority,
            StateRecord::Proposal(p) => p.authority,
        }
    }

    /// Read the record's authority.
    pub fn authority(&self) -> (r: Identity)
        ensures
            r == self.spec_authority(),
    {
        match self {
            StateRecord::Pool(p) => p.authority,
            StateRecord::Escrow(e) => e.authority,
            StateRecord::Listing(l) => l.maker,
            StateRecord::StakeConfig(c) => c.authority,
            StateRecord::Dao(d) => d.authority,
            StateRecord::Proposal(p) => p.authority,
        }
    }
}

} // verus!
