use crate::addr::{clone_bytes, spec_derive, AddrView, DerivedAddress, MAX_BUMP};
use crate::counter::counter_add_u32;
use crate::engine::{move_value, spec_move_ok};
use crate::errors::CoreError;
use crate::guard::InitGuard;
use crate::keys::{identity_part, le_bytes_u32, spec_identity_part, spec_le_bytes_u32};
use crate::record::{CustodyVault, DaoState, Identity, ProposalState};
use vstd::prelude::*;

verus! {

/// The DAO namespace tag, the bytes of "dao".
pub open spec fn spec_dao_namespace() -> Seq<u8> {
    seq![100u8, 97u8, 111u8]
}

/// Build the DAO namespace tag.
pub fn dao_namespace() -> (r: Vec<u8>)
    ensures
        r@ == spec_dao_namespace(),
{
    let mut v: Vec<u8> = Vec::new();
    v.push(100);
    v.push(97);
    v.push(111);
    proof {
        assert(v@ =~= spec_dao_namespace());
    }
    v
}

/// The proposal namespace tag, the bytes of "proposal".
pub open spec fn spec_proposal_namespace() -> Seq<u8> {
    seq![112u8, 114u8, 111u8, 112u8, 111u8, 115u8, 97u8, 108u8]
}

/// Build the proposal namespace tag.
pub fn proposal_namespace() -> (r: Vec<u8>)
    ensures
        r@ == spec_proposal_namespace(),
{
    let mut v: Vec<u8> = Vec::new();
    v.push(112);
    v.push(114);
    v.push(111);
    v.push(112);
    v.push(111);
    v.push(115);
    v.push(97);
    v.push(108);
    proof {
        assert(v@ =~= spec_proposal_namespace());
    }
    v
}

/// The derived address of the DAO that `creator` founds under `name`.
pub open spec fn spec_dao_addr(creator: Identity, name: Seq<u8>) -> AddrView {
    spec_derive(spec_dao_namespace(), seq![spec_identity_part(creator), name])
}

/// The derived address of a proposal of a DAO. A DAO's address is an
/// injective image of its creator and name, so keying a proposal by the
/// creator, the name and the proposal index at creation time keys it by
/// (DAO address, index); the index is the DAO's proposal counter when
/// the proposal is created, which makes the address unpredictable until
/// that counter is read.
pub open spec fn spec_proposal_addr(creator: Identity, name: Seq<u8>, index: u32) -> AddrView {
    spec_derive(
        spec_proposal_namespace(),
        seq![spec_identity_part(creator), name, spec_le_bytes_u32(index)],
    )
}

/// Found a DAO: create its record at the address derived from the
/// creator's identity and the DAO's name, exactly once per such pair.
/// The proposal counter starts at zero. A second call with the same
/// creator and name fails with `AlreadyInitialized` and changes nothing.
pub fn init_dao(guard: &mut InitGuard, creator: Identity, name: Vec<u8>) -> (r: Result<
    (DerivedAddress, DaoState),
    CoreError,
>)
    requires
        old(guard).wf(),
    ensures
        final(guard).wf(),
        r is Ok <==> !old(guard).spec_contains(spec_dao_addr(creator, name@)),
        r matches Ok((a, d)) ==> {
            &&& a@ == spec_dao_addr(creator, name@)
            &&& d.authority == creator
            &&& d.bump == MAX_BUMP
            &&& d.name@ == name@
            &&& d.proposal_count == 0
            &&& final(guard).addrs() == old(guard).addrs().push(spec_dao_addr(creator, name@))
        },
        r is Err ==> *final(guard) == *old(guard),
        r matches Err(e) ==> e == CoreError::AlreadyInitialized,
        final(guard).spec_contains(spec_dao_addr(creator, name@)),
{
    let ns = dao_namespace();
    let name_part = clone_bytes(&name);
    let mut parts: Vec<Vec<u8>> = Vec::new();
    parts.push(identity_part(creator));
    parts.push(name_part);
    proof {
        crate::addr::lemma_bytes_deep_view(parts@[0]);
        crate::addr::lemma_bytes_deep_view(parts@[1]);
        assert(parts.deep_view() =~= seq![spec_identity_part(creator), name@]);
    }
    let (addr, bump) = match DerivedAddress::derive(ns, parts) {
        Ok(x) => x,
        Err(e) => { return Err(e) },
    };
    let ret_addr = addr.clone();
    match guard.claim(addr) {
        Ok(()) => {},
        Err(e) => { return Err(e) },
    }
    let dao = DaoState { authority: creator, bump, name, proposal_count: 0 };
    Ok((ret_addr, dao))
}

/// Create a proposal of a DAO, exactly once per (DAO, proposal index),
/// and collect the proposal fee: in the same atomic step the transfer
/// engine moves `fee` from the creator's vault into the DAO's treasury
/// vault and the DAO's proposal counter grows by one, by checked
/// addition. Vote counters start at zero.
///
/// All-or-nothing: on any failure the guard, the DAO record and both
/// vaults are exactly as before the call; in particular a proposal
/// counter at its maximum fails with `Overflow` and nothing moves.
pub fn init_proposal(
    guard: &mut InitGuard,
    dao: &mut DaoState,
    creator: Identity,
    metadata: Vec<u8>,
    creator_vault: &mut CustodyVault,
    treasury_vault: &mut CustodyVault,
    fee: u64,
) -> (r: Result<(DerivedAddress, ProposalState), CoreError>)
    requires
        old(guard).wf(),
    ensures
        final(guard).wf(),
        r is Ok <==> {
            &&& !old(guard).spec_contains(
                spec_proposal_addr(old(dao).authority, old(dao).name@, old(dao).proposal_count),
            )
            &&& old(dao).proposal_count + 1 <= u32::MAX
            &&& spec_move_ok(*old(creator_vault), *old(treasury_vault), fee, creator, creator)
        },
        r matches Ok((a, p)) ==> {
            &&& a@ == spec_proposal_addr(old(dao).authority, old(dao).name@, old(
                dao,
            ).proposal_count)
            &&& p.authority == creator
            &&& p.bump == MAX_BUMP
            &&& p.metadata@ == metadata@
            &&& p.yes_vote_count == 0
            &&& p.no_vote_count == 0
            &&& final(guard).addrs() == old(guard).addrs().push(
                spec_proposal_addr(old(dao).authority, old(dao).name@, old(dao).proposal_count),
            )
            &&& final(dao).proposal_count == old(dao).proposal_count + 1
            &&& final(creator_vault).balance == old(creator_vault).balance - fee
            &&& final(treasury_vault).balance == old(treasury_vault).balance + fee
        },
        final(dao).authority == old(dao).authority,
        final(dao).bump == old(dao).bump,
        final(dao).name@ == old(dao).name@,
        final(dao).proposal_count >= old(dao).proposal_count,
        final(creator_vault).mint == old(creator_vault).mint,
        final(creator_vault).owner == old(creator_vault).owner,
        final(treasury_vault).mint == old(treasury_vault).mint,
        final(treasury_vault).owner == old(treasury_vault).owner,
        final(creator_vault).balance + final(treasury_vault).balance == old(creator_vault).balance
            + old(treasury_vault).balance,
        r is Err ==> *final(guard) == *old(guard) && *final(dao) == *old(dao)
            && *final(creator_vault) == *old(creator_vault)
            && *final(treasury_vault) == *old(treasury_vault),
        r matches Err(e) ==> (e == CoreError::AlreadyInitialized <==> old(guard).spec_contains(
            spec_proposal_addr(old(dao).authority, old(dao).name@, old(dao).proposal_count),
        )),
        r matches Err(e) ==> (e == CoreError::Overflow <==> !old(guard).spec_contains(
            spec_proposal_addr(old(dao).authority, old(dao).name@, old(dao).proposal_count),
        ) && (old(dao).proposal_count + 1 > u32::MAX || (old(creator_vault).mint == old(
            treasury_vault,
        ).mint && old(creator_vault).balance >= fee && old(treasury_vault).balance + fee
            > u64::MAX))),
        r matches Err(e) ==> (e == CoreError::MintMismatch <==> !old(guard).spec_contains(
            spec_proposal_addr(old(dao).authority, old(dao).name@, old(dao).proposal_count),
        ) && old(dao).proposal_count + 1 <= u32::MAX && old(creator_vault).mint != old(
            treasury_vault,
        ).mint),
        r matches Err(e) ==> (e == CoreError::InsufficientBalance <==> !old(guard).spec_contains(
            spec_proposal_addr(old(dao).authority, old(dao).name@, old(dao).proposal_count),
        ) && old(dao).proposal_count + 1 <= u32::MAX && old(creator_vault).mint == old(
            treasury_vault,
        ).mint && old(creator_vault).balance < fee),
    {
    let ns = proposal_namespace();
    let name_part = clone_bytes(&dao.name);
    let mut parts: Vec<Vec<u8>> = Vec::new();
    parts.push(identity_part(dao.authority));
    parts.push(name_part);
    parts.push(le_bytes_u32(dao.proposal_count));
    proof {
        crate::addr::lemma_bytes_deep_view(parts@[0]);
        crate::addr::lemma_bytes_deep_view(parts@[1]);
        crate::addr::lemma_bytes_deep_view(parts@[2]);
        assert(parts.deep_view() =~= seq![
            spec_identity_part(dao.authority),
            dao.name@,
            spec_le_bytes_u32(dao.proposal_count),
        ]);
    }
    let (addr, bump) = match DerivedAddress::derive(ns, parts) {
        Ok(x) => x,
        Err(e) => { return Err(e) },
    };
    if guard.is_initialized(&addr) {
        return Err(CoreError::AlreadyInitialized);
    }
    let new_count = match counter_add_u32(dao.proposal_count, 1) {
        Ok(c) => c,
        Err(e) => { return Err(e) },
    };
    match move_value(creator_vault, treasury_vault, fee, creator, creator) {
        Ok(()) => {},
        Err(e) => { return Err(e) },
    }
    let ret_addr = addr.clone();
    match guard.claim(addr) {
        Ok(()) => {},
        Err(e) => { return Err(e) },
    }
    dao.proposal_count = new_count;
    let proposal = ProposalState {
        authority: creator,
        bump,
        metadata,
        yes_vote_count: 0,
        no_vote_count: 0,
    };
    Ok((ret_addr, proposal))
}

} // verus!
