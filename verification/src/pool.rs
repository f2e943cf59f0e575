use crate::addr::{spec_derive, AddrView, DerivedAddress, MAX_BUMP};
use crate::counter::counter_add_u64;
use crate::engine::move_value;
use crate::errors::CoreError;
use crate::guard::InitGuard;
use crate::record::{CustodyVault, Identity, PoolState};
use vstd::prelude::*;

verus! {

/// The pool's namespace tag, the bytes of "pool".
pub open spec fn spec_pool_namespace() -> Seq<u8> {
    seq![112u8, 111u8, 111u8, 108u8]
}

/// Build the pool's namespace tag.
pub fn pool_namespace() -> (r: Vec<u8>)
    ensures
        r@ == spec_pool_namespace(),
{
    let mut v: Vec<u8> = Vec::new();
    v.push(112);
    v.push(111);
    v.push(111);
    v.push(108);
    proof {
        assert(v@ =~= spec_pool_namespace());
    }
    v
}

/// The pool's derived address. One pool exists per deployment, so its
/// key tuple is the fixed namespace with no further key parts.
pub open spec fn spec_pool_addr() -> AddrView {
    spec_derive(spec_pool_namespace(), Seq::<Seq<u8>>::empty())
}

/// Whether the pool's deposit counter agrees with its vault: the
/// recorded `total_deposits` equals the custodied balance. Established
/// at initialization and preserved by every deposit.
pub open spec fn spec_pool_synced(pool: PoolState, vault: CustodyVault) -> bool {
    pool.total_deposits == vault.balance
}

/// Create the pool record and its custody vault at the pool's derived
/// address, exactly once. The second and every later call fails with
/// `AlreadyInitialized` and changes nothing; counters start at zero.
pub fn initialize(guard: &mut InitGuard, authority: Identity, mint: Identity) -> (r: Result<
    (DerivedAddress, PoolState, CustodyVault),
    CoreError,
>)
    requires
        old(guard).wf(),
    ensures
        final(guard).wf(),
        r is Ok <==> !old(guard).spec_contains(spec_pool_addr()),
        r matches Ok((a, p, v)) ==> {
            &&& a@ == spec_pool_addr()
            &&& p == (PoolState { authority, bump: MAX_BUMP, total_deposits: 0 })
            &&& v.owner@ == spec_pool_addr()
            &&& v.mint == mint
            &&& v.balance == 0
            &&& final(guard).addrs() == old(guard).addrs().push(spec_pool_addr())
            &&& spec_pool_synced(p, v)
        },
        r is Err ==> *final(guard) == *old(guard),
        r matches Err(e) ==> e == CoreError::AlreadyInitialized,
        final(guard).spec_contains(spec_pool_addr()),
{
    let ns = pool_namespace();
    let parts: Vec<Vec<u8>> = Vec::new();
    proof {
        assert(parts.deep_view() =~= Seq::<Seq<u8>>::empty());
    }
    let (addr, bump) = match DerivedAddress::derive(ns, parts) {
        Ok(x) => x,
        Err(e) => { return Err(e) },
    };
    let ret_addr = addr.clone();
    let vault_addr = addr.clone();
    match guard.claim(addr) {
        Ok(()) => {},
        Err(e) => { return Err(e) },
    }
    let pool = PoolState { authority, bump, total_deposits: 0 };
    let vault = CustodyVault { owner: vault_addr, mint, balance: 0 };
    Ok((ret_addr, pool, vault))
}

/// Deposit `amount` into the pool: the transfer engine moves the amount
/// from the depositor's personal vault into the pool's custody vault,
/// and in the same atomic step the pool's `total_deposits` counter grows
/// by the same amount. No authority check is required: any depositor may
/// deposit, debiting only their own vault.
///
/// All-or-nothing: on any failure the pool record and both vaults are
/// exactly as before the call. In particular, an amount that would push
/// `total_deposits` past the representable maximum fails with `Overflow`
/// and changes nothing. A deposit never decreases `total_deposits`, and
/// if the counter agreed with the pool vault's balance before the call
/// it agrees after it, whichever way the call ends.
pub fn deposit(
    pool: &mut PoolState,
    pool_vault: &mut CustodyVault,
    depositor: Identity,
    depositor_vault: &mut CustodyVault,
    amount: u64,
) -> (r: Result<(), CoreError>)
    ensures
        r is Ok <==> {
            &&& old(pool).total_deposits + amount <= u64::MAX
            &&& old(depositor_vault).mint == old(pool_vault).mint
            &&& old(depositor_vault).balance >= amount
            &&& old(pool_vault).balance + amount <= u64::MAX
        },
        r is Ok ==> {
            &&& final(pool).total_deposits == old(pool).total_deposits + amount
            &&& final(pool_vault).balance == old(pool_vault).balance + amount
            &&& final(depositor_vault).balance == old(depositor_vault).balance - amount
        },
        r is Err ==> *final(pool) == *old(pool) && *final(pool_vault) == *old(pool_vault)
            && *final(depositor_vault) == *old(depositor_vault),
        r matches Err(e) ==> (e == CoreError::Overflow <==> old(pool).total_deposits + amount
            > u64::MAX || (old(pool).total_deposits + amount <= u64::MAX && old(
            depositor_vault,
        ).mint == old(pool_vault).mint && old(depositor_vault).balance >= amount && old(
            pool_vault,
        ).balance + amount > u64::MAX)),
        r matches Err(e) ==> (e == CoreError::MintMismatch <==> old(pool).total_deposits + amount
            <= u64::MAX && old(depositor_vault).mint != old(pool_vault).mint),
        r matches Err(e) ==> (e == CoreError::InsufficientBalance <==> old(pool).total_deposits
            + amount <= u64::MAX && old(depositor_vault).mint == old(pool_vault).mint && old(
            depositor_vault,
        ).balance < amount),
        final(pool).authority == old(pool).authority && final(pool).bump == old(pool).bump,
        final(pool).total_deposits >= old(pool).total_deposits,
        final(pool_vault).mint == old(pool_vault).mint && final(pool_vault).owner == old(
            pool_vault,
        ).owner,
        final(depositor_vault).mint == old(depositor_vault).mint && final(depositor_vault).owner
            == old(depositor_vault).owner,
        spec_pool_synced(*old(pool), *old(pool_vault)) ==> spec_pool_synced(
            *final(pool),
            *final(pool_vault),
        ),
{
    let new_total = match counter_add_u64(pool.total_deposits, amount) {
        Ok(c) => c,
        Err(e) => { return Err(e) },
    };
    match move_value(depositor_vault, pool_vault, amount, depositor, depositor) {
        Ok(()) => {},
        Err(e) => { return Err(e) },
    }
    pool.total_deposits = new_total;
    Ok(())
}

} // verus!
