use crate::addr::{spec_derive, AddrView, DerivedAddress, MAX_BUMP};
use crate::errors::CoreError;
use crate::guard::InitGuard;
use crate::keys::{identity_part, le_bytes_u64, spec_identity_part, spec_le_bytes_u64};
use crate::record::{CustodyVault, EscrowState, Identity};
use vstd::prelude::*;

verus! {

/// The escrow namespace tag, the bytes of "escrow".
pub open spec fn spec_escrow_namespace() -> Seq<u8> {
    seq![101u8, 115u8, 99u8, 114u8, 111u8, 119u8]
}

/// Build the escrow namespace tag.
pub fn escrow_namespace() -> (r: Vec<u8>)
    ensures
        r@ == spec_escrow_namespace(),
{
    let mut v: Vec<u8> = Vec::new();
    v.push(101);
    v.push(115);
    v.push(99);
    v.push(114);
    v.push(111);
    v.push(119);
    proof {
        assert(v@ =~= spec_escrow_namespace());
    }
    v
}

/// The derived address of the escrow that `maker` opens under `seed`:
/// key parts are the maker's identity and the seed, so one maker may
/// hold many escrows, each at its own address.
pub open spec fn spec_escrow_addr(maker: Identity, seed: u64) -> AddrView {
    spec_derive(spec_escrow_namespace(), seq![spec_identity_part(maker), spec_le_bytes_u64(seed)])
}

/// Open an escrow: create its record and its custody vault at the
/// derived address, exactly once per (maker, seed). Initialization only
/// reserves the terms — the deposited amount owed by the maker and the
/// amount the maker asks to receive; the conditional transfer that
/// settles the escrow is a separate later phase, so the vault starts
/// empty. A second call with the same maker and seed fails with
/// `AlreadyInitialized` and changes nothing.
pub fn initialize(
    guard: &mut InitGuard,
    maker: Identity,
    seed: u64,
    deposit_amount: u64,
    receive_amount: u64,
    mint: Identity,
) -> (r: Result<(DerivedAddress, EscrowState, CustodyVault), CoreError>)
    requires
        old(guard).wf(),
    ensures
        final(guard).wf(),
        r is Ok <==> !old(guard).spec_contains(spec_escrow_addr(maker, seed)),
        r matches Ok((a, e, v)) ==> {
            &&& a@ == spec_escrow_addr(maker, seed)
            &&& e == (EscrowState {
                authority: maker,
                bump: MAX_BUMP,
                seed,
                deposit_amount,
                receive_amount,
            })
            &&& v.owner@ == spec_escrow_addr(maker, seed)
            &&& v.mint == mint
            &&& v.balance == 0
            &&& final(guard).addrs() == old(guard).addrs().push(spec_escrow_addr(maker, seed))
        },
        r is Err ==> *final(guard) == *old(guard),
        r matches Err(e) ==> e == CoreError::AlreadyInitialized,
        final(guard).spec_contains(spec_escrow_addr(maker, seed)),
{
    let ns = escrow_namespace();
    let mut parts: Vec<Vec<u8>> = Vec::new();
    parts.push(identity_part(maker));
    parts.push(le_bytes_u64(seed));
    proof {
        crate::addr::lemma_bytes_deep_view(parts@[0]);
        crate::addr::lemma_bytes_deep_view(parts@[1]);
        assert(parts.deep_view() =~= seq![
            spec_identity_part(maker),
            spec_le_bytes_u64(seed),
        ]);
    }
    let (addr, bump) = match DerivedAddress::derive(ns, parts) {
        Ok(x) => x,
        Err(e) => { return Err(e) },
    };
    let ret_addr = addr.clone();
    let vault_addr = addr.clone();
    match guard.claim(addr) {
        Ok(()) => {},
        Err(e) => { return Err(e) },
    }
    let escrow = EscrowState { authority: maker, bump, seed, deposit_amount, receive_amount };
    let vault = CustodyVault { owner: vault_addr, mint, balance: 0 };
    Ok((ret_addr, escrow, vault))
}

} // verus!
