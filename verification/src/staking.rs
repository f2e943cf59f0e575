use crate::addr::{spec_derive, AddrView, DerivedAddress, MAX_BUMP};
use crate::errors::CoreError;
use crate::guard::InitGuard;
use crate::record::{Identity, StakeConfigState};
use vstd::prelude::*;

verus! {

/// The staking-configuration namespace tag, the bytes of "config".
pub open spec fn spec_config_namespace() -> Seq<u8> {
    seq![99u8, 111u8, 110u8, 102u8, 105u8, 103u8]
}

/// Build the staking-configuration namespace tag.
pub fn config_namespace() -> (r: Vec<u8>)
    ensures
        r@ == spec_config_namespace(),
{
    let mut v: Vec<u8> = Vec::new();
    v.push(99);
    v.push(111);
    v.push(110);
    v.push(102);
    v.push(105);
    v.push(103);
    proof {
        assert(v@ =~= spec_config_namespace());
    }
    v
}

/// The staking configuration's derived address: a singleton per
/// deployment, so its key tuple is the fixed namespace alone.
pub open spec fn spec_config_addr() -> AddrView {
    spec_derive(spec_config_namespace(), Seq::<Seq<u8>>::empty())
}

/// Create the staking configuration, exactly once per deployment. Any
/// second call fails with `AlreadyInitialized` and changes nothing.
pub fn initialize(
    guard: &mut InitGuard,
    admin: Identity,
    reward_mint: Identity,
    points_per_stake: u8,
    freeze_period: u32,
) -> (r: Result<(DerivedAddress, StakeConfigState), CoreError>)
    requires
        old(guard).wf(),
    ensures
        final(guard).wf(),
        r is Ok <==> !old(guard).spec_contains(spec_config_addr()),
        r matches Ok((a, c)) ==> {
            &&& a@ == spec_config_addr()
            &&& c == (StakeConfigState {
                authority: admin,
                bump: MAX_BUMP,
                reward_mint,
                points_per_stake,
                freeze_period,
            })
            &&& final(guard).addrs() == old(guard).addrs().push(spec_config_addr())
        },
        r is Err ==> *final(guard) == *old(guard),
        r matches Err(e) ==> e == CoreError::AlreadyInitialized,
        final(guard).spec_contains(spec_config_addr()),
{
    let ns = config_namespace();
    let parts: Vec<Vec<u8>> = Vec::new();
    proof {
        assert(parts.deep_view() =~= Seq::<Seq<u8>>::empty());
    }
    let (addr, bump) = match DerivedAddress::derive(ns, parts) {
        Ok(x) => x,
        Err(e) => { return Err(e) },
    };
    let ret_addr = addr.clone();
    match guard.claim(addr) {
        Ok(()) => {},
        Err(e) => { return Err(e) },
    }
    let config = StakeConfigState { authority: admin, bump, reward_mint, points_per_stake, freeze_period };
    Ok((ret_addr, config))
}

} // verus!
