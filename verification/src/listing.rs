use crate::addr::{spec_derive, AddrView, DerivedAddress, MAX_BUMP};
use crate::errors::CoreError;
use crate::guard::InitGuard;
use crate::keys::{identity_part, spec_identity_part};
use crate::record::{CustodyVault, Identity, ListingState};
use vstd::prelude::*;

verus! {

/// The listing namespace tag, the bytes of "listing".
pub open spec fn spec_listing_namespace() -> Seq<u8> {
    seq![108u8, 105u8, 115u8, 116u8, 105u8, 110u8, 103u8]
}

/// Build the listing namespace tag.
pub fn listing_namespace() -> (r: Vec<u8>)
    ensures
        r@ == spec_listing_namespace(),
{
    let mut v: Vec<u8> = Vec::new();
    v.push(108);
    v.push(105);
    v.push(115);
    v.push(116);
    v.push(105);
    v.push(110);
    v.push(103);
    proof {
        assert(v@ =~= spec_listing_namespace());
    }
    v
}

/// The derived address of the listing of `mint` on `marketplace`: one
/// listing per mint and marketplace.
pub open spec fn spec_listing_addr(mint: Identity, marketplace: Identity) -> AddrView {
    spec_derive(
        spec_listing_namespace(),
        seq![spec_identity_part(mint), spec_identity_part(marketplace)],
    )
}

/// List an item: create the listing record and its custody vault at the
/// derived address, exactly once per (mint, marketplace).
///
/// `collection_verified` is the answer of the external metadata
/// capability to "does the listed item belong to the verified
/// collection"; creation requires it, and a listing attempt without it
/// fails with `PreconditionFailed` before anything is touched. A second
/// call for the same mint and marketplace fails with
/// `AlreadyInitialized` and changes nothing.
pub fn create_listing(
    guard: &mut InitGuard,
    maker: Identity,
    mint: Identity,
    marketplace: Identity,
    price: u64,
    collection_verified: bool,
) -> (r: Result<(DerivedAddress, ListingState, CustodyVault), CoreError>)
    requires
        old(guard).wf(),
    ensures
        final(guard).wf(),
        r is Ok <==> collection_verified && !old(guard).spec_contains(
            spec_listing_addr(mint, marketplace),
        ),
        r matches Ok((a, l, v)) ==> {
            &&& a@ == spec_listing_addr(mint, marketplace)
            &&& l == (ListingState { maker, bump: MAX_BUMP, price, mint })
            &&& v.owner@ == spec_listing_addr(mint, marketplace)
            &&& v.mint == mint
            &&& v.balance == 0
            &&& final(guard).addrs() == old(guard).addrs().push(
                spec_listing_addr(mint, marketplace),
            )
        },
        r is Err ==> *final(guard) == *old(guard),
        r matches Err(e) ==> (e == CoreError::PreconditionFailed <==> !collection_verified),
        r matches Err(e) ==> (e == CoreError::AlreadyInitialized <==> collection_verified && old(
            guard,
        ).spec_contains(spec_listing_addr(mint, marketplace))),
        collection_verified ==> final(guard).spec_contains(spec_listing_addr(mint, marketplace)),
{
    if !collection_verified {
        return Err(CoreError::PreconditionFailed);
    }
    let ns = listing_namespace();
    let mut parts: Vec<Vec<u8>> = Vec::new();
    parts.push(identity_part(mint));
    parts.push(identity_part(marketplace));
    proof {
        crate::addr::lemma_bytes_deep_view(parts@[0]);
        crate::addr::lemma_bytes_deep_view(parts@[1]);
        assert(parts.deep_view() =~= seq![
            spec_identity_part(mint),
            spec_identity_part(marketplace),
        ]);
    }
    let (addr, bump) = match DerivedAddress::derive(ns, parts) {
        Ok(x) => x,
        Err(e) => { return Err(e) },
    };
    let ret_addr = addr.clone();
    let vault_addr = addr.clone();
    match guard.claim(addr) {
        Ok(()) => {},
        Err(e) => { return Err(e) },
    }
    let listing = ListingState { maker, bump, price, mint };
    let vault = CustodyVault { owner: vault_addr, mint, balance: 0 };
    Ok((ret_addr, listing, vault))
}

} // verus!
