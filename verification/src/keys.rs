use crate::record::Identity;
use vstd::prelude::*;

verus! {

/// The little-endian byte string of a 64-bit value, used as a key part
/// in address derivation.
pub open spec fn spec_le_bytes_u64(x: u64) -> Seq<u8> {
    seq![
        (x as int % 256) as u8,
        ((x as int / 256) % 256) as u8,
        ((x as int / 65536) % 256) as u8,
        ((x as int / 16777216) % 256) as u8,
        ((x as int / 4294967296) % 256) as u8,
        ((x as int / 1099511627776) % 256) as u8,
        ((x as int / 281474976710656) % 256) as u8,
        ((x as int / 72057594037927936) % 256) as u8,
    ]
}

/// The little-endian byte string of a 32-bit value, used as a key part
/// in address derivation.
pub open spec fn spec_le_bytes_u32(x: u32) -> Seq<u8> {
    seq![
        (x as int % 256) as u8,
        ((x as int / 256) % 256) as u8,
        ((x as int / 65536) % 256) as u8,
        ((x as int / 16777216) % 256) as u8,
    ]
}

/// Encode a 64-bit value as its little-endian key part.
pub fn le_bytes_u64(x: u64) -> (r: Vec<u8>)
    ensures
        r@ == spec_le_bytes_u64(x),
{
    let mut v: Vec<u8> = Vec::new();
    v.push((x % 256) as u8);
    v.push(((x / 256) % 256) as u8);
    v.push(((x / 65536) % 256) as u8);
    v.push(((x / 16777216) % 256) as u8);
    v.push(((x / 4294967296) % 256) as u8);
    v.push(((x / 1099511627776) % 256) as u8);
    v.push(((x / 281474976710656) % 256) as u8);
    v.push(((x / 72057594037927936) % 256) as u8);
    proof {
        assert(v@ =~= spec_le_bytes_u64(x));
    }
    v
}

/// Encode a 32-bit value as its little-endian key part.
pub fn le_bytes_u32(x: u32) -> (r: Vec<u8>)
    ensures
        r@ == spec_le_bytes_u32(x),
{
    let mut v: Vec<u8> = Vec::new();
    v.push((x % 256) as u8);
    v.push(((x / 256) % 256) as u8);
    v.push(((x / 65536) % 256) as u8);
    v.push(((x / 16777216) % 256) as u8);
    proof {
        assert(v@ =~= spec_le_bytes_u32(x));
    }
    v
}

/// The key part of an identity.
pub open spec fn spec_identity_part(id: Identity) -> Seq<u8> {
    spec_le_bytes_u64(id.key)
}

/// Encode an identity as its key part.
pub fn identity_part(id: Identity) -> (r: Vec<u8>)
    ensures
        r@ == spec_identity_part(id),
{
    le_bytes_u64(id.key)
}

} // verus!
