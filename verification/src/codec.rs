use crate::addr::{clone_bytes, AddrView, DerivedAddress};
use crate::keys::{le_bytes_u32, le_bytes_u64, spec_le_bytes_u32, spec_le_bytes_u64};
use crate::record::{
    CustodyVault, DaoState, EscrowState, Identity, ListingState, PoolState, ProposalState,
    StakeConfigState, StateRecord,
};
use vstd::arithmetic::div_mod::{
    lemma_div_denominator, lemma_div_is_ordered, lemma_fundamental_div_mod,
    lemma_fundamental_div_mod_converse, lemma_small_mod,
};
use vstd::prelude::*;

verus! {

/// The value that an 8-byte little-endian string encodes.
pub open spec fn spec_u64_of_le(b: Seq<u8>) -> int
    recommends
        b.len() == 8,
{
    b[0] + 256 * b[1] + 65536 * b[2] + 16777216 * b[3] + 4294967296 * b[4] + 1099511627776 * b[5]
        + 281474976710656 * b[6] + 72057594037927936 * b[7]
}

/// The value that a 4-byte little-endian string encodes.
pub open spec fn spec_u32_of_le(b: Seq<u8>) -> int
    recommends
        b.len() == 4,
{
    b[0] + 256 * b[1] + 65536 * b[2] + 16777216 * b[3]
}

/// Round trip of the 64-bit little-endian encoding: decoding the bytes
/// of a value gives the value back.
pub proof fn lemma_le_u64_round_trip(x: u64)
    ensures
        spec_u64_of_le(spec_le_bytes_u64(x)) == x,
{
    let xi = x as int;
    lemma_fundamental_div_mod(xi, 256);
    lemma_div_denominator(xi, 256, 256);
    lemma_fundamental_div_mod(xi / 256, 256);
    lemma_div_denominator(xi, 65536, 256);
    lemma_fundamental_div_mod(xi / 65536, 256);
    lemma_div_denominator(xi, 16777216, 256);
    lemma_fundamental_div_mod(xi / 16777216, 256);
    lemma_div_denominator(xi, 4294967296, 256);
    lemma_fundamental_div_mod(xi / 4294967296, 256);
    lemma_div_denominator(xi, 1099511627776, 256);
    lemma_fundamental_div_mod(xi / 1099511627776, 256);
    lemma_div_denominator(xi, 281474976710656, 256);
    lemma_fundamental_div_mod(xi / 281474976710656, 256);
    lemma_div_is_ordered(xi, 0xffffffffffffffff, 72057594037927936);
    lemma_small_mod((xi / 72057594037927936) as nat, 256);
}

/// Round trip of the 32-bit little-endian encoding.
pub proof fn lemma_le_u32_round_trip(x: u32)
    ensures
        spec_u32_of_le(spec_le_bytes_u32(x)) == x,
{
    let xi = x as int;
    lemma_fundamental_div_mod(xi, 256);
    lemma_div_denominator(xi, 256, 256);
    lemma_fundamental_div_mod(xi / 256, 256);
    lemma_div_denominator(xi, 65536, 256);
    lemma_fundamental_div_mod(xi / 65536, 256);
    lemma_div_is_ordered(xi, 0xffffffff, 16777216);
    lemma_small_mod((xi / 16777216) as nat, 256);
}

/// The value a 4-byte string encodes is within the 32-bit range.
pub proof fn lemma_u32_of_le_bounds(b: Seq<u8>)
    requires
        b.len() == 4,
    ensures
        0 <= spec_u32_of_le(b) <= u32::MAX,
{
}

/// Round trip of the 32-bit little-endian encoding, from the byte side:
/// re-encoding the value that a 4-byte string encodes gives the string
/// back.
pub proof fn lemma_u32_le_bytes_round_trip(b: Seq<u8>)
    requires
        b.len() == 4,
    ensures
        spec_le_bytes_u32(spec_u32_of_le(b) as u32) == b,
{
    let x = spec_u32_of_le(b);
    lemma_fundamental_div_mod_converse(x, 256, b[1] + 256 * b[2] + 65536 * b[3], b[0] as int);
    let q1 = x / 256;
    lemma_fundamental_div_mod_converse(q1, 256, b[2] + 256 * b[3], b[1] as int);
    lemma_div_denominator(x, 256, 256);
    let q2 = x / 65536;
    lemma_fundamental_div_mod_converse(q2, 256, b[3] as int, b[2] as int);
    lemma_div_denominator(x, 65536, 256);
    let q3 = x / 16777216;
    lemma_small_mod(b[3] as nat, 256);
    assert(spec_le_bytes_u32(x as u32) =~= b);
}

/// Read the 64-bit value encoded little-endian at `off`.
pub fn read_u64_le(bytes: &Vec<u8>, off: usize) -> (r: u64)
    requires
        off + 8 <= bytes@.len(),
    ensures
        r == spec_u64_of_le(bytes@.subrange(off as int, off as int + 8)),
{
    let n = bytes.len();
    let b0 = bytes[off] as u64;
    let b1 = bytes[off + 1] as u64;
    let b2 = bytes[off + 2] as u64;
    let b3 = bytes[off + 3] as u64;
    let b4 = bytes[off + 4] as u64;
    let b5 = bytes[off + 5] as u64;
    let b6 = bytes[off + 6] as u64;
    let b7 = bytes[off + 7] as u64;
    b0 + 256 * b1 + 65536 * b2 + 16777216 * b3 + 4294967296 * b4 + 1099511627776 * b5
        + 281474976710656 * b6 + 72057594037927936 * b7
}

/// Read the 32-bit value encoded little-endian at `off`.
pub fn read_u32_le(bytes: &Vec<u8>, off: usize) -> (r: u32)
    requires
        off + 4 <= bytes@.len(),
    ensures
        r == spec_u32_of_le(bytes@.subrange(off as int, off as int + 4)),
{
    let n = bytes.len();
    let b0 = bytes[off] as u32;
    let b1 = bytes[off + 1] as u32;
    let b2 = bytes[off + 2] as u32;
    let b3 = bytes[off + 3] as u32;
    b0 + 256 * b1 + 65536 * b2 + 16777216 * b3
}

/// The persisted layout of a state record: a one-byte discriminator
/// that identifies the variant, followed by the variant's typed fields
/// in declaration order; multi-byte integers little-endian, byte
/// strings length-prefixed.
pub open spec fn spec_encode_record(r: StateRecord) -> Seq<u8> {
    match r {
        StateRecord::Pool(p) => seq![1u8] + spec_le_bytes_u64(p.authority.key) + seq![p.bump]
            + spec_le_bytes_u64(p.total_deposits),
        StateRecord::Escrow(e) => seq![2u8] + spec_le_bytes_u64(e.authority.key) + seq![e.bump]
            + spec_le_bytes_u64(e.seed) + spec_le_bytes_u64(e.deposit_amount) + spec_le_bytes_u64(
            e.receive_amount,
        ),
        StateRecord::Listing(l) => seq![3u8] + spec_le_bytes_u64(l.maker.key) + seq![l.bump]
            + spec_le_bytes_u64(l.price) + spec_le_bytes_u64(l.mint.key),
        StateRecord::StakeConfig(c) => seq![4u8] + spec_le_bytes_u64(c.authority.key)
            + seq![c.bump] + spec_le_bytes_u64(c.reward_mint.key) + seq![c.points_per_stake]
            + spec_le_bytes_u32(c.freeze_period),
        StateRecord::Dao(d) => seq![5u8] + spec_le_bytes_u64(d.authority.key) + seq![d.bump]
            + spec_le_bytes_u32(d.name@.len() as u32) + d.name@ + spec_le_bytes_u32(
            d.proposal_count,
        ),
        StateRecord::Proposal(p) => seq![6u8] + spec_le_bytes_u64(p.authority.key) + seq![p.bump]
            + spec_le_bytes_u32(p.metadata@.len() as u32) + p.metadata@ + spec_le_bytes_u32(
            p.yes_vote_count,
        ) + spec_le_bytes_u32(p.no_vote_count),
    }
}

/// Whether two records are the same record: the same variant with the
/// same field values.
pub open spec fn records_match(a: StateRecord, b: StateRecord) -> bool {
    match (a, b) {
        (StateRecord::Pool(x), StateRecord::Pool(y)) => x == y,
        (StateRecord::Escrow(x), StateRecord::Escrow(y)) => x == y,
        (StateRecord::Listing(x), StateRecord::Listing(y)) => x == y,
        (StateRecord::StakeConfig(x), StateRecord::StakeConfig(y)) => x == y,
        (StateRecord::Dao(x), StateRecord::Dao(y)) => x.authority == y.authority && x.bump
            == y.bump && x.name@ == y.name@ && x.proposal_count == y.proposal_count,
        (StateRecord::Proposal(x), StateRecord::Proposal(y)) => x.authority == y.authority
            && x.bump == y.bump && x.metadata@ == y.metadata@ && x.yes_vote_count
            == y.yes_vote_count && x.no_vote_count == y.no_vote_count,
        _ => false,
    }
}

/// Whether a record fits its persisted layout: byte-string fields must
/// be addressable by the four-byte length prefix.
pub open spec fn spec_record_wf(r: StateRecord) -> bool {
    match r {
        StateRecord::Dao(d) => d.name@.len() <= u32::MAX,
        StateRecord::Proposal(p) => p.metadata@.len() <= u32::MAX,
        _ => true,
    }
}

/// The length and the discriminator of each variant's persisted layout.
pub proof fn lemma_encode_shape(orig: StateRecord)
    ensures
        spec_encode_record(orig).len() >= 18,
        orig matches StateRecord::Pool(_) ==> spec_encode_record(orig).len() == 18
            && spec_encode_record(orig)[0] == 1,
        orig matches StateRecord::Escrow(_) ==> spec_encode_record(orig).len() == 34
            && spec_encode_record(orig)[0] == 2,
        orig matches StateRecord::Listing(_) ==> spec_encode_record(orig).len() == 26
            && spec_encode_record(orig)[0] == 3,
        orig matches StateRecord::StakeConfig(_) ==> spec_encode_record(orig).len() == 23
            && spec_encode_record(orig)[0] == 4,
        orig matches StateRecord::Dao(d) ==> spec_encode_record(orig).len() == 18 + d.name@.len()
            && spec_encode_record(orig)[0] == 5,
        orig matches StateRecord::Proposal(p) ==> spec_encode_record(orig).len() == 22
            + p.metadata@.len() && spec_encode_record(orig)[0] == 6,
{
}

/// Serialize a record into its persisted layout.
pub fn encode_record(r: &StateRecord) -> (out: Vec<u8>)
    requires
        spec_record_wf(*r),
    ensures
        out@ == spec_encode_record(*r),
{
    let mut out: Vec<u8> = Vec::new();
    match r {
        StateRecord::Pool(p) => {
            out.push(1);
            let mut t = le_bytes_u64(p.authority.key);
            out.append(&mut t);
            out.push(p.bump);
            let mut t = le_bytes_u64(p.total_deposits);
            out.append(&mut t);
        },
        StateRecord::Escrow(e) => {
            out.push(2);
            let mut t = le_bytes_u64(e.authority.key);
            out.append(&mut t);
            out.push(e.bump);
            let mut t = le_bytes_u64(e.seed);
            out.append(&mut t);
            let mut t = le_bytes_u64(e.deposit_amount);
            out.append(&mut t);
            let mut t = le_bytes_u64(e.receive_amount);
            out.append(&mut t);
        },
        StateRecord::Listing(l) => {
            out.push(3);
            let mut t = le_bytes_u64(l.maker.key);
            out.append(&mut t);
            out.push(l.bump);
            let mut t = le_bytes_u64(l.price);
            out.append(&mut t);
            let mut t = le_bytes_u64(l.mint.key);
            out.append(&mut t);
        },
        StateRecord::StakeConfig(c) => {
            out.push(4);
            let mut t = le_bytes_u64(c.authority.key);
            out.append(&mut t);
            out.push(c.bump);
            let mut t = le_bytes_u64(c.reward_mint.key);
            out.append(&mut t);
            out.push(c.points_per_stake);
            let mut t = le_bytes_u32(c.freeze_period);
            out.append(&mut t);
        },
        StateRecord::Dao(d) => {
            out.push(5);
            let mut t = le_bytes_u64(d.authority.key);
            out.append(&mut t);
            out.push(d.bump);
            let mut t = le_bytes_u32(d.name.len() as u32);
            out.append(&mut t);
            let mut nb = clone_bytes(&d.name);
            out.append(&mut nb);
            let mut t = le_bytes_u32(d.proposal_count);
            out.append(&mut t);
        },
        StateRecord::Proposal(p) => {
            out.push(6);
            let mut t = le_bytes_u64(p.authority.key);
            out.append(&mut t);
            out.push(p.bump);
            let mut t = le_bytes_u32(p.metadata.len() as u32);
            out.append(&mut t);
            let mut mb = clone_bytes(&p.metadata);
            out.append(&mut mb);
            let mut t = le_bytes_u32(p.yes_vote_count);
            out.append(&mut t);
            let mut t = le_bytes_u32(p.no_vote_count);
            out.append(&mut t);
        },
    }
    proof {
        assert(out@ =~= spec_encode_record(*r));
    }
    out
}

/// Deserialize a record from its persisted layout: the inverse of
/// `encode_record`. A round trip — serialize, then deserialize — yields
/// an identical record; bytes that no record encodes are rejected with
/// `None`.
#[verifier::rlimit(100)]
pub fn decode_record(bytes: &Vec<u8>) -> (r: Option<StateRecord>)
    ensures
        forall|orig: StateRecord|
            spec_record_wf(orig) && bytes@ == #[trigger] spec_encode_record(orig) ==> (r matches Some(
                d,
            ) && records_match(d, orig)),
{
    let n = bytes.len();
    if n < 18 {
        proof {
            assert forall|orig: StateRecord|
                spec_record_wf(orig) && bytes@ == spec_encode_record(orig) implies false by {
                lemma_encode_shape(orig);
            }
        }
        return None;
    }
    let tag = bytes[0];
    if tag == 1 {
        if n != 18 {
            proof {
                assert forall|orig: StateRecord|
                    spec_record_wf(orig) && bytes@ == spec_encode_record(orig) implies false by {
                    lemma_encode_shape(orig);
                }
            }
            return None;
        }
        let authority = Identity { key: read_u64_le(bytes, 1) };
        let bump = bytes[9];
        let total_deposits = read_u64_le(bytes, 10);
        let rec = StateRecord::Pool(PoolState { authority, bump, total_deposits });
        proof {
            assert forall|orig: StateRecord|
                spec_record_wf(orig) && bytes@ == spec_encode_record(orig) implies records_match(
                rec,
                orig,
            ) by {
                lemma_encode_shape(orig);
                match orig {
                    StateRecord::Pool(p) => {
                        assert(bytes@.subrange(1, 9) =~= spec_le_bytes_u64(p.authority.key));
                        lemma_le_u64_round_trip(p.authority.key);
                        assert(bytes@[9] == p.bump);
                        assert(bytes@.subrange(10, 18) =~= spec_le_bytes_u64(p.total_deposits));
                        lemma_le_u64_round_trip(p.total_deposits);
                    },
                    _ => {},
                }
            }
        }
        return Some(rec);
    }
    if tag == 2 {
        if n != 34 {
            proof {
                assert forall|orig: StateRecord|
                    spec_record_wf(orig) && bytes@ == spec_encode_record(orig) implies false by {
                    lemma_encode_shape(orig);
                }
            }
            return None;
        }
        let authority = Identity { key: read_u64_le(bytes, 1) };
        let bump = bytes[9];
        let seed = read_u64_le(bytes, 10);
        let deposit_amount = read_u64_le(bytes, 18);
        let receive_amount = read_u64_le(bytes, 26);
        let rec = StateRecord::Escrow(EscrowState {
            authority,
            bump,
            seed,
            deposit_amount,
            receive_amount,
        });
        proof {
            assert forall|orig: StateRecord|
                spec_record_wf(orig) && bytes@ == spec_encode_record(orig) implies records_match(
                rec,
                orig,
            ) by {
                lemma_encode_shape(orig);
                match orig {
                    StateRecord::Escrow(e) => {
                        assert(bytes@.subrange(1, 9) =~= spec_le_bytes_u64(e.authority.key));
                        lemma_le_u64_round_trip(e.authority.key);
                        assert(bytes@[9] == e.bump);
                        assert(bytes@.subrange(10, 18) =~= spec_le_bytes_u64(e.seed));
                        lemma_le_u64_round_trip(e.seed);
                        assert(bytes@.subrange(18, 26) =~= spec_le_bytes_u64(e.deposit_amount));
                        lemma_le_u64_round_trip(e.deposit_amount);
                        assert(bytes@.subrange(26, 34) =~= spec_le_bytes_u64(e.receive_amount));
                        lemma_le_u64_round_trip(e.receive_amount);
                    },
                    _ => {},
                }
            }
        }
        return Some(rec);
    }
    if tag == 3 {
        if n != 26 {
            proof {
                assert forall|orig: StateRecord|
                    spec_record_wf(orig) && bytes@ == spec_encode_record(orig) implies false by {
                    lemma_encode_shape(orig);
                }
            }
            return None;
        }
        let maker = Identity { key: read_u64_le(bytes, 1) };
        let bump = bytes[9];
        let price = read_u64_le(bytes, 10);
        let mint = Identity { key: read_u64_le(bytes, 18) };
        let rec = StateRecord::Listing(ListingState { maker, bump, price, mint });
        proof {
            assert forall|orig: StateRecord|
                spec_record_wf(orig) && bytes@ == spec_encode_record(orig) implies records_match(
                rec,
                orig,
            ) by {
                lemma_encode_shape(orig);
                match orig {
                    StateRecord::Listing(l) => {
                        assert(bytes@.subrange(1, 9) =~= spec_le_bytes_u64(l.maker.key));
                        lemma_le_u64_round_trip(l.maker.key);
                        assert(bytes@[9] == l.bump);
                        assert(bytes@.subrange(10, 18) =~= spec_le_bytes_u64(l.price));
                        lemma_le_u64_round_trip(l.price);
                        assert(bytes@.subrange(18, 26) =~= spec_le_bytes_u64(l.mint.key));
                        lemma_le_u64_round_trip(l.mint.key);
                    },
                    _ => {},
                }
            }
        }
        return Some(rec);
    }
    if tag == 4 {
        if n != 23 {
            proof {
                assert forall|orig: StateRecord|
                    spec_record_wf(orig) && bytes@ == spec_encode_record(orig) implies false by {
                    lemma_encode_shape(orig);
                }
            }
            return None;
        }
        let authority = Identity { key: read_u64_le(bytes, 1) };
        let bump = bytes[9];
        let reward_mint = Identity { key: read_u64_le(bytes, 10) };
        let points_per_stake = bytes[18];
        let freeze_period = read_u32_le(bytes, 19);
        let rec = StateRecord::StakeConfig(StakeConfigState {
            authority,
            bump,
            reward_mint,
            points_per_stake,
            freeze_period,
        });
        proof {
            assert forall|orig: StateRecord|
                spec_record_wf(orig) && bytes@ == spec_encode_record(orig) implies records_match(
                rec,
                orig,
            ) by {
                lemma_encode_shape(orig);
                match orig {
                    StateRecord::StakeConfig(c) => {
                        assert(bytes@.subrange(1, 9) =~= spec_le_bytes_u64(c.authority.key));
                        lemma_le_u64_round_trip(c.authority.key);
                        assert(bytes@[9] == c.bump);
                        assert(bytes@.subrange(10, 18) =~= spec_le_bytes_u64(c.reward_mint.key));
                        lemma_le_u64_round_trip(c.reward_mint.key);
                        assert(bytes@[18] == c.points_per_stake);
                        assert(bytes@.subrange(19, 23) =~= spec_le_bytes_u32(c.freeze_period));
                        lemma_le_u32_round_trip(c.freeze_period);
                    },
                    _ => {},
                }
            }
        }
        return Some(rec);
    }
    if tag == 5 {
        let nlen = read_u32_le(bytes, 10) as usize;
        if n - 18 != nlen {
            proof {
                assert forall|orig: StateRecord|
                    spec_record_wf(orig) && bytes@ == spec_encode_record(orig) implies false by {
                    lemma_encode_shape(orig);
                    match orig {
                        StateRecord::Dao(d) => {
                            assert(bytes@.subrange(10, 14) =~= spec_le_bytes_u32(
                                d.name@.len() as u32,
                            ));
                            lemma_le_u32_round_trip(d.name@.len() as u32);
                        },
                        _ => {},
                    }
                }
            }
            return None;
        }
        let authority = Identity { key: read_u64_le(bytes, 1) };
        let bump = bytes[9];
        let mut name: Vec<u8> = Vec::new();
        let mut i: usize = 0;
        while i < nlen
            invariant
                i <= nlen,
                n == bytes@.len(),
                n - 18 == nlen,
                name@.len() == i,
                forall|j: int| 0 <= j < i ==> name@[j] == bytes@[14 + j],
            decreases nlen - i,
        {
            name.push(bytes[14 + i]);
            i = i + 1;
        }
        let proposal_count = read_u32_le(bytes, 14 + nlen);
        let rec_inner = DaoState { authority, bump, name, proposal_count };
        proof {
            assert forall|orig: StateRecord|
                spec_record_wf(orig) && bytes@ == spec_encode_record(orig) implies records_match(
                StateRecord::Dao(rec_inner),
                orig,
            ) by {
                lemma_encode_shape(orig);
                match orig {
                    StateRecord::Dao(d) => {
                        assert(bytes@.subrange(10, 14) =~= spec_le_bytes_u32(
                            d.name@.len() as u32,
                        ));
                        lemma_le_u32_round_trip(d.name@.len() as u32);
                        assert(nlen == d.name@.len());
                        assert(bytes@.subrange(1, 9) =~= spec_le_bytes_u64(d.authority.key));
                        lemma_le_u64_round_trip(d.authority.key);
                        assert(bytes@[9] == d.bump);
                        assert forall|j: int| 0 <= j < nlen implies bytes@[14 + j]
                            == d.name@[j] by {}
                        assert(rec_inner.name@ =~= d.name@);
                        assert(bytes@.subrange(14 + nlen, 18 + nlen) =~= spec_le_bytes_u32(
                            d.proposal_count,
                        ));
                        lemma_le_u32_round_trip(d.proposal_count);
                    },
                    _ => {},
                }
            }
        }
        return Some(StateRecord::Dao(rec_inner));
    }
    if tag == 6 {
        if n < 22 {
            proof {
                assert forall|orig: StateRecord|
                    spec_record_wf(orig) && bytes@ == spec_encode_record(orig) implies false by {
                    lemma_encode_shape(orig);
                }
            }
            return None;
        }
        let mlen = read_u32_le(bytes, 10) as usize;
        if n - 22 != mlen {
            proof {
                assert forall|orig: StateRecord|
                    spec_record_wf(orig) && bytes@ == spec_encode_record(orig) implies false by {
                    lemma_encode_shape(orig);
                    match orig {
                        StateRecord::Proposal(p) => {
                            assert(bytes@.subrange(10, 14) =~= spec_le_bytes_u32(
                                p.metadata@.len() as u32,
                            ));
                            lemma_le_u32_round_trip(p.metadata@.len() as u32);
                        },
                        _ => {},
                    }
                }
            }
            return None;
        }
        let authority = Identity { key: read_u64_le(bytes, 1) };
        let bump = bytes[9];
        let mut metadata: Vec<u8> = Vec::new();
        let mut i: usize = 0;
        while i < mlen
            invariant
                i <= mlen,
                n == bytes@.len(),
                n - 22 == mlen,
                metadata@.len() == i,
                forall|j: int| 0 <= j < i ==> metadata@[j] == bytes@[14 + j],
            decreases mlen - i,
        {
            metadata.push(bytes[14 + i]);
            i = i + 1;
        }
        let yes_vote_count = read_u32_le(bytes, 14 + mlen);
        let no_vote_count = read_u32_le(bytes, 18 + mlen);
        let rec_inner = ProposalState { authority, bump, metadata, yes_vote_count, no_vote_count };
        proof {
            assert forall|orig: StateRecord|
                spec_record_wf(orig) && bytes@ == spec_encode_record(orig) implies records_match(
                StateRecord::Proposal(rec_inner),
                orig,
            ) by {
                lemma_encode_shape(orig);
                match orig {
                    StateRecord::Proposal(p) => {
                        assert(bytes@.subrange(10, 14) =~= spec_le_bytes_u32(
                            p.metadata@.len() as u32,
                        ));
                        lemma_le_u32_round_trip(p.metadata@.len() as u32);
                        assert(mlen == p.metadata@.len());
                        assert(bytes@.subrange(1, 9) =~= spec_le_bytes_u64(p.authority.key));
                        lemma_le_u64_round_trip(p.authority.key);
                        assert(bytes@[9] == p.bump);
                        assert forall|j: int| 0 <= j < mlen implies bytes@[14 + j]
                            == p.metadata@[j] by {}
                        assert(rec_inner.metadata@ =~= p.metadata@);
                        assert(bytes@.subrange(14 + mlen, 18 + mlen) =~= spec_le_bytes_u32(
                            p.yes_vote_count,
                        ));
                        lemma_le_u32_round_trip(p.yes_vote_count);
                        assert(bytes@.subrange(18 + mlen, 22 + mlen) =~= spec_le_bytes_u32(
                            p.no_vote_count,
                        ));
                        lemma_le_u32_round_trip(p.no_vote_count);
                    },
                    _ => {},
                }
            }
        }
        return Some(StateRecord::Proposal(rec_inner));
    }
    proof {
        assert forall|orig: StateRecord|
            spec_record_wf(orig) && bytes@ == spec_encode_record(orig) implies false by {
            lemma_encode_shape(orig);
        }
    }
    None
}

/// The persisted layout of an ordered sequence of key parts: each part
/// length-prefixed, in order.
pub open spec fn spec_encode_parts(parts: Seq<Seq<u8>>) -> Seq<u8>
    decreases parts.len(),
{
    if parts.len() == 0 {
        Seq::<u8>::empty()
    } else {
        spec_le_bytes_u32(parts[0].len() as u32) + parts[0] + spec_encode_parts(
            parts.subrange(1, parts.len() as int),
        )
    }
}

/// Appending one part appends its length prefix and its bytes.
pub proof fn lemma_encode_parts_push(parts: Seq<Seq<u8>>, x: Seq<u8>)
    ensures
        spec_encode_parts(parts.push(x)) == spec_encode_parts(parts) + spec_le_bytes_u32(
            x.len() as u32,
        ) + x,
    decreases parts.len(),
{
    if parts.len() == 0 {
        assert(parts.push(x)[0] == x);
        assert(parts.push(x).subrange(1, 1) =~= Seq::<Seq<u8>>::empty());
        assert(spec_encode_parts(Seq::<Seq<u8>>::empty()) == Seq::<u8>::empty());
        assert(parts =~= Seq::<Seq<u8>>::empty());
        assert(spec_encode_parts(parts.push(x)) =~= spec_encode_parts(parts) + spec_le_bytes_u32(
            x.len() as u32,
        ) + x);
    } else {
        let tail = parts.subrange(1, parts.len() as int);
        assert(parts.push(x).subrange(1, parts.push(x).len() as int) =~= tail.push(x));
        lemma_encode_parts_push(tail, x);
        assert(spec_encode_parts(parts.push(x)) =~= spec_encode_parts(parts) + spec_le_bytes_u32(
            x.len() as u32,
        ) + x);
    }
}

/// The encoding of a sequence of parts splits at any index into the
/// encoding of the first `i` parts followed by the encoding of the rest.
pub proof fn lemma_encode_parts_split(parts: Seq<Seq<u8>>, i: int)
    requires
        0 <= i <= parts.len(),
    ensures
        spec_encode_parts(parts) == spec_encode_parts(parts.take(i)) + spec_encode_parts(
            parts.skip(i),
        ),
    decreases i,
{
    if i == 0 {
        assert(parts.take(0) =~= Seq::<Seq<u8>>::empty());
        assert(parts.skip(0) =~= parts);
        assert(spec_encode_parts(parts) =~= spec_encode_parts(parts.take(0)) + spec_encode_parts(
            parts.skip(0),
        ));
    } else {
        lemma_encode_parts_split(parts, i - 1);
        assert(parts.take(i) =~= parts.take(i - 1).push(parts[i - 1]));
        lemma_encode_parts_push(parts.take(i - 1), parts[i - 1]);
        let s = parts.skip(i - 1);
        assert(s[0] == parts[i - 1]);
        assert(s.subrange(1, s.len() as int) =~= parts.skip(i));
        assert(spec_encode_parts(parts.take(i)) + spec_encode_parts(parts.skip(i))
            =~= spec_encode_parts(parts.take(i - 1)) + spec_encode_parts(parts.skip(i - 1)));
    }
}

/// Whether every part of a sequence fits its four-byte length prefix.
pub open spec fn spec_parts_wf(parts: Seq<Seq<u8>>) -> bool {
    forall|i: int| 0 <= i < parts.len() ==> #[trigger] parts[i].len() <= u32::MAX
}

/// Parsing is unambiguous: if the encoding of `s1` is a prefix of the
/// encoding of `s2` followed by anything, and `s1` has no more parts
/// than `s2`, then `s1` is exactly the first parts of `s2`.
pub proof fn lemma_encode_parts_prefix(s1: Seq<Seq<u8>>, s2: Seq<Seq<u8>>, rest: Seq<u8>)
    requires
        s1.len() <= s2.len(),
        spec_parts_wf(s1),
        spec_parts_wf(s2),
        spec_encode_parts(s1).is_prefix_of(spec_encode_parts(s2) + rest),
    ensures
        s1 == s2.take(s1.len() as int),
    decreases s1.len(),
{
    if s1.len() == 0 {
        assert(s1 =~= s2.take(0));
    } else {
        let h1 = s1[0];
        let h2 = s2[0];
        let t1 = s1.subrange(1, s1.len() as int);
        let t2 = s2.subrange(1, s2.len() as int);
        let e1 = spec_encode_parts(s1);
        let e2 = spec_encode_parts(s2);
        assert(e1 == spec_le_bytes_u32(h1.len() as u32) + h1 + spec_encode_parts(t1));
        assert(e2 == spec_le_bytes_u32(h2.len() as u32) + h2 + spec_encode_parts(t2));
        assert(e1 =~= (e2 + rest).subrange(0, e1.len() as int));
        assert(forall|j: int| 0 <= j < e1.len() ==> e1[j] == (e2 + rest)[j]);
        assert(spec_le_bytes_u32(h1.len() as u32) =~= (e2 + rest).subrange(0, 4));
        assert(spec_le_bytes_u32(h2.len() as u32) =~= (e2 + rest).subrange(0, 4));
        lemma_le_u32_round_trip(h1.len() as u32);
        lemma_le_u32_round_trip(h2.len() as u32);
        assert(h1.len() == h2.len());
        let hl = h1.len() as int;
        assert(forall|j: int| 0 <= j < hl ==> h1[j] == e1[4 + j]);
        assert(forall|j: int| 0 <= j < hl ==> h2[j] == e2[4 + j]);
        assert(h1 =~= (e2 + rest).subrange(4, 4 + hl));
        assert(h2 =~= (e2 + rest).subrange(4, 4 + hl));
        assert(h1 == h2);
        assert(spec_encode_parts(t1).is_prefix_of(spec_encode_parts(t2) + rest)) by {
            let k = 4 + hl;
            assert(spec_encode_parts(t1) =~= e1.skip(k));
            assert(spec_encode_parts(t2) + rest =~= (e2 + rest).skip(k));
            assert(e1.skip(k).is_prefix_of((e2 + rest).skip(k)));
        }
        assert(spec_parts_wf(t1));
        assert(spec_parts_wf(t2));
        lemma_encode_parts_prefix(t1, t2, rest);
        assert forall|j: int| 1 <= j < s1.len() implies s1[j] == s2.take(s1.len() as int)[j] by {
            assert(s1[j] == t1[j - 1]);
            assert(t1[j - 1] == t2.take(t1.len() as int)[j - 1]);
            assert(t2.take(t1.len() as int)[j - 1] == s2[j]);
        }
        assert(s1 =~= s2.take(s1.len() as int));
    }
}

/// Read `len` bytes starting at `off`.
pub fn read_bytes(bytes: &Vec<u8>, off: usize, len: usize) -> (r: Vec<u8>)
    requires
        off + len <= bytes@.len(),
    ensures
        r@ == bytes@.subrange(off as int, off as int + len as int),
{
    let n = bytes.len();
    let mut r: Vec<u8> = Vec::new();
    let mut i: usize = 0;
    while i < len
        invariant
            i <= len,
            n == bytes@.len(),
            off + len <= n,
            r@.len() == i,
            forall|j: int| 0 <= j < i ==> r@[j] == bytes@[off + j],
        decreases len - i,
    {
        r.push(bytes[off + i]);
        i = i + 1;
    }
    proof {
        assert(r@ =~= bytes@.subrange(off as int, off as int + len as int));
    }
    r
}

/// The persisted layout of a derived address: length-prefixed namespace,
/// part count, the length-prefixed parts in order, and the bump.
pub open spec fn spec_encode_addr(a: AddrView) -> Seq<u8> {
    spec_le_bytes_u32(a.namespace.len() as u32) + a.namespace + spec_le_bytes_u32(
        a.key_parts.len() as u32,
    ) + spec_encode_parts(a.key_parts) + seq![a.bump]
}

/// The persisted layout of a custody vault: its owner's address, its
/// mint and its balance.
pub open spec fn spec_encode_vault(v: CustodyVault) -> Seq<u8> {
    spec_encode_addr(v.owner@) + spec_le_bytes_u64(v.mint.key) + spec_le_bytes_u64(v.balance)
}

/// Whether a vault's owner address fits the persisted layout: the
/// namespace, the part count and each part must be addressable by a
/// four-byte length prefix.
pub open spec fn spec_vault_wf(v: CustodyVault) -> bool {
    &&& v.owner@.namespace.len() <= u32::MAX
    &&& v.owner@.key_parts.len() <= u32::MAX
    &&& forall|i: int|
        0 <= i < v.owner@.key_parts.len() ==> #[trigger] v.owner@.key_parts[i].len() <= u32::MAX
}

/// Where each field of a vault's persisted layout lies in the encoded
/// bytes.
pub proof fn lemma_vault_layout(orig: CustodyVault, bytes: Seq<u8>)
    requires
        spec_vault_wf(orig),
        bytes == spec_encode_vault(orig),
    ensures
        ({
            let nsl = orig.owner@.namespace.len() as int;
            let kp = orig.owner@.key_parts;
            let l = spec_encode_parts(kp).len() as int;
            &&& bytes.len() == 25 + nsl + l
            &&& bytes.subrange(0, 4) == spec_le_bytes_u32(orig.owner@.namespace.len() as u32)
            &&& bytes.subrange(4, 4 + nsl) == orig.owner@.namespace
            &&& bytes.subrange(4 + nsl, 8 + nsl) == spec_le_bytes_u32(kp.len() as u32)
            &&& bytes.subrange(8 + nsl, 8 + nsl + l) == spec_encode_parts(kp)
            &&& bytes[8 + nsl + l] == orig.owner@.bump
            &&& bytes.subrange(9 + nsl + l, 17 + nsl + l) == spec_le_bytes_u64(orig.mint.key)
            &&& bytes.subrange(17 + nsl + l, 25 + nsl + l) == spec_le_bytes_u64(orig.balance)
        }),
{
    let nsl = orig.owner@.namespace.len() as int;
    let kp = orig.owner@.key_parts;
    let l = spec_encode_parts(kp).len() as int;
    assert(bytes.subrange(0, 4) =~= spec_le_bytes_u32(orig.owner@.namespace.len() as u32));
    assert(bytes.subrange(4, 4 + nsl) =~= orig.owner@.namespace);
    assert(bytes.subrange(4 + nsl, 8 + nsl) =~= spec_le_bytes_u32(kp.len() as u32));
    assert(bytes.subrange(8 + nsl, 8 + nsl + l) =~= spec_encode_parts(kp));
    assert(bytes.subrange(9 + nsl + l, 17 + nsl + l) =~= spec_le_bytes_u64(orig.mint.key));
    assert(bytes.subrange(17 + nsl + l, 25 + nsl + l) =~= spec_le_bytes_u64(orig.balance));
}

/// Serialize a custody vault into its persisted layout.
pub fn encode_vault(v: &CustodyVault) -> (out: Vec<u8>)
    requires
        spec_vault_wf(*v),
    ensures
        out@ == spec_encode_vault(*v),
{
    let mut out: Vec<u8> = Vec::new();
    let mut t = le_bytes_u32(v.owner.namespace.len() as u32);
    out.append(&mut t);
    let mut ns = clone_bytes(&v.owner.namespace);
    out.append(&mut ns);
    let mut t = le_bytes_u32(v.owner.key_parts.len() as u32);
    out.append(&mut t);
    let k = v.owner.key_parts.len();
    let ghost header = out@;
    let mut i: usize = 0;
    while i < k
        invariant
            i <= k,
            k == v.owner.key_parts@.len(),
            spec_vault_wf(*v),
            out@ == header + spec_encode_parts(v.owner@.key_parts.take(i as int)),
        decreases k - i,
    {
        proof {
            crate::addr::lemma_bytes_deep_view(v.owner.key_parts@[i as int]);
            lemma_encode_parts_push(
                v.owner@.key_parts.take(i as int),
                v.owner@.key_parts[i as int],
            );
            assert(v.owner@.key_parts.take(i + 1) =~= v.owner@.key_parts.take(i as int).push(
                v.owner@.key_parts[i as int],
            ));
        }
        let part = &v.owner.key_parts[i];
        let mut t = le_bytes_u32(part.len() as u32);
        out.append(&mut t);
        let mut pb = clone_bytes(part);
        out.append(&mut pb);
        i = i + 1;
    }
    proof {
        assert(v.owner@.key_parts.take(k as int) =~= v.owner@.key_parts);
    }
    out.push(v.owner.bump);
    let mut t = le_bytes_u64(v.mint.key);
    out.append(&mut t);
    let mut t = le_bytes_u64(v.balance);
    out.append(&mut t);
    proof {
        assert(out@ =~= spec_encode_vault(*v));
    }
    out
}

/// Where a parser that has consumed the encodings of the first `i` key
/// parts of a vault's layout stands: it has parsed exactly those parts,
/// and if parts remain, the next one's length prefix lies at `off` with
/// enough bytes after it.
pub proof fn lemma_parse_position(
    orig: CustodyVault,
    bytes: Seq<u8>,
    parsed: Seq<Seq<u8>>,
    i: int,
    off: int,
)
    requires
        spec_vault_wf(orig),
        bytes == spec_encode_vault(orig),
        parsed.len() == i,
        spec_parts_wf(parsed),
        i <= orig.owner@.key_parts.len(),
        8 + orig.owner@.namespace.len() <= off <= bytes.len(),
        bytes.subrange(8 + orig.owner@.namespace.len() as int, off) == spec_encode_parts(parsed),
    ensures
        parsed == orig.owner@.key_parts.take(i),
        i < orig.owner@.key_parts.len() ==> bytes.len() - off >= 21
            + orig.owner@.key_parts[i].len(),
        i < orig.owner@.key_parts.len() ==> bytes.subrange(off, off + 4) == spec_le_bytes_u32(
            orig.owner@.key_parts[i].len() as u32,
        ),
        i == orig.owner@.key_parts.len() ==> bytes.len() - off == 17,
{
    let nsl = orig.owner@.namespace.len() as int;
    let p0 = 8 + nsl;
    let kp = orig.owner@.key_parts;
    let l = spec_encode_parts(kp).len() as int;
    lemma_vault_layout(orig, bytes);
    let tail = bytes.subrange(p0 + l, bytes.len() as int);
    assert(spec_encode_parts(parsed).is_prefix_of(spec_encode_parts(kp) + tail)) by {
        assert(spec_encode_parts(kp) + tail =~= bytes.subrange(p0, bytes.len() as int));
        assert(spec_encode_parts(parsed) =~= bytes.subrange(p0, bytes.len() as int).subrange(
            0,
            off - p0,
        ));
    }
    lemma_encode_parts_prefix(parsed, kp, tail);
    lemma_encode_parts_split(kp, i);
    assert(off - p0 == spec_encode_parts(kp.take(i)).len());
    if i < kp.len() {
        let s = kp.skip(i);
        assert(s[0] == kp[i]);
        assert(spec_encode_parts(s) == spec_le_bytes_u32(s[0].len() as u32) + s[0]
            + spec_encode_parts(s.subrange(1, s.len() as int)));
        assert(bytes.subrange(off, off + 4) =~= spec_le_bytes_u32(kp[i].len() as u32));
    } else {
        assert(kp.take(i) =~= kp);
    }
}

/// Consuming one length-prefixed part extends the consumed region by
/// that part's encoding.
pub proof fn lemma_parse_step(
    bytes: Seq<u8>,
    prev: Seq<Seq<u8>>,
    pb: Seq<u8>,
    p0: int,
    off: int,
    pl: int,
)
    requires
        0 <= p0 <= off,
        off + 4 + pl <= bytes.len(),
        0 <= pl <= u32::MAX,
        pl == spec_u32_of_le(bytes.subrange(off, off + 4)),
        pl == pb.len(),
        pb == bytes.subrange(off + 4, off + 4 + pl),
        bytes.subrange(p0, off) == spec_encode_parts(prev),
    ensures
        bytes.subrange(p0, off + 4 + pl) == spec_encode_parts(prev.push(pb)),
{
    lemma_encode_parts_push(prev, pb);
    lemma_u32_le_bytes_round_trip(bytes.subrange(off, off + 4));
    assert(spec_le_bytes_u32(pl as u32) == bytes.subrange(off, off + 4));
    assert(bytes.subrange(p0, off + 4 + pl) =~= bytes.subrange(p0, off) + bytes.subrange(
        off,
        off + 4,
    ) + bytes.subrange(off + 4, off + 4 + pl));
}

/// Whether two vaults are the same vault: the same owner address, the
/// same mint and the same balance.
pub open spec fn vaults_match(a: CustodyVault, b: CustodyVault) -> bool {
    a.owner@ == b.owner@ && a.mint == b.mint && a.balance == b.balance
}

/// Deserialize a custody vault from its persisted layout: the inverse
/// of `encode_vault`, so a round trip yields an identical vault; bytes
/// that no vault encodes are rejected with `None`.
#[verifier::rlimit(100)]
pub fn decode_vault(bytes: &Vec<u8>) -> (r: Option<CustodyVault>)
    ensures
        forall|orig: CustodyVault|
            spec_vault_wf(orig) && bytes@ == #[trigger] spec_encode_vault(orig) ==> (r matches Some(
                v,
            ) && vaults_match(v, orig)),
{
    let n = bytes.len();
    if n < 25 {
        proof {
            assert forall|orig: CustodyVault|
                spec_vault_wf(orig) && bytes@ == spec_encode_vault(orig) implies false by {
                lemma_vault_layout(orig, bytes@);
            }
        }
        return None;
    }
    let nl = read_u32_le(bytes, 0) as usize;
    if nl > n - 25 {
        proof {
            assert forall|orig: CustodyVault|
                spec_vault_wf(orig) && bytes@ == spec_encode_vault(orig) implies false by {
                lemma_vault_layout(orig, bytes@);
                lemma_le_u32_round_trip(orig.owner@.namespace.len() as u32);
            }
        }
        return None;
    }
    let ns = read_bytes(bytes, 4, nl);
    let k = read_u32_le(bytes, 4 + nl) as usize;
    let p0 = 8 + nl;
    let mut parts: Vec<Vec<u8>> = Vec::new();
    let mut off = p0;
    let mut i: usize = 0;
    while i < k
        invariant
            n == bytes@.len(),
            p0 == 8 + nl,
            nl + 25 <= n,
            p0 <= off <= n,
            i <= k,
            parts@.len() == i,
            nl == spec_u32_of_le(bytes@.subrange(0, 4)),
            k == spec_u32_of_le(bytes@.subrange(4 + nl as int, 8 + nl as int)),
            spec_parts_wf(parts.deep_view()),
            bytes@.subrange(p0 as int, off as int) == spec_encode_parts(parts.deep_view()),
        decreases k - i,
    {
        if n - off < 4 {
            proof {
                assert forall|orig: CustodyVault|
                    spec_vault_wf(orig) && bytes@ == spec_encode_vault(orig) implies false by {
                    lemma_vault_layout(orig, bytes@);
                    lemma_le_u32_round_trip(orig.owner@.namespace.len() as u32);
                    lemma_le_u32_round_trip(orig.owner@.key_parts.len() as u32);
                    lemma_parse_position(orig, bytes@, parts.deep_view(), i as int, off as int);
                }
            }
            return None;
        }
        let pl = read_u32_le(bytes, off) as usize;
        if n - off - 4 < pl {
            proof {
                assert forall|orig: CustodyVault|
                    spec_vault_wf(orig) && bytes@ == spec_encode_vault(orig) implies false by {
                    lemma_vault_layout(orig, bytes@);
                    lemma_le_u32_round_trip(orig.owner@.namespace.len() as u32);
                    lemma_le_u32_round_trip(orig.owner@.key_parts.len() as u32);
                    lemma_parse_position(orig, bytes@, parts.deep_view(), i as int, off as int);
                    lemma_le_u32_round_trip(orig.owner@.key_parts[i as int].len() as u32);
                    lemma_u32_of_le_bounds(bytes@.subrange(off as int, off as int + 4));
                }
            }
            return None;
        }
        let pb = read_bytes(bytes, off + 4, pl);
        let ghost prev = parts.deep_view();
        parts.push(pb);
        proof {
            assert forall|j: int| 0 <= j < parts.deep_view().len() implies parts.deep_view()[j]
                == prev.push(pb@)[j] by {
                crate::addr::lemma_bytes_deep_view(parts@[j]);
            }
            assert(parts.deep_view() =~= prev.push(pb@));
            lemma_u32_of_le_bounds(bytes@.subrange(off as int, off as int + 4));
            lemma_parse_step(
                bytes@,
                prev,
                pb@,
                p0 as int,
                off as int,
                pl as int,
            );
        }
        off = off + 4 + pl;
        i = i + 1;
    }
    if n - off != 17 {
        proof {
            assert forall|orig: CustodyVault|
                spec_vault_wf(orig) && bytes@ == spec_encode_vault(orig) implies false by {
                lemma_vault_layout(orig, bytes@);
                lemma_le_u32_round_trip(orig.owner@.namespace.len() as u32);
                lemma_le_u32_round_trip(orig.owner@.key_parts.len() as u32);
                lemma_parse_position(orig, bytes@, parts.deep_view(), i as int, off as int);
            }
        }
        return None;
    }
    let bump = bytes[off];
    let mint = Identity { key: read_u64_le(bytes, off + 1) };
    let balance = read_u64_le(bytes, off + 9);
    let owner = DerivedAddress { namespace: ns, key_parts: parts, bump };
    let v = CustodyVault { owner, mint, balance };
    proof {
        assert forall|orig: CustodyVault|
            spec_vault_wf(orig) && bytes@ == spec_encode_vault(orig) implies vaults_match(
            v,
            orig,
        ) by {
            lemma_vault_layout(orig, bytes@);
            lemma_le_u32_round_trip(orig.owner@.namespace.len() as u32);
            lemma_le_u32_round_trip(orig.owner@.key_parts.len() as u32);
            assert(nl == orig.owner@.namespace.len());
            assert(k == orig.owner@.key_parts.len());
            assert(ns@ =~= orig.owner@.namespace);
            lemma_parse_position(orig, bytes@, parts.deep_view(), i as int, off as int);
            let kp = orig.owner@.key_parts;
            assert(kp.take(k as int) =~= kp);
            assert(parts.deep_view() == kp);
            assert(bump == orig.owner@.bump);
            assert(bytes@.subrange(off as int + 1, off as int + 9) =~= spec_le_bytes_u64(
                orig.mint.key,
            ));
            lemma_le_u64_round_trip(orig.mint.key);
            assert(bytes@.subrange(off as int + 9, off as int + 17) =~= spec_le_bytes_u64(
                orig.balance,
            ));
            lemma_le_u64_round_trip(orig.balance);
            assert(v.owner@ =~= orig.owner@);
        }
    }
    Some(v)
}

} // verus!
