use custody::addr::DerivedAddress;
use custody::codec::{decode_record, decode_vault, encode_record, encode_vault};
use custody::record::{
    CustodyVault, DaoState, EscrowState, Identity, ListingState, PoolState, ProposalState,
    StakeConfigState, StateRecord,
};

#[test]
fn pool_record_round_trips() {
    let rec = StateRecord::Pool(PoolState {
        authority: Identity { key: 7 },
        bump: 255,
        total_deposits: 123_456_789,
    });
    let bytes = encode_record(&rec);
    assert_eq!(bytes[0], 1);
    assert_eq!(bytes.len(), 18);
    match decode_record(&bytes) {
        Some(StateRecord::Pool(p)) => {
            assert_eq!(p.authority, Identity { key: 7 });
            assert_eq!(p.bump, 255);
            assert_eq!(p.total_deposits, 123_456_789);
        },
        _ => panic!("pool record did not round trip"),
    }
}

#[test]
fn escrow_record_round_trips() {
    let rec = StateRecord::Escrow(EscrowState {
        authority: Identity { key: u64::MAX },
        bump: 254,
        seed: 77,
        deposit_amount: 1000,
        receive_amount: 2500,
    });
    let bytes = encode_record(&rec);
    assert_eq!(bytes[0], 2);
    assert_eq!(bytes.len(), 34);
    match decode_record(&bytes) {
        Some(StateRecord::Escrow(e)) => {
            assert_eq!(e.authority, Identity { key: u64::MAX });
            assert_eq!(e.bump, 254);
            assert_eq!(e.seed, 77);
            assert_eq!(e.deposit_amount, 1000);
            assert_eq!(e.receive_amount, 2500);
        },
        _ => panic!("escrow record did not round trip"),
    }
}

#[test]
fn listing_record_round_trips() {
    let rec = StateRecord::Listing(ListingState {
        maker: Identity { key: 3 },
        bump: 250,
        price: 500,
        mint: Identity { key: 9 },
    });
    let bytes = encode_record(&rec);
    assert_eq!(bytes[0], 3);
    match decode_record(&bytes) {
        Some(StateRecord::Listing(l)) => {
            assert_eq!(l.maker, Identity { key: 3 });
            assert_eq!(l.bump, 250);
            assert_eq!(l.price, 500);
            assert_eq!(l.mint, Identity { key: 9 });
        },
        _ => panic!("listing record did not round trip"),
    }
}

#[test]
fn stake_config_record_round_trips() {
    let rec = StateRecord::StakeConfig(StakeConfigState {
        authority: Identity { key: 2 },
        bump: 253,
        reward_mint: Identity { key: 30 },
        points_per_stake: 4,
        freeze_period: 86400,
    });
    let bytes = encode_record(&rec);
    assert_eq!(bytes[0], 4);
    match decode_record(&bytes) {
        Some(StateRecord::StakeConfig(c)) => {
            assert_eq!(c.authority, Identity { key: 2 });
            assert_eq!(c.reward_mint, Identity { key: 30 });
            assert_eq!(c.points_per_stake, 4);
            assert_eq!(c.freeze_period, 86400);
        },
        _ => panic!("stake configuration did not round trip"),
    }
}

#[test]
fn dao_record_round_trips() {
    let rec = StateRecord::Dao(DaoState {
        authority: Identity { key: 6 },
        bump: 252,
        name: b"science".to_vec(),
        proposal_count: 41,
    });
    let bytes = encode_record(&rec);
    assert_eq!(bytes[0], 5);
    match decode_record(&bytes) {
        Some(StateRecord::Dao(d)) => {
            assert_eq!(d.authority, Identity { key: 6 });
            assert_eq!(d.bump, 252);
            assert_eq!(d.name, b"science".to_vec());
            assert_eq!(d.proposal_count, 41);
        },
        _ => panic!("dao record did not round trip"),
    }
}

#[test]
fn proposal_record_round_trips() {
    let rec = StateRecord::Proposal(ProposalState {
        authority: Identity { key: 6 },
        bump: 251,
        metadata: Vec::new(),
        yes_vote_count: 12,
        no_vote_count: 5,
    });
    let bytes = encode_record(&rec);
    assert_eq!(bytes[0], 6);
    assert_eq!(bytes.len(), 22);
    match decode_record(&bytes) {
        Some(StateRecord::Proposal(p)) => {
            assert_eq!(p.authority, Identity { key: 6 });
            assert_eq!(p.metadata, Vec::<u8>::new());
            assert_eq!(p.yes_vote_count, 12);
            assert_eq!(p.no_vote_count, 5);
        },
        _ => panic!("proposal record did not round trip"),
    }
}

#[test]
fn vault_round_trips() {
    let (owner, _) =
        DerivedAddress::derive(b"escrow".to_vec(), vec![vec![4, 0, 0], vec![], vec![77]]).unwrap();
    let vault = CustodyVault { owner, mint: Identity { key: 9 }, balance: 123_456 };
    let bytes = encode_vault(&vault);
    match decode_vault(&bytes) {
        Some(v) => {
            assert!(v.owner.same_as(&vault.owner));
            assert_eq!(v.mint, Identity { key: 9 });
            assert_eq!(v.balance, 123_456);
        },
        None => panic!("vault did not round trip"),
    }
}

#[test]
fn empty_key_vault_round_trips() {
    let (owner, _) = DerivedAddress::derive(Vec::new(), Vec::new()).unwrap();
    let vault = CustodyVault { owner, mint: Identity { key: 0 }, balance: u64::MAX };
    let bytes = encode_vault(&vault);
    assert_eq!(bytes.len(), 25);
    match decode_vault(&bytes) {
        Some(v) => {
            assert!(v.owner.same_as(&vault.owner));
            assert_eq!(v.balance, u64::MAX);
        },
        None => panic!("vault did not round trip"),
    }
}

#[test]
fn malformed_vault_bytes_are_rejected() {
    assert!(decode_vault(&Vec::new()).is_none());
    assert!(decode_vault(&vec![0; 24]).is_none());
    let (owner, _) = DerivedAddress::derive(b"pool".to_vec(), Vec::new()).unwrap();
    let vault = CustodyVault { owner, mint: Identity { key: 1 }, balance: 5 };
    let mut bytes = encode_vault(&vault);
    bytes.pop();
    assert!(decode_vault(&bytes).is_none());
}

#[test]
fn malformed_bytes_are_rejected() {
    assert!(decode_record(&Vec::new()).is_none());
    assert!(decode_record(&vec![0; 18]).is_none());
    assert!(decode_record(&vec![7; 18]).is_none());
    // A pool record truncated by one byte.
    let rec = StateRecord::Pool(PoolState {
        authority: Identity { key: 7 },
        bump: 255,
        total_deposits: 1,
    });
    let mut bytes = encode_record(&rec);
    bytes.pop();
    assert!(decode_record(&bytes).is_none());
}
