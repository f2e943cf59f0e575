use custody::addr::DerivedAddress;
use custody::dao;
use custody::errors::CoreError;
use custody::escrow;
use custody::guard::InitGuard;
use custody::listing;
use custody::record::{CustodyVault, Identity};
use custody::staking;

fn vault(tag: u8, mint: Identity, balance: u64) -> CustodyVault {
    let (owner, _) = DerivedAddress::derive(vec![tag], vec![]).unwrap();
    CustodyVault { owner, mint, balance }
}

#[test]
fn escrow_initialize_reserves_terms() {
    let mut g = InitGuard::new();
    let maker = Identity { key: 4 };
    let mint = Identity { key: 9 };
    let (addr, e, v) = escrow::initialize(&mut g, maker, 77, 1000, 2500, mint).unwrap();
    assert_eq!(e.authority, maker);
    assert_eq!(e.seed, 77);
    assert_eq!(e.deposit_amount, 1000);
    assert_eq!(e.receive_amount, 2500);
    assert_eq!(v.balance, 0);
    assert_eq!(v.mint, mint);
    assert!(v.owner.same_as(&addr));
}

#[test]
fn escrow_initializes_once_per_seed() {
    let mut g = InitGuard::new();
    let maker = Identity { key: 4 };
    let mint = Identity { key: 9 };
    assert!(escrow::initialize(&mut g, maker, 77, 1, 2, mint).is_ok());
    let again = escrow::initialize(&mut g, maker, 77, 3, 4, mint);
    assert!(matches!(again, Err(CoreError::AlreadyInitialized)));
    assert!(escrow::initialize(&mut g, maker, 78, 1, 2, mint).is_ok());
}

#[test]
fn escrow_addresses_differ_by_maker_and_seed() {
    let mut g = InitGuard::new();
    let mint = Identity { key: 9 };
    let (a1, _, _) = escrow::initialize(&mut g, Identity { key: 4 }, 1, 0, 0, mint).unwrap();
    let (a2, _, _) = escrow::initialize(&mut g, Identity { key: 4 }, 2, 0, 0, mint).unwrap();
    let (a3, _, _) = escrow::initialize(&mut g, Identity { key: 5 }, 1, 0, 0, mint).unwrap();
    assert!(!a1.same_as(&a2));
    assert!(!a1.same_as(&a3));
    assert!(!a2.same_as(&a3));
}

#[test]
fn listing_requires_verified_collection() {
    let mut g = InitGuard::new();
    let maker = Identity { key: 4 };
    let mint = Identity { key: 9 };
    let market = Identity { key: 12 };
    let refused = listing::create_listing(&mut g, maker, mint, market, 500, false);
    assert!(matches!(refused, Err(CoreError::PreconditionFailed)));

    let (addr, l, v) = listing::create_listing(&mut g, maker, mint, market, 500, true).unwrap();
    assert_eq!(l.maker, maker);
    assert_eq!(l.price, 500);
    assert_eq!(l.mint, mint);
    assert_eq!(v.balance, 0);
    assert!(v.owner.same_as(&addr));

    let again = listing::create_listing(&mut g, maker, mint, market, 900, true);
    assert!(matches!(again, Err(CoreError::AlreadyInitialized)));
}

#[test]
fn stake_config_is_a_singleton() {
    let mut g = InitGuard::new();
    let admin = Identity { key: 2 };
    let reward = Identity { key: 30 };
    let (_, c) = staking::initialize(&mut g, admin, reward, 4, 86400).unwrap();
    assert_eq!(c.authority, admin);
    assert_eq!(c.reward_mint, reward);
    assert_eq!(c.points_per_stake, 4);
    assert_eq!(c.freeze_period, 86400);
    let again = staking::initialize(&mut g, admin, reward, 4, 86400);
    assert!(matches!(again, Err(CoreError::AlreadyInitialized)));
}

#[test]
fn dao_initializes_once_per_creator_and_name() {
    let mut g = InitGuard::new();
    let creator = Identity { key: 6 };
    let (_, d) = dao::init_dao(&mut g, creator, b"science".to_vec()).unwrap();
    assert_eq!(d.authority, creator);
    assert_eq!(d.name, b"science".to_vec());
    assert_eq!(d.proposal_count, 0);
    let again = dao::init_dao(&mut g, creator, b"science".to_vec());
    assert!(matches!(again, Err(CoreError::AlreadyInitialized)));
    assert!(dao::init_dao(&mut g, creator, b"arts".to_vec()).is_ok());
    assert!(dao::init_dao(&mut g, Identity { key: 7 }, b"science".to_vec()).is_ok());
}

#[test]
fn proposal_collects_fee_and_counts() {
    let mut g = InitGuard::new();
    let creator = Identity { key: 6 };
    let fee_mint = Identity { key: 40 };
    let (_, mut d) = dao::init_dao(&mut g, creator, b"science".to_vec()).unwrap();
    let mut cv = vault(1, fee_mint, 1_000_000);
    let mut tv = vault(2, fee_mint, 0);

    let (a1, p1) = dao::init_proposal(
        &mut g,
        &mut d,
        creator,
        b"fund the lab".to_vec(),
        &mut cv,
        &mut tv,
        100_000,
    )
    .unwrap();
    assert_eq!(d.proposal_count, 1);
    assert_eq!(cv.balance, 900_000);
    assert_eq!(tv.balance, 100_000);
    assert_eq!(p1.authority, creator);
    assert_eq!(p1.metadata, b"fund the lab".to_vec());
    assert_eq!(p1.yes_vote_count, 0);
    assert_eq!(p1.no_vote_count, 0);

    let (a2, _) = dao::init_proposal(
        &mut g,
        &mut d,
        creator,
        b"fund the library".to_vec(),
        &mut cv,
        &mut tv,
        100_000,
    )
    .unwrap();
    assert_eq!(d.proposal_count, 2);
    assert!(!a1.same_as(&a2));
}

#[test]
fn proposal_address_is_claimed_once() {
    let mut g = InitGuard::new();
    let creator = Identity { key: 6 };
    let fee_mint = Identity { key: 40 };
    let (_, mut d) = dao::init_dao(&mut g, creator, b"science".to_vec()).unwrap();
    let mut cv = vault(1, fee_mint, 1000);
    let mut tv = vault(2, fee_mint, 0);
    assert!(dao::init_proposal(&mut g, &mut d, creator, vec![], &mut cv, &mut tv, 10).is_ok());

    // Wind the counter back: the address of proposal zero is already
    // claimed, so re-creating it must be rejected with no state change.
    d.proposal_count = 0;
    let balances = (cv.balance, tv.balance);
    let again = dao::init_proposal(&mut g, &mut d, creator, vec![], &mut cv, &mut tv, 10);
    assert!(matches!(again, Err(CoreError::AlreadyInitialized)));
    assert_eq!(d.proposal_count, 0);
    assert_eq!((cv.balance, tv.balance), balances);
}

#[test]
fn proposal_fee_failures_change_nothing() {
    let mut g = InitGuard::new();
    let creator = Identity { key: 6 };
    let fee_mint = Identity { key: 40 };
    let (_, mut d) = dao::init_dao(&mut g, creator, b"science".to_vec()).unwrap();

    let mut poor = vault(1, fee_mint, 5);
    let mut tv = vault(2, fee_mint, 0);
    let r = dao::init_proposal(&mut g, &mut d, creator, vec![], &mut poor, &mut tv, 10);
    assert!(matches!(r, Err(CoreError::InsufficientBalance)));
    assert_eq!(d.proposal_count, 0);
    assert_eq!(poor.balance, 5);
    assert_eq!(tv.balance, 0);

    let mut wrong = vault(3, Identity { key: 41 }, 100);
    let r2 = dao::init_proposal(&mut g, &mut d, creator, vec![], &mut wrong, &mut tv, 10);
    assert!(matches!(r2, Err(CoreError::MintMismatch)));
    assert_eq!(d.proposal_count, 0);

    d.proposal_count = u32::MAX;
    let mut rich = vault(4, fee_mint, 100);
    let r3 = dao::init_proposal(&mut g, &mut d, creator, vec![], &mut rich, &mut tv, 10);
    assert!(matches!(r3, Err(CoreError::Overflow)));
    assert_eq!(d.proposal_count, u32::MAX);
    assert_eq!(rich.balance, 100);
    assert_eq!(tv.balance, 0);
}
