use custody::addr::DerivedAddress;
use custody::counter::{counter_add_u32, counter_add_u64, counter_sub_u64};
use custody::engine::{authorize, move_value};
use custody::errors::CoreError;
use custody::guard::InitGuard;
use custody::pool;
use custody::record::{CustodyVault, Identity, PoolState, StateRecord};

fn vault(tag: u8, mint: Identity, balance: u64) -> CustodyVault {
    let (owner, _) = DerivedAddress::derive(vec![tag], vec![]).unwrap();
    CustodyVault { owner, mint, balance }
}

#[test]
fn guard_claims_once() {
    let mut g = InitGuard::new();
    let (a, _) = DerivedAddress::derive(vec![1], vec![vec![2]]).unwrap();
    assert!(!g.is_initialized(&a));
    assert_eq!(g.claim(a.clone()), Ok(()));
    assert!(g.is_initialized(&a));
    assert_eq!(g.claim(a.clone()), Err(CoreError::AlreadyInitialized));
    assert!(g.is_initialized(&a));
}

#[test]
fn pool_deposit_scenario() {
    let mut g = InitGuard::new();
    let auth = Identity { key: 1 };
    let mint = Identity { key: 9 };
    let (_, mut p, mut pv) = pool::initialize(&mut g, auth, mint).unwrap();
    assert_eq!(p.total_deposits, 0);
    assert_eq!(pv.balance, 0);

    let a = Identity { key: 10 };
    let mut av = vault(100, mint, 100);
    assert_eq!(pool::deposit(&mut p, &mut pv, a, &mut av, 100), Ok(()));
    assert_eq!(p.total_deposits, 100);
    assert_eq!(pv.balance, 100);
    assert_eq!(av.balance, 0);

    let b = Identity { key: 11 };
    let mut bv = vault(101, mint, 50);
    assert_eq!(pool::deposit(&mut p, &mut pv, b, &mut bv, 50), Ok(()));
    assert_eq!(p.total_deposits, 150);
    assert_eq!(pv.balance, 150);

    let mut cv = vault(102, mint, u64::MAX);
    let r = pool::deposit(&mut p, &mut pv, a, &mut cv, u64::MAX - 100);
    assert_eq!(r, Err(CoreError::Overflow));
    assert_eq!(p.total_deposits, 150);
    assert_eq!(pv.balance, 150);
    assert_eq!(cv.balance, u64::MAX);
}

#[test]
fn pool_initializes_once() {
    let mut g = InitGuard::new();
    let auth = Identity { key: 1 };
    let mint = Identity { key: 9 };
    assert!(pool::initialize(&mut g, auth, mint).is_ok());
    let second = pool::initialize(&mut g, auth, mint);
    assert!(matches!(second, Err(CoreError::AlreadyInitialized)));
}

#[test]
fn pool_deposit_mint_mismatch() {
    let mut g = InitGuard::new();
    let mint = Identity { key: 9 };
    let other_mint = Identity { key: 8 };
    let (_, mut p, mut pv) = pool::initialize(&mut g, Identity { key: 1 }, mint).unwrap();
    let mut uv = vault(100, other_mint, 40);
    let r = pool::deposit(&mut p, &mut pv, Identity { key: 2 }, &mut uv, 10);
    assert_eq!(r, Err(CoreError::MintMismatch));
    assert_eq!(p.total_deposits, 0);
    assert_eq!(pv.balance, 0);
    assert_eq!(uv.balance, 40);
}

#[test]
fn pool_deposit_insufficient_balance() {
    let mut g = InitGuard::new();
    let mint = Identity { key: 9 };
    let (_, mut p, mut pv) = pool::initialize(&mut g, Identity { key: 1 }, mint).unwrap();
    let mut uv = vault(100, mint, 5);
    let r = pool::deposit(&mut p, &mut pv, Identity { key: 2 }, &mut uv, 10);
    assert_eq!(r, Err(CoreError::InsufficientBalance));
    assert_eq!(uv.balance, 5);
    assert_eq!(pv.balance, 0);
}

#[test]
fn transfer_moves_value_atomically() {
    let mint = Identity { key: 3 };
    let alice = Identity { key: 20 };
    let mut src = vault(1, mint, 70);
    let mut dst = vault(2, mint, 5);
    assert_eq!(move_value(&mut src, &mut dst, 30, alice, alice), Ok(()));
    assert_eq!(src.balance, 40);
    assert_eq!(dst.balance, 35);
}

#[test]
fn transfer_requires_authority() {
    let mint = Identity { key: 3 };
    let alice = Identity { key: 20 };
    let mallory = Identity { key: 21 };
    let mut src = vault(1, mint, 70);
    let mut dst = vault(2, mint, 5);
    let r = move_value(&mut src, &mut dst, 30, mallory, alice);
    assert_eq!(r, Err(CoreError::Unauthorized));
    assert_eq!(src.balance, 70);
    assert_eq!(dst.balance, 5);
}

#[test]
fn transfer_rejects_mint_mismatch() {
    let alice = Identity { key: 20 };
    let mut src = vault(1, Identity { key: 3 }, 70);
    let mut dst = vault(2, Identity { key: 4 }, 5);
    let r = move_value(&mut src, &mut dst, 30, alice, alice);
    assert_eq!(r, Err(CoreError::MintMismatch));
    assert_eq!(src.balance, 70);
    assert_eq!(dst.balance, 5);
}

#[test]
fn transfer_rejects_insufficient_balance() {
    let mint = Identity { key: 3 };
    let alice = Identity { key: 20 };
    let mut src = vault(1, mint, 10);
    let mut dst = vault(2, mint, 5);
    let r = move_value(&mut src, &mut dst, 30, alice, alice);
    assert_eq!(r, Err(CoreError::InsufficientBalance));
    assert_eq!(src.balance, 10);
    assert_eq!(dst.balance, 5);
}

#[test]
fn transfer_rejects_destination_overflow() {
    let mint = Identity { key: 3 };
    let alice = Identity { key: 20 };
    let mut src = vault(1, mint, 10);
    let mut dst = vault(2, mint, u64::MAX - 4);
    let r = move_value(&mut src, &mut dst, 5, alice, alice);
    assert_eq!(r, Err(CoreError::Overflow));
    assert_eq!(src.balance, 10);
    assert_eq!(dst.balance, u64::MAX - 4);
}

#[test]
fn transfers_conserve_total() {
    let mint = Identity { key: 3 };
    let u = Identity { key: 20 };
    let mut v1 = vault(1, mint, 100);
    let mut v2 = vault(2, mint, 200);
    let mut v3 = vault(3, mint, 300);
    let total = v1.balance + v2.balance + v3.balance;
    assert_eq!(move_value(&mut v1, &mut v2, 60, u, u), Ok(()));
    assert_eq!(v1.balance + v2.balance + v3.balance, total);
    assert_eq!(move_value(&mut v2, &mut v3, 150, u, u), Ok(()));
    assert_eq!(v1.balance + v2.balance + v3.balance, total);
    assert_eq!(move_value(&mut v3, &mut v1, 450, u, u), Ok(()));
    assert_eq!(v1.balance + v2.balance + v3.balance, total);
    assert_eq!((v1.balance, v2.balance, v3.balance), (490, 110, 0));
}

#[test]
fn authority_check_gates_by_identity() {
    let rec = StateRecord::Pool(PoolState {
        authority: Identity { key: 5 },
        bump: 255,
        total_deposits: 0,
    });
    assert_eq!(authorize(&rec, Identity { key: 5 }), Ok(()));
    assert_eq!(authorize(&rec, Identity { key: 6 }), Err(CoreError::Unauthorized));
}

#[test]
fn counters_check_their_bounds() {
    assert_eq!(counter_add_u64(10, 5), Ok(15));
    assert_eq!(counter_add_u64(u64::MAX - 1, 2), Err(CoreError::Overflow));
    assert_eq!(counter_add_u64(u64::MAX, 0), Ok(u64::MAX));
    assert_eq!(counter_sub_u64(10, 4), Ok(6));
    assert_eq!(counter_sub_u64(3, 4), Err(CoreError::Underflow));
    assert_eq!(counter_add_u32(7, 1), Ok(8));
    assert_eq!(counter_add_u32(u32::MAX, 1), Err(CoreError::Overflow));
}
