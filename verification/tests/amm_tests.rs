use stellarflow::address::Address;
use stellarflow::amm::{AmmContract, AmmError, PoolTokens};

fn addr(s: &str) -> Address {
    Address::new(s.as_bytes().to_vec())
}

fn initialized_pool() -> AmmContract {
    let mut pool = AmmContract::new();
    pool.initialize(addr("token_a"), addr("token_b"), addr("lp_token")).unwrap();
    pool
}

#[test]
fn test_initial_deposit() {
    let mut pool = AmmContract::new();
    pool.initialize(addr("token_a"), addr("token_b"), addr("lp_token")).unwrap();

    let minted = pool.deposit(1000, 2000, 1000).unwrap();
    assert_eq!(minted, 1000);
    assert_eq!(pool.get_reserves(), (1000, 2000));
    assert_eq!(pool.get_total_shares(), 1000);
}

#[test]
fn initialize_twice_is_refused() {
    let mut pool = initialized_pool();
    let r = pool.initialize(addr("x"), addr("y"), addr("z"));
    assert_eq!(r, Err(AmmError::AlreadyInitialized));
    assert_eq!(pool.get_reserves(), (0, 0));
}

#[test]
fn deposit_before_initialize_is_refused() {
    let mut pool = AmmContract::new();
    assert_eq!(pool.deposit(10, 10, 0), Err(AmmError::NotInitialized));
    assert_eq!(pool.get_total_shares(), 0);
}

#[test]
fn zero_or_negative_amounts_are_refused_first() {
    let mut pool = AmmContract::new();
    assert_eq!(pool.deposit(0, 10, 0), Err(AmmError::ZeroDeposit));
    assert_eq!(pool.deposit(10, -1, 0), Err(AmmError::ZeroDeposit));
    let mut pool = initialized_pool();
    assert_eq!(pool.deposit(-5, 10, 0), Err(AmmError::ZeroDeposit));
}

#[test]
fn first_deposit_below_minimum_is_refused() {
    let mut pool = initialized_pool();
    assert_eq!(pool.deposit(100, 200, 101), Err(AmmError::SlippageExceeded));
    assert_eq!(pool.get_reserves(), (0, 0));
}

#[test]
fn second_deposit_takes_the_pool_ratio() {
    let mut pool = initialized_pool();
    pool.deposit(1000, 2000, 1000).unwrap();
    // required_b = 10 * 2000 / 1000 = 20; optimal_a = 30 * 1000 / 2000 = 15 > 10,
    // so the pair is (10, 20) and 10 * 1000 / 1000 = 10 shares.
    assert_eq!(pool.deposit(10, 30, 0), Ok(10));
    assert_eq!(pool.get_reserves(), (1010, 2020));
    assert_eq!(pool.get_total_shares(), 1010);
}

#[test]
fn second_deposit_limited_by_token_b() {
    let mut pool = initialized_pool();
    pool.deposit(1000, 2000, 1000).unwrap();
    // required_b = 100 * 2000 / 1000 = 200 <= 201; optimal_a = 201 * 1000 / 2000 = 100.
    let plan = pool.plan_deposit(100, 201, 0).unwrap().unwrap();
    assert_eq!((plan.amount_a, plan.amount_b, plan.shares), (100, 201, 100));
    assert_eq!(plan.token_a.to_bytes(), b"token_a".to_vec());
    assert_eq!(plan.token_b.to_bytes(), b"token_b".to_vec());
    assert_eq!(plan.lp_token.to_bytes(), b"lp_token".to_vec());
    assert_eq!(pool.get_reserves(), (1000, 2000));
}

#[test]
fn deposit_below_ratio_is_refused() {
    let mut pool = initialized_pool();
    pool.deposit(1000, 2000, 1000).unwrap();
    assert_eq!(pool.deposit(100, 199, 0), Err(AmmError::InvalidDepositRatio));
    assert_eq!(pool.get_reserves(), (1000, 2000));
}

#[test]
fn later_deposit_below_minimum_is_refused() {
    let mut pool = initialized_pool();
    pool.deposit(1000, 2000, 1000).unwrap();
    assert_eq!(pool.deposit(10, 20, 11), Err(AmmError::SlippageExceeded));
    assert_eq!(pool.get_total_shares(), 1000);
}

#[test]
fn arithmetic_that_overflows_aborts() {
    let mut pool = initialized_pool();
    pool.deposit(1000, 2000, 1000).unwrap();
    assert!(pool.plan_deposit(i128::MAX, i128::MAX, 0).is_none());
    let mut full = initialized_pool();
    full.deposit(i128::MAX, 1, 0).unwrap();
    assert_eq!(full.get_total_shares(), i128::MAX);
}

#[test]
fn stored_state_is_checked() {
    let tokens = || PoolTokens { token_a: addr("a"), token_b: addr("b"), lp_token: addr("c") };
    assert!(AmmContract::from_storage(Some(tokens()), 0, 5, 0).is_none());
    assert!(AmmContract::from_storage(Some(tokens()), 5, 5, 0).is_none());
    assert!(AmmContract::from_storage(None, 5, 5, 5).is_none());
    assert!(AmmContract::from_storage(Some(tokens()), -1, 5, 5).is_none());
    let pool = AmmContract::from_storage(Some(tokens()), 7, 9, 3).unwrap();
    assert_eq!(pool.get_reserves(), (7, 9));
    assert_eq!(pool.get_total_shares(), 3);
    assert!(AmmContract::from_storage(None, 0, 0, 0).is_some());
}

#[test]
fn minted_shares_never_exceed_token_a_share() {
    let mut pool = initialized_pool();
    pool.deposit(3, 7, 0).unwrap();
    let (ra, _) = pool.get_reserves();
    let ts = pool.get_total_shares();
    let plan = pool.plan_deposit(2, 100, 0).unwrap().unwrap();
    assert!(plan.shares * ra <= plan.amount_a * ts);
    assert!(plan.amount_a <= 2 && plan.amount_b <= 100);
}
