use amm_core::audit::{DEXVerifier, TradeDetails, Verifier};
use amm_core::errors::AmmError;
use amm_core::ids::{AssetId, UserId};
use amm_core::math::calculate_output_amount;
use amm_core::pool::{LiquidityPool, TokenPair};
use amm_core::registry::{Factory, PairFactory};
use amm_core::router::{AMMRouter, Router};

fn token_a() -> AssetId {
    AssetId(1)
}

fn token_b() -> AssetId {
    AssetId(2)
}

fn token_c() -> AssetId {
    AssetId(3)
}

fn alice() -> UserId {
    UserId(7)
}

fn funded_factory() -> Factory {
    let mut factory = Factory::new();
    let id = factory.create_pair(token_a(), token_b()).unwrap();
    assert_eq!(id, 0);
    let minted = factory.add_liquidity(0, 1000, 1000, alice()).unwrap();
    assert_eq!(minted, 1000);
    factory
}

#[test]
fn test_swap_concrete_output() {
    let mut factory = funded_factory();
    let out = factory.swap(0, token_a(), 100, alice()).unwrap();
    assert_eq!(out, 90);
    assert_eq!(factory.get_reserves(0).unwrap(), (1100, 910));
}

#[test]
fn test_swap_other_direction() {
    let mut factory = funded_factory();
    let out = factory.swap(0, token_b(), 100, alice()).unwrap();
    assert_eq!(out, 90);
    assert_eq!(factory.get_reserves(0).unwrap(), (910, 1100));
}

#[test]
fn test_swap_keeps_product() {
    let mut pool = LiquidityPool::new(token_a(), token_b());
    pool.add_liquidity(1000, 1000, alice()).unwrap();
    let before = (pool.reserve_a as u128) * (pool.reserve_b as u128);
    pool.swap(token_a(), 100, alice()).unwrap();
    let after = (pool.reserve_a as u128) * (pool.reserve_b as u128);
    assert!(after >= before);
    assert_eq!(after, 1100 * 910);
}

#[test]
fn test_fee_reduces_output() {
    let mut pool = LiquidityPool::new(token_a(), token_b());
    pool.add_liquidity(1000, 1000, alice()).unwrap();
    let out = pool.swap(token_a(), 1000, alice()).unwrap();
    // without the fee the proportional amount would be 1000*1000/2000 = 500
    assert_eq!(out, 499);
    assert!(out < 1000 * 1000 / (1000 + 1000));
}

#[test]
fn test_swap_invalid_token() {
    let mut factory = funded_factory();
    assert_eq!(factory.swap(0, token_c(), 100, alice()), Err(AmmError::InvalidToken));
    assert_eq!(factory.get_reserves(0).unwrap(), (1000, 1000));
}

#[test]
fn test_swap_empty_pool() {
    let mut factory = Factory::new();
    factory.create_pair(token_a(), token_b()).unwrap();
    assert_eq!(factory.swap(0, token_a(), 100, alice()), Err(AmmError::InsufficientLiquidity));
}

#[test]
fn test_swap_overflow_input_reserve() {
    let mut pool = LiquidityPool::new(token_a(), token_b());
    pool.add_liquidity(u64::MAX, u64::MAX, alice()).unwrap();
    assert_eq!(pool.lp_supply, u64::MAX);
    assert_eq!(pool.swap(token_a(), 1, alice()), Err(AmmError::ArithmeticOverflow));
}

#[test]
fn test_swap_overflow_numerator() {
    let mut pool = LiquidityPool::new(token_a(), token_b());
    pool.add_liquidity(1, u64::MAX, alice()).unwrap();
    assert_eq!(
        pool.swap(token_a(), 20_000_000_000_000_000, alice()),
        Err(AmmError::ArithmeticOverflow)
    );
}

#[test]
fn test_first_deposit_mints_sqrt() {
    let mut pool = LiquidityPool::new(token_a(), token_b());
    let minted = pool.add_liquidity(4, 9, alice()).unwrap();
    assert_eq!(minted, 6);
    assert_eq!(pool.lp_supply, 6);
    assert_eq!(pool.get_reserves(), (4, 9));
}

#[test]
fn test_add_liquidity_zero_amount() {
    let mut pool = LiquidityPool::new(token_a(), token_b());
    assert_eq!(pool.add_liquidity(0, 5, alice()), Err(AmmError::InvalidAmount));
    assert_eq!(pool.add_liquidity(5, 0, alice()), Err(AmmError::InvalidAmount));
    assert_eq!(pool.lp_supply, 0);
}

#[test]
fn test_later_deposit_mints_minimum_share() {
    let mut pool = LiquidityPool::new(token_a(), token_b());
    pool.add_liquidity(1000, 1000, alice()).unwrap();
    let minted = pool.add_liquidity(500, 300, alice()).unwrap();
    assert_eq!(minted, 300);
    assert_eq!(pool.get_reserves(), (1500, 1300));
    assert_eq!(pool.lp_supply, 1300);
}

#[test]
fn test_withdraw_bounded_by_deposit() {
    let mut pool = LiquidityPool::new(token_a(), token_b());
    pool.add_liquidity(1000, 1000, alice()).unwrap();
    let minted = pool.add_liquidity(500, 300, alice()).unwrap();
    let (out_a, out_b) = pool.remove_liquidity(minted, alice()).unwrap();
    assert!(out_a <= 500 && out_b <= 300);
    assert_eq!((out_a, out_b), (346, 300));
}

#[test]
fn test_full_withdraw_empties_pool() {
    let mut pool = LiquidityPool::new(token_a(), token_b());
    let minted = pool.add_liquidity(1000, 4000, alice()).unwrap();
    assert_eq!(minted, 2000);
    let (out_a, out_b) = pool.remove_liquidity(minted, alice()).unwrap();
    assert_eq!((out_a, out_b), (1000, 4000));
    assert_eq!(pool.lp_supply, 0);
    assert_eq!(pool.get_reserves(), (0, 0));
}

#[test]
fn test_remove_liquidity_empty_pool() {
    let mut factory = Factory::new();
    factory.create_pair(token_a(), token_b()).unwrap();
    assert_eq!(factory.remove_liquidity(0, 10, alice()), Err(AmmError::DivisionByZero));
}

#[test]
fn test_remove_liquidity_too_many_tokens() {
    let mut pool = LiquidityPool::new(token_a(), token_b());
    pool.add_liquidity(1000, 1000, alice()).unwrap();
    assert_eq!(pool.remove_liquidity(1001, alice()), Err(AmmError::InsufficientLiquidity));
    assert_eq!(pool.get_reserves(), (1000, 1000));
}

#[test]
fn test_create_pair_twice_reversed() {
    let mut factory = Factory::new();
    assert_eq!(factory.create_pair(token_a(), token_b()), Ok(0));
    assert_eq!(factory.create_pair(token_b(), token_a()), Err(AmmError::PairExists));
    assert_eq!(factory.pool_count(), 1);
}

#[test]
fn test_create_pair_same_token() {
    let mut factory = Factory::new();
    assert_eq!(factory.create_pair(token_a(), token_a()), Err(AmmError::InvalidToken));
}

#[test]
fn test_get_pair_both_orders() {
    let mut factory = Factory::new();
    factory.create_pair(token_a(), token_b()).unwrap();
    assert_eq!(factory.get_pair(token_a(), token_b()), Ok(0));
    assert_eq!(factory.get_pair(token_b(), token_a()), Ok(0));
    assert_eq!(factory.get_pair(token_a(), token_c()), Err(AmmError::PairNotFound));
}

#[test]
fn test_route_single_hop_matches_direct_swap() {
    let mut routed = funded_factory();
    let mut direct = funded_factory();
    let mut router = Router {};
    let via_router = router
        .swap_exact_tokens_for_tokens(&mut routed, 100, 0, vec![token_a(), token_b()], alice())
        .unwrap();
    let direct_out = direct.swap(0, token_a(), 100, alice()).unwrap();
    assert_eq!(via_router, direct_out);
    assert_eq!(routed.get_reserves(0).unwrap(), direct.get_reserves(0).unwrap());
}

#[test]
fn test_route_two_hops() {
    let mut factory = funded_factory();
    factory.create_pair(token_b(), token_c()).unwrap();
    factory.add_liquidity(1, 1000, 1000, alice()).unwrap();
    let mut router = Router {};
    let out = router
        .swap_exact_tokens_for_tokens(&mut factory, 100, 0, vec![token_a(), token_b(), token_c()], alice())
        .unwrap();
    assert_eq!(out, 82);
    assert_eq!(factory.get_reserves(0).unwrap(), (1100, 910));
    assert_eq!(factory.get_reserves(1).unwrap(), (1090, 918));
}

#[test]
fn test_route_slippage_leaves_pools_untouched() {
    let mut factory = funded_factory();
    factory.create_pair(token_b(), token_c()).unwrap();
    factory.add_liquidity(1, 1000, 1000, alice()).unwrap();
    let mut router = Router {};
    let result = router.swap_exact_tokens_for_tokens(
        &mut factory,
        100,
        1000,
        vec![token_a(), token_b(), token_c()],
        alice(),
    );
    assert_eq!(result, Err(AmmError::SlippageExceeded));
    assert_eq!(factory.get_reserves(0).unwrap(), (1000, 1000));
    assert_eq!(factory.get_reserves(1).unwrap(), (1000, 1000));
}

#[test]
fn test_route_missing_pair_leaves_pools_untouched() {
    let mut factory = funded_factory();
    let mut router = Router {};
    let result = router.swap_exact_tokens_for_tokens(
        &mut factory,
        100,
        0,
        vec![token_a(), token_b(), token_c()],
        alice(),
    );
    assert_eq!(result, Err(AmmError::PairNotFound));
    assert_eq!(factory.get_reserves(0).unwrap(), (1000, 1000));
}

#[test]
fn test_route_short_path() {
    let mut factory = funded_factory();
    let mut router = Router {};
    assert_eq!(
        router.swap_exact_tokens_for_tokens(&mut factory, 100, 0, vec![token_a()], alice()),
        Err(AmmError::InvalidPath)
    );
    assert_eq!(
        router.swap_exact_tokens_for_tokens(&mut factory, 100, 0, vec![], alice()),
        Err(AmmError::InvalidPath)
    );
}

#[test]
fn test_calculate_output_amount_values() {
    assert_eq!(calculate_output_amount(100, 1000, 1000), Ok(90));
    assert_eq!(calculate_output_amount(0, 1000, 1000), Ok(0));
    assert_eq!(calculate_output_amount(0, 0, 5), Err(AmmError::DivisionByZero));
    assert_eq!(
        calculate_output_amount(20_000_000_000_000_000, 1, u64::MAX),
        Err(AmmError::ArithmeticOverflow)
    );
}

#[test]
fn test_verify_liquidity_pool() {
    let verifier = Verifier {};
    let factory = funded_factory();
    assert_eq!(verifier.verify_liquidity_pool(&factory, 0), Ok(()));
    assert_eq!(verifier.verify_liquidity_pool(&factory, 9), Err(AmmError::PairNotFound));
    let empty = {
        let mut f = Factory::new();
        f.create_pair(token_a(), token_b()).unwrap();
        f
    };
    assert_eq!(verifier.verify_liquidity_pool(&empty, 0), Ok(()));
    let corrupt = Factory {
        pools: vec![LiquidityPool {
            asset_a: token_a(),
            asset_b: token_b(),
            reserve_a: 5,
            reserve_b: 0,
            lp_supply: 5,
        }],
    };
    assert_eq!(verifier.verify_liquidity_pool(&corrupt, 0), Err(AmmError::InvariantViolation));
}

#[test]
fn test_verify_trade_accepts_correct_trade() {
    let verifier = Verifier {};
    let factory = funded_factory();
    let trade = TradeDetails {
        token_in: token_a(),
        token_out: token_b(),
        amount_in: 100,
        amount_out: 90,
        user: alice(),
    };
    assert_eq!(verifier.verify_trade(&factory, 0, trade), Ok(()));
}

#[test]
fn test_verify_trade_output_mismatch() {
    let verifier = Verifier {};
    let factory = funded_factory();
    let trade = TradeDetails {
        token_in: token_a(),
        token_out: token_b(),
        amount_in: 100,
        amount_out: 89,
        user: alice(),
    };
    assert_eq!(verifier.verify_trade(&factory, 0, trade), Err(AmmError::OutputMismatch));
}

#[test]
fn test_verify_trade_product_shrank() {
    let verifier = Verifier {};
    let factory = funded_factory();
    let trade = TradeDetails {
        token_in: token_a(),
        token_out: token_b(),
        amount_in: 100,
        amount_out: 999,
        user: alice(),
    };
    assert_eq!(verifier.verify_trade(&factory, 0, trade), Err(AmmError::InvariantViolation));
}

#[test]
fn test_verify_trade_wrong_tokens() {
    let verifier = Verifier {};
    let factory = funded_factory();
    let trade = TradeDetails {
        token_in: token_c(),
        token_out: token_b(),
        amount_in: 100,
        amount_out: 90,
        user: alice(),
    };
    assert_eq!(verifier.verify_trade(&factory, 0, trade), Err(AmmError::InvalidToken));
    assert_eq!(verifier.verify_trade(&factory, 3, trade), Err(AmmError::PairNotFound));
}
