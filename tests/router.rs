use swap_router::{Address, PoolInfo, RouterError, SwapParams, SwapRouter};

fn addr(n: u128) -> Address {
    Address { contract: false, hi: 0, lo: n }
}

/// A router administered by `addr(1)` with one pool `addr(10)` trading
/// `addr(20)` (side a) against `addr(21)` (side b).
fn router_with_pool() -> SwapRouter {
    let mut router = SwapRouter::new();
    router.initialize(addr(1));
    router
        .add_pool(addr(1), addr(10), addr(20), addr(21), 1000000, 2000000, 30)
        .unwrap();
    router
}

fn params(amount_in: u128, amount_out_min: u128, deadline: u64) -> SwapParams {
    SwapParams {
        token_a: addr(20),
        token_b: addr(21),
        amount_in,
        amount_out_min,
        to: addr(99),
        deadline,
    }
}

#[test]
fn test_initialize() {
    let mut router = SwapRouter::new();
    let admin = addr(1);
    router.initialize(admin);

    let pool_addr = addr(2);
    let token_a = addr(3);
    let token_b = addr(4);
    assert_eq!(
        router.add_pool(admin, pool_addr, token_a, token_b, 1000000, 2000000, 30),
        Ok(())
    );

    let pool_info = router.get_pool(pool_addr);
    assert!(pool_info.is_some());

    let pool = pool_info.unwrap();
    assert_eq!(pool.token_a, token_a);
    assert_eq!(pool.token_b, token_b);
    assert_eq!(pool.reserve_a, 1000000);
    assert_eq!(pool.reserve_b, 2000000);
    assert_eq!(pool.fee_rate, 30);
}

#[test]
fn test_get_amount_out() {
    // Pool: 1000 in, 2000 out, 0.3% fee. The fee-adjusted input
    // 100 * 9970 / 10000 rounds down to 99, and 99 * 2000 / 1099 to 180.
    let amount_out = SwapRouter::get_amount_out(100, 1000, 2000, 30);
    assert_eq!(amount_out, 180);
}

#[test]
fn test_calculate_route() {
    let mut router = SwapRouter::new();
    let admin = addr(1);
    router.initialize(admin);

    let pool_addr = addr(2);
    let token_a = addr(3);
    let token_b = addr(4);
    router
        .add_pool(admin, pool_addr, token_a, token_b, 1000000, 2000000, 30)
        .unwrap();

    let route = router.calculate_route(token_a, token_b, 100);
    assert!(route.is_some());

    let route = route.unwrap();
    assert_eq!(route.pools.len(), 1);
    assert_eq!(route.tokens.len(), 2);
    assert_eq!(route.pools[0], pool_addr);
    assert_eq!(route.tokens[0], token_a);
    assert_eq!(route.tokens[1], token_b);
}

#[test]
fn test_swap_exact_tokens_for_tokens() {
    let router = router_with_pool();
    let now: u64 = 0;
    let swap_params = params(1000, 1800, now + 3600);

    let amount_out = router.swap_exact_tokens_for_tokens(swap_params, now).unwrap();
    assert!(amount_out >= 1800);
    assert!(amount_out < 2000);
}

#[test]
#[should_panic(expected = "SwapRouter: INSUFFICIENT_OUTPUT_AMOUNT")]
fn test_swap_slippage_protection() {
    let router = router_with_pool();
    let now: u64 = 0;
    let swap_params = params(1000, 2500, now + 3600);

    let result = router.swap_exact_tokens_for_tokens(swap_params, now);
    if result == Err(RouterError::InsufficientOutputAmount) {
        panic!("SwapRouter: INSUFFICIENT_OUTPUT_AMOUNT");
    }
}

#[test]
fn amount_out_is_zero_for_empty_inputs() {
    assert_eq!(SwapRouter::get_amount_out(0, 1000, 2000, 30), 0);
    assert_eq!(SwapRouter::get_amount_out(100, 0, 2000, 30), 0);
    assert_eq!(SwapRouter::get_amount_out(100, 1000, 0, 30), 0);
    assert_eq!(SwapRouter::get_amount_out(0, 0, 0, 0), 0);
}

#[test]
fn amount_out_exact_values() {
    // 1000 * 9970 / 10000 = 997; 997 * 2000000 / 1000997 = 1992
    assert_eq!(SwapRouter::get_amount_out(1000, 1000000, 2000000, 30), 1992);
    // no fee: 100 * 2000 / 1100 = 181
    assert_eq!(SwapRouter::get_amount_out(100, 1000, 2000, 0), 181);
    // the whole input taken as fee leaves nothing to trade
    assert_eq!(SwapRouter::get_amount_out(100, 1000, 2000, 10000), 0);
    // 1 * 9970 / 10000 rounds down to 0
    assert_eq!(SwapRouter::get_amount_out(1, 1000, 2000, 30), 0);
}

#[test]
fn amount_out_wide_product() {
    // The product amount * reserve_out exceeds 128 bits; the result does not.
    let half = u128::MAX / 2;
    assert_eq!(SwapRouter::get_amount_out(half, half, u128::MAX, 0), u128::MAX / 2);
    let big = 1u128 << 100;
    assert_eq!(SwapRouter::get_amount_out(big, 3 * big, 1u128 << 120, 0), 1u128 << 118);
}

#[test]
fn route_found_in_either_order() {
    let router = router_with_pool();
    let route = router.calculate_route(addr(21), addr(20), 5).unwrap();
    assert_eq!(route.pools, vec![addr(10)]);
    assert_eq!(route.tokens, vec![addr(21), addr(20)]);
}

#[test]
fn route_first_matching_pool_wins() {
    let mut router = router_with_pool();
    router.add_pool(addr(1), addr(11), addr(21), addr(20), 5, 5, 0).unwrap();
    router.add_pool(addr(1), addr(12), addr(30), addr(31), 5, 5, 0).unwrap();
    let route = router.calculate_route(addr(20), addr(21), 0).unwrap();
    assert_eq!(route.pools, vec![addr(10)]);
    let other = router.calculate_route(addr(31), addr(30), 0).unwrap();
    assert_eq!(other.pools, vec![addr(12)]);
}

#[test]
fn route_absent_without_direct_pool() {
    let router = router_with_pool();
    assert!(router.calculate_route(addr(20), addr(22), 100).is_none());
    assert!(router.calculate_route(addr(20), addr(20), 100).is_none());
    assert!(SwapRouter::new().calculate_route(addr(20), addr(21), 100).is_none());
}

#[test]
fn swap_pays_exact_output_at_minimum() {
    let router = router_with_pool();
    assert_eq!(router.swap_exact_tokens_for_tokens(params(1000, 1992, 10), 10), Ok(1992));
    assert_eq!(
        router.swap_exact_tokens_for_tokens(params(1000, 1993, 10), 10),
        Err(RouterError::InsufficientOutputAmount)
    );
    assert_eq!(router.swap_exact_tokens_for_tokens(params(1000, 0, 10), 10), Ok(1992));
}

#[test]
fn swap_sells_side_b() {
    let router = router_with_pool();
    let mut p = params(1000, 0, 100);
    p.token_a = addr(21);
    p.token_b = addr(20);
    // 997 * 1000000 / 2000997 = 498
    assert_eq!(router.swap_exact_tokens_for_tokens(p, 0), Ok(498));
}

#[test]
fn swap_past_deadline_is_expired() {
    let router = router_with_pool();
    assert_eq!(
        router.swap_exact_tokens_for_tokens(params(1000, 1800, 3600), 3601),
        Err(RouterError::Expired)
    );
    let empty = SwapRouter::new();
    assert_eq!(
        empty.swap_exact_tokens_for_tokens(params(1000, 1800, 3600), 3601),
        Err(RouterError::Expired)
    );
    // the deadline itself is still in time
    assert_eq!(
        router.swap_exact_tokens_for_tokens(params(1000, 1800, 3600), 3600),
        Ok(1992)
    );
}

#[test]
fn swap_without_pool_has_no_route() {
    let router = router_with_pool();
    let mut p = params(1000, 0, 100);
    p.token_b = addr(22);
    assert_eq!(router.swap_exact_tokens_for_tokens(p, 0), Err(RouterError::NoRoute));
}

#[test]
fn swap_with_denominator_past_128_bits() {
    let mut router = SwapRouter::new();
    router.initialize(addr(1));
    router.add_pool(addr(1), addr(10), addr(20), addr(21), u128::MAX, 5, 0).unwrap();
    // 1 * 5 / (u128::MAX + 1) rounds down to 0
    assert_eq!(router.swap_exact_tokens_for_tokens(params(1, 0, 0), 0), Ok(0));
    assert_eq!(
        router.swap_exact_tokens_for_tokens(params(1, 1, 0), 0),
        Err(RouterError::InsufficientOutputAmount)
    );
    let mut p = params(1, 0, 0);
    p.token_a = addr(21);
    p.token_b = addr(20);
    // 1 * u128::MAX / (5 + 1)
    assert_eq!(router.swap_exact_tokens_for_tokens(p, 0), Ok(u128::MAX / 6));
}

#[test]
fn add_pool_by_non_admin_is_unauthorized() {
    let mut router = router_with_pool();
    let before = router.get_all_pools();
    assert_eq!(
        router.add_pool(addr(2), addr(50), addr(20), addr(21), 1, 1, 0),
        Err(RouterError::Unauthorized)
    );
    assert_eq!(router.get_all_pools(), before);
    assert_eq!(router.get_pool(addr(50)), None);

    let mut fresh = SwapRouter::new();
    assert_eq!(
        fresh.add_pool(addr(1), addr(50), addr(20), addr(21), 1, 1, 0),
        Err(RouterError::Unauthorized)
    );
    assert!(fresh.get_all_pools().is_empty());
}

#[test]
fn add_pool_overwrites_in_place() {
    let mut router = router_with_pool();
    router.add_pool(addr(1), addr(11), addr(30), addr(31), 7, 8, 9).unwrap();
    router.add_pool(addr(1), addr(10), addr(40), addr(41), 1, 2, 3).unwrap();
    let all = router.get_all_pools();
    assert_eq!(all.len(), 2);
    let replaced = PoolInfo { token_a: addr(40), token_b: addr(41), reserve_a: 1, reserve_b: 2, fee_rate: 3 };
    assert_eq!(all[0], (addr(10), replaced));
    assert_eq!(all[1].0, addr(11));
    assert_eq!(router.get_pool(addr(10)), Some(replaced));
}

#[test]
fn reinitialize_replaces_admin() {
    let mut router = router_with_pool();
    router.initialize(addr(2));
    assert_eq!(
        router.add_pool(addr(1), addr(50), addr(20), addr(21), 1, 1, 0),
        Err(RouterError::Unauthorized)
    );
    assert_eq!(router.add_pool(addr(2), addr(50), addr(20), addr(21), 1, 1, 0), Ok(()));
    assert_eq!(router.get_all_pools().len(), 2);
}

#[test]
fn update_reserves_of_known_pool() {
    let mut router = router_with_pool();
    router.update_pool_reserves(addr(10), 5, 6);
    let pool = router.get_pool(addr(10)).unwrap();
    assert_eq!(
        pool,
        PoolInfo { token_a: addr(20), token_b: addr(21), reserve_a: 5, reserve_b: 6, fee_rate: 30 }
    );
    // 100 * 9970 / 10000 = 99; 99 * 6 / 104 = 5
    assert_eq!(router.swap_exact_tokens_for_tokens(params(100, 0, 0), 0), Ok(5));
}

#[test]
fn update_reserves_of_unknown_pool_does_nothing() {
    let mut router = router_with_pool();
    let before = router.get_all_pools();
    router.update_pool_reserves(addr(77), 5, 6);
    assert_eq!(router.get_all_pools(), before);
    assert_eq!(router.get_pool(addr(77)), None);
}

#[test]
fn queries_are_repeatable() {
    let router = router_with_pool();
    assert_eq!(router.get_pool(addr(10)), router.get_pool(addr(10)));
    assert_eq!(router.get_pool(addr(12)), router.get_pool(addr(12)));
    assert_eq!(router.get_all_pools(), router.get_all_pools());
    assert_eq!(router.get_all_pools().len(), 1);
}

#[test]
fn amount_out_wide_denominator() {
    let max = u128::MAX;
    assert_eq!(SwapRouter::get_amount_out(1, max, 5, 0), 0);
    // (2^128 - 1)^2 / 2^128 rounds down to 2^128 - 2
    assert_eq!(SwapRouter::get_amount_out(max, 1, max, 0), max - 1);
    assert_eq!(SwapRouter::get_amount_out(max, max, max, 0), max / 2);
    assert_eq!(
        SwapRouter::get_amount_out(max, max, max, 30),
        169885588292526613957428384381308416034
    );
    assert_eq!(
        SwapRouter::get_amount_out(1u128 << 127, max, 1u128 << 100, 30),
        421704253729577815579650682602
    );
}

#[test]
fn amount_out_zero_inputs_ignore_fee() {
    assert_eq!(SwapRouter::get_amount_out(0, 1000, 2000, 20000), 0);
    assert_eq!(SwapRouter::get_amount_out(100, 0, 2000, u32::MAX), 0);
}
