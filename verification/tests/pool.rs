use dex::constants::{LIQUIDITY_POOL_SEED, MAX_FEE_BPS};
use dex::errors::DEXError;
use dex::instructions::{initialize_liquidity_pool, InitializeLiquidityPool};
use dex::state::Pool;
use dex::utils::{_order_two_mint_accounts, get_pool_signer_seeds, key_less};

fn key(first: u8, last: u8) -> [u8; 32] {
    let mut bytes = [0u8; 32];
    bytes[0] = first;
    bytes[31] = last;
    bytes
}

fn accounts(mint_a: [u8; 32], mint_b: [u8; 32]) -> InitializeLiquidityPool {
    InitializeLiquidityPool {
        mint_a,
        mint_b,
        lp_mint: key(9, 1),
        vault_a: key(9, 2),
        vault_b: key(9, 3),
        bump: 254,
    }
}

#[test]
fn pool_is_created_with_what_it_was_given() {
    let pool = initialize_liquidity_pool(&accounts(key(1, 0), key(2, 0)), 30).unwrap();
    assert_eq!(pool.mint_a, key(1, 0));
    assert_eq!(pool.mint_b, key(2, 0));
    assert_eq!(pool.lp_mint, key(9, 1));
    assert_eq!(pool.vault_a, key(9, 2));
    assert_eq!(pool.vault_b, key(9, 3));
    assert_eq!(pool.fee_bps, 30);
    assert_eq!(pool.bump, 254);
}

#[test]
fn pool_takes_every_fee_up_to_the_whole() {
    assert_eq!(MAX_FEE_BPS, 10_000);
    assert_eq!(initialize_liquidity_pool(&accounts(key(1, 0), key(2, 0)), 0).unwrap().fee_bps, 0);
    assert_eq!(
        initialize_liquidity_pool(&accounts(key(1, 0), key(2, 0)), 10_000).unwrap().fee_bps,
        10_000
    );
}

#[test]
fn pool_with_a_fee_above_the_whole_is_refused() {
    let res = initialize_liquidity_pool(&accounts(key(1, 0), key(2, 0)), 10_001);
    assert_eq!(res.err(), Some(DEXError::InvalidBPSValue));
    let res = initialize_liquidity_pool(&accounts(key(1, 0), key(2, 0)), u64::MAX);
    assert_eq!(res.err(), Some(DEXError::InvalidBPSValue));
}

#[test]
fn pool_with_mints_out_of_order_is_refused() {
    let res = initialize_liquidity_pool(&accounts(key(2, 0), key(1, 0)), 30);
    assert_eq!(res.err(), Some(DEXError::InvalidMintOrdering));
    let res = initialize_liquidity_pool(&accounts(key(1, 0), key(1, 0)), 30);
    assert_eq!(res.err(), Some(DEXError::InvalidMintOrdering));
    let res = initialize_liquidity_pool(&accounts(key(1, 5), key(1, 4)), 30);
    assert_eq!(res.err(), Some(DEXError::InvalidMintOrdering));
}

#[test]
fn pool_fee_is_tested_before_the_order() {
    let res = initialize_liquidity_pool(&accounts(key(2, 0), key(1, 0)), 10_001);
    assert_eq!(res.err(), Some(DEXError::InvalidBPSValue));
}

#[test]
fn pool_record_size() {
    assert_eq!(Pool::MAX_SIZE, 177);
}

#[test]
fn keys_compare_byte_by_byte_from_the_front() {
    assert!(key_less(&key(1, 0), &key(2, 0)));
    assert!(!key_less(&key(2, 0), &key(1, 0)));
    assert!(!key_less(&key(1, 0), &key(1, 0)));
    // the first byte decides against the last
    assert!(key_less(&key(1, 255), &key(2, 0)));
    assert!(!key_less(&key(2, 0), &key(1, 255)));
    // equal up to the last byte
    assert!(key_less(&key(7, 3), &key(7, 4)));
    assert!(!key_less(&key(7, 4), &key(7, 3)));
    // bytes compare without a sign
    assert!(key_less(&key(127, 0), &key(128, 0)));
    assert!(key_less(&[0u8; 32], &[255u8; 32]));
}

#[test]
fn two_mints_are_put_in_order() {
    let low = key(1, 9);
    let high = key(3, 0);
    assert_eq!(_order_two_mint_accounts(&low, &high), (&low, &high));
    assert_eq!(_order_two_mint_accounts(&high, &low), (&low, &high));
    let (first, second) = _order_two_mint_accounts(&high, &low);
    assert!(initialize_liquidity_pool(&accounts(*first, *second), 30).is_ok());
}

#[test]
fn signer_seeds_are_prefix_mints_and_bump() {
    let mint_a = key(1, 9);
    let mint_b = key(3, 0);
    let bump: u8 = 253;
    let seeds = get_pool_signer_seeds(&mint_a, &mint_b, &bump);
    assert_eq!(seeds[0], LIQUIDITY_POOL_SEED);
    assert_eq!(seeds[0], "liquidity_pool".as_bytes());
    assert_eq!(seeds[1], &mint_a[..]);
    assert_eq!(seeds[2], &mint_b[..]);
    assert_eq!(seeds[3], &[253u8][..]);
}

#[test]
fn every_error_has_its_text() {
    assert_eq!(
        DEXError::InvalidBPSValue.message(),
        "invalid bps value passed (more then 100 percent)"
    );
    assert_eq!(DEXError::MathOverflow.message(), "Math overflow ;(");
    assert_eq!(
        DEXError::InvalidAmountOfLiquidation.message(),
        "Invalid amount of liquidation deposited. Not enough tokens"
    );
    assert_eq!(
        DEXError::InvalidMintOrdering.message(),
        "Invalid Mint Ordering. Swap the places of the mint"
    );
    assert_eq!(DEXError::InsufficientLPTokens.message(), "Insufficient LP tokens to withdraw");
    assert_eq!(DEXError::EmptyPool.message(), "Cannot withdraw from empty pool");
    assert_eq!(DEXError::WithdrawalTooSmall.message(), "Withdrawal amount too small");
    assert_eq!(DEXError::InvalidAmount.message(), "Invalid amount. It must be above zero");
}
