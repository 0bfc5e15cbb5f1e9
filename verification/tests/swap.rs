use dex::errors::DEXError;
use dex::instructions::{exchange_tokens, ExchangeTokens};

fn pool(reserve_in: u64, reserve_out: u64) -> ExchangeTokens {
    ExchangeTokens { vault_to_amount: reserve_in, vault_from_amount: reserve_out }
}

#[test]
fn exchange_pays_the_fall_of_the_other_reserve() {
    // 1000 * 2000 / 1100 = 1818, so 182 are paid
    assert_eq!(exchange_tokens(&pool(1000, 2000), 100), Ok(182));
    // 10 * 20 / 20 = 10
    assert_eq!(exchange_tokens(&pool(10, 20), 10), Ok(10));
    // 10 * 10 / 11 = 9
    assert_eq!(exchange_tokens(&pool(10, 10), 1), Ok(1));
}

#[test]
fn exchange_of_nothing_is_refused() {
    assert_eq!(exchange_tokens(&pool(1000, 2000), 0), Err(DEXError::InvalidAmount));
    assert_eq!(exchange_tokens(&pool(u64::MAX, 2000), 0), Err(DEXError::InvalidAmount));
}

#[test]
fn exchange_near_the_largest_amounts_is_refused() {
    assert_eq!(
        exchange_tokens(&pool(u64::MAX - 1, 1000), u64::MAX - 1),
        Err(DEXError::MathOverflow)
    );
    assert_eq!(exchange_tokens(&pool(u64::MAX, u64::MAX), u64::MAX), Err(DEXError::MathOverflow));
    assert_eq!(exchange_tokens(&pool(u64::MAX, 1000), 1), Err(DEXError::MathOverflow));
}

#[test]
fn exchange_at_the_edge_of_64_bits() {
    // the grown reserve is the largest number of 64 bits
    assert_eq!(exchange_tokens(&pool(u64::MAX - 1, u64::MAX), 1), Ok(1));
    assert_eq!(exchange_tokens(&pool(1, u64::MAX), u64::MAX - 1), Ok(u64::MAX - 1));
}

#[test]
fn exchange_with_an_empty_reserve() {
    assert_eq!(exchange_tokens(&pool(1000, 0), 5), Ok(0));
    assert_eq!(exchange_tokens(&pool(0, 1000), 5), Ok(1000));
}

#[test]
fn exchange_keeps_the_product_where_the_division_is_exact() {
    let cases: [(u64, u64, u64); 4] = [(10, 20, 10), (1000, 2000, 1000), (6, 35, 1), (3, 8, 1)];
    for (reserve_in, reserve_out, amount_in) in cases {
        let product = reserve_in as u128 * reserve_out as u128;
        let grown = reserve_in as u128 + amount_in as u128;
        assert_eq!(product % grown, 0);
        let paid = exchange_tokens(&pool(reserve_in, reserve_out), amount_in).unwrap();
        assert!(grown * (reserve_out - paid) as u128 >= product);
    }
    assert_eq!(exchange_tokens(&pool(10, 20), 10), Ok(10));
    assert_eq!((10u128 + 10) * (20 - 10), 10 * 20);
}

#[test]
fn exchange_loses_less_than_one_grown_reserve_of_the_product() {
    for reserve_in in [1u64, 7, 10, 1_000, 65_537] {
        for reserve_out in [1u64, 10, 999, 1_000_000] {
            for amount_in in [1u64, 2, 3, 500, 1_000_003] {
                let paid = exchange_tokens(&pool(reserve_in, reserve_out), amount_in).unwrap();
                assert!(paid <= reserve_out);
                let product = reserve_in as u128 * reserve_out as u128;
                let grown = reserve_in as u128 + amount_in as u128;
                let after = grown * (reserve_out - paid) as u128;
                assert!(after <= product && product < after + grown);
            }
        }
    }
}
