use dex::utils::{i_sqrt, leading_zeros};

fn is_root(n: u128, r: u128) -> bool {
    let below = r.checked_mul(r).map_or(false, |square| square <= n);
    let above = (r + 1).checked_mul(r + 1).map_or(true, |square| n < square);
    below && above
}

#[test]
fn sqrt_of_small_numbers() {
    assert_eq!(i_sqrt(0), 0);
    assert_eq!(i_sqrt(1), 1);
    assert_eq!(i_sqrt(2), 1);
    assert_eq!(i_sqrt(3), 1);
    assert_eq!(i_sqrt(4), 2);
    assert_eq!(i_sqrt(8), 2);
    assert_eq!(i_sqrt(9), 3);
    assert_eq!(i_sqrt(15), 3);
    assert_eq!(i_sqrt(16), 4);
    assert_eq!(i_sqrt(40_000), 200);
}

#[test]
fn sqrt_squared_brackets_the_number() {
    for n in 0u128..5_000 {
        assert!(is_root(n, i_sqrt(n)), "n = {}", n);
    }
    let mut n: u128 = 1;
    while n < u128::MAX / 3 {
        for m in [n - 1, n, n + 1] {
            assert!(is_root(m, i_sqrt(m)), "n = {}", m);
        }
        n = n * 3 + 1;
    }
}

#[test]
fn sqrt_around_perfect_squares() {
    let roots: [u128; 6] = [2, 3, 1 << 16, (1 << 32) - 1, 1 << 32, (1 << 63) + 12_345];
    for r in roots {
        assert_eq!(i_sqrt(r * r), r);
        assert_eq!(i_sqrt(r * r - 1), r - 1);
        assert_eq!(i_sqrt(r * r + 1), r);
        assert_eq!(i_sqrt(r * r + 2 * r), r);
    }
}

#[test]
fn sqrt_of_the_largest_number() {
    assert_eq!(i_sqrt(u128::MAX), u64::MAX as u128);
    assert_eq!(i_sqrt((u64::MAX as u128) * (u64::MAX as u128)), u64::MAX as u128);
    assert_eq!(i_sqrt(1 << 127), 13_043_817_825_332_782_212);
}

#[test]
fn leading_zeros_agrees_with_std() {
    let samples: [u128; 9] =
        [0, 1, 2, 3, (1 << 63) - 1, 1 << 63, 1 << 64, (1 << 64) + 1, u128::MAX];
    for n in samples {
        assert_eq!(leading_zeros(n), n.leading_zeros());
    }
    for shift in 0..128u32 {
        assert_eq!(leading_zeros(1u128 << shift), 127 - shift);
    }
}
