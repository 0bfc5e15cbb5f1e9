use vstd::prelude::*;
use vstd::arithmetic::power2::{
    lemma2_to64, lemma2_to64_rest, lemma_pow2_adds, lemma_pow2_pos, lemma_pow2_strictly_increases,
    pow2,
};
use vstd::bits::lemma_u64_shr_is_div;
use vstd::std_specs::bits::{axiom_u64_leading_zeros, u64_leading_zeros};

use anchor_lang::prelude::Pubkey;
use crate::constants::LIQUIDITY_POOL_SEED;
use crate::errors::DEXError;

verus! {

/// The order of keys: byte by byte from the front, the first difference
/// decides, and a proper prefix comes before what it is a prefix of.
pub open spec fn key_precedes(a: Seq<u8>, b: Seq<u8>) -> bool
    decreases a.len(),
{
    if a.len() == 0 || b.len() == 0 {
        a.len() < b.len()
    } else if a[0] != b[0] {
        a[0] < b[0]
    } else {
        key_precedes(a.skip(1), b.skip(1))
    }
}

/// No key comes before itself.
pub proof fn lemma_key_order_irreflexive(a: Seq<u8>)
    ensures
        !key_precedes(a, a),
    decreases a.len(),
{
    if a.len() > 0 {
        lemma_key_order_irreflexive(a.skip(1));
    }
}

/// Of two different keys of one length exactly one comes before the other, so
/// an unordered pair of mints has one canonical order.
pub proof fn lemma_key_order_total(a: Seq<u8>, b: Seq<u8>)
    requires
        a.len() == b.len(),
        a != b,
    ensures
        key_precedes(a, b) != key_precedes(b, a),
    decreases a.len(),
{
    if a.len() == 0 {
        assert(a =~= b);
    } else if a[0] == b[0] {
        if a.skip(1) == b.skip(1) {
            assert forall|i: int| 0 <= i < a.len() implies a[i] == b[i] by {
                if i > 0 {
                    assert(a[i] == a.skip(1)[i - 1]);
                    assert(b[i] == b.skip(1)[i - 1]);
                }
            }
            assert(a =~= b);
        }
        lemma_key_order_total(a.skip(1), b.skip(1));
    }
}

/// Compares two keys as `Pubkey` orders them. `Pubkey` derives its order from
/// the array of 32 bytes that it wraps, and arrays compare lexicographically:
/// the result is `key_precedes` of the two byte strings.
#[verifier::external_body]
pub(crate) fn key_lt(a: &[u8; 32], b: &[u8; 32]) -> (lt: bool)
    ensures
        lt == key_precedes(a@, b@),
{
    Pubkey::new_from_array(*a) < Pubkey::new_from_array(*b)
}

/// Whether key `a` comes before key `b`.
pub fn key_less(a: &[u8; 32], b: &[u8; 32]) -> (lt: bool)
    ensures
        lt == key_precedes(a@, b@),
        lt ==> a@ != b@,
{
    proof {
        lemma_key_order_irreflexive(a@);
    }
    key_lt(a, b)
}

/// Puts two mints into the canonical order of a pool: the one with the lower
/// key first.
pub fn _order_two_mint_accounts<'a>(mint_a: &'a [u8; 32], mint_b: &'a [u8; 32]) -> (ordered: (
    &'a [u8; 32],
    &'a [u8; 32],
))
    ensures
        key_precedes(mint_a@, mint_b@) ==> ordered.0@ == mint_a@ && ordered.1@ == mint_b@,
        !key_precedes(mint_a@, mint_b@) ==> ordered.0@ == mint_b@ && ordered.1@ == mint_a@,
        mint_a@ != mint_b@ ==> key_precedes(ordered.0@, ordered.1@),
{
    proof {
        if mint_a@ != mint_b@ {
            lemma_key_order_total(mint_a@, mint_b@);
        }
    }
    if key_lt(mint_a, mint_b) {
        (mint_a, mint_b)
    } else {
        (mint_b, mint_a)
    }
}

/// `core::slice::from_ref` turns a reference to one value into a slice of
/// length one that holds that value.
pub assume_specification<T>[ core::slice::from_ref::<T> ](s: &T) -> (r: &[T])
    ensures
        r@ == seq![*s],
;

/// The seeds from which the address of a pool's signing authority is derived:
/// the fixed prefix, the key of the first mint, the key of the second, and the
/// bump.
pub fn get_pool_signer_seeds<'a>(
    mint_a_key: &'a [u8; 32],
    mint_b_key: &'a [u8; 32],
    bump: &'a u8,
) -> (seeds: [&'a [u8]; 4])
    ensures
        seeds[0]@ == LIQUIDITY_POOL_SEED@,
        seeds[1]@ == mint_a_key@,
        seeds[2]@ == mint_b_key@,
        seeds[3]@ == seq![*bump],
{
    let seed: &'static [u8; 14] = &LIQUIDITY_POOL_SEED;
    [seed.as_slice(), mint_a_key.as_slice(), mint_b_key.as_slice(), std::slice::from_ref(bump)]
}

/// `r` is the integer square root of `n`: the largest number whose square
/// does not exceed `n`.
pub open spec fn is_sqrt_floor(n: nat, r: nat) -> bool {
    r * r <= n < (r + 1) * (r + 1)
}

/// The integer square root of `n`.
pub open spec fn sqrt_floor(n: nat) -> nat {
    choose|r: nat| is_sqrt_floor(n, r)
}

/// Squaring is monotone on the naturals.
pub proof fn lemma_square_monotone(a: nat, b: nat)
    requires
        a <= b,
    ensures
        a * a <= b * b,
{
    assert(a * a <= b * b) by (nonlinear_arith)
        requires
            a <= b,
    ;
}

/// At most one number is the integer square root of `n`.
pub proof fn lemma_sqrt_floor_unique(n: nat, r1: nat, r2: nat)
    requires
        is_sqrt_floor(n, r1),
        is_sqrt_floor(n, r2),
    ensures
        r1 == r2,
{
    if r1 < r2 {
        lemma_square_monotone(r1 + 1, r2);
    } else if r2 < r1 {
        lemma_square_monotone(r2 + 1, r1);
    }
}

/// Every number has an integer square root.
pub proof fn lemma_sqrt_floor_exists(n: nat)
    ensures
        is_sqrt_floor(n, sqrt_floor(n)),
    decreases n,
{
    if n == 0 {
        assert(is_sqrt_floor(0, 0)) by (nonlinear_arith);
    } else {
        lemma_sqrt_floor_exists((n - 1) as nat);
        let r = sqrt_floor((n - 1) as nat);
        if (r + 1) * (r + 1) <= n {
            assert(n < (r + 2) * (r + 2)) by (nonlinear_arith)
                requires
                    n - 1 < (r + 1) * (r + 1),
            ;
            assert(is_sqrt_floor(n, r + 1));
        } else {
            assert(r * r <= n) by (nonlinear_arith)
                requires
                    r * r <= n - 1,
            ;
            assert(is_sqrt_floor(n, r));
        }
    }
}

/// A number whose square is at most `n`, while the square of its successor is
/// above `n`, is the integer square root of `n`.
pub proof fn lemma_sqrt_floor_is(n: nat, r: nat)
    requires
        is_sqrt_floor(n, r),
    ensures
        sqrt_floor(n) == r,
{
    lemma_sqrt_floor_unique(n, r, sqrt_floor(n));
}

/// One Newton step from any positive `x` lands on or above the integer square
/// root: the square of its successor exceeds `n`.
proof fn lemma_newton_step_stays_above(n: int, x: int, y: int)
    requires
        0 <= n,
        0 < x,
        y == (x + n / x) / 2,
    ensures
        n < (y + 1) * (y + 1),
{
    let q = n / x;
    let r = n % x;
    assert(n == q * x + r && 0 <= r < x) by (nonlinear_arith)
        requires
            0 < x,
            q == n / x,
            r == n % x,
    ;
    assert(2 * (y + 1) >= x + q + 1);
    assert(n < (y + 1) * (y + 1)) by (nonlinear_arith)
        requires
            n == q * x + r,
            0 <= r < x,
            2 * (y + 1) >= x + q + 1,
            0 <= q,
            0 < x,
    {
        assert((x - q - 1) * (x - q - 1) >= 0);
        assert((x + q + 1) * (x + q + 1) == (x - q - 1) * (x - q - 1) + 4 * x * q + 4 * x);
        assert(4 * ((y + 1) * (y + 1)) >= (x + q + 1) * (x + q + 1));
    }
    ;
}

/// If `x / d` is zero then `x` is below `d`; if it is positive then `x` is at
/// least `d`.
proof fn lemma_quotient_bounds(x: nat, d: nat)
    requires
        0 < d,
    ensures
        x / d == 0 ==> x < d,
        x / d >= 1 ==> x >= d,
{
    assert(x / d == 0 ==> x < d) by (nonlinear_arith)
        requires
            0 < d,
    ;
    assert(x / d >= 1 ==> x >= d) by (nonlinear_arith)
        requires
            0 < d,
    ;
}

/// Shifting one to the left by `s` gives the `s`-th power of two.
proof fn lemma_one_shl_is_pow2(s: u32)
    requires
        s < 128,
    ensures
        (1u128 << s) == pow2(s as nat),
    decreases s,
{
    if s == 0 {
        assert((1u128 << 0u32) == 1) by (bit_vector);
        lemma2_to64();
    } else {
        let t = (s - 1) as u32;
        lemma_one_shl_is_pow2(t);
        assert((1u128 << s) == 2 * (1u128 << t)) by (bit_vector)
            requires
                0 < s < 128,
                t == s - 1,
        ;
        lemma_pow2_adds(1, t as nat);
        lemma2_to64();
    }
}

/// The number of leading zero bits of a 64-bit word tells between which two
/// powers of two the word lies.
proof fn lemma_u64_leading_zeros_bounds(w: u64)
    ensures
        0 <= u64_leading_zeros(w) <= 64,
        w == 0 <==> u64_leading_zeros(w) == 64,
        w < pow2((64 - u64_leading_zeros(w)) as nat),
        w != 0 ==> pow2((63 - u64_leading_zeros(w)) as nat) <= w,
{
    axiom_u64_leading_zeros(w);
    let lz = u64_leading_zeros(w) as u64;
    if w == 0 {
        lemma_pow2_pos(0);
    } else {
        let hi: u64 = (63 - lz) as u64;
        assert(w >> hi >= 1) by (bit_vector)
            requires
                (w >> hi) & 1u64 != 0u64,
        ;
        lemma_u64_shr_is_div(w, hi);
        lemma_pow2_pos(hi as nat);
        lemma_quotient_bounds(w as nat, pow2(hi as nat));
        if lz == 0 {
            lemma2_to64_rest();
        } else {
            let up: u64 = (64 - lz) as u64;
            lemma_u64_shr_is_div(w, up);
            lemma_pow2_pos(up as nat);
            lemma_quotient_bounds(w as nat, pow2(up as nat));
        }
    }
}

/// The number of leading zero bits in the binary representation of `n`: 128
/// for zero, and else the count for which `n` lies between the two powers of
/// two that follow.
pub fn leading_zeros(n: u128) -> (r: u32)
    ensures
        r <= 128,
        n == 0 <==> r == 128,
        n < pow2((128 - r) as nat),
        n != 0 ==> pow2((127 - r) as nat) <= n,
{
    let high: u128 = n >> 64;
    assert(high <= 0xffff_ffff_ffff_ffffu128) by (bit_vector)
        requires
            high == n >> 64,
    ;
    let low: u128 = n & 0xffff_ffff_ffff_ffffu128;
    assert(low <= 0xffff_ffff_ffff_ffffu128 && n == high * 0x1_0000_0000_0000_0000u128 + low) by (bit_vector)
        requires
            high == n >> 64,
            low == n & 0xffff_ffff_ffff_ffffu128,
    ;
    assert(low as u64 == n as u64) by (bit_vector)
        requires
            low == n & 0xffff_ffff_ffff_ffffu128,
    ;
    let h: u64 = high as u64;
    let l: u64 = low as u64;
    proof {
        lemma_u64_leading_zeros_bounds(h);
        lemma_u64_leading_zeros_bounds(l);
        lemma2_to64_rest();
    }
    if h != 0 {
        let r: u32 = h.leading_zeros();
        proof {
            lemma_pow2_adds((64 - r) as nat, 64);
            lemma_pow2_adds((63 - r) as nat, 64);
            let top = pow2((64 - r) as nat);
            let bot = pow2((63 - r) as nat);
            assert(n < top * pow2(64)) by (nonlinear_arith)
                requires
                    n == h * 0x1_0000_0000_0000_0000 + l,
                    h < top,
                    l < 0x1_0000_0000_0000_0000,
                    pow2(64) == 0x1_0000_0000_0000_0000,
            ;
            assert(bot * pow2(64) <= n) by (nonlinear_arith)
                requires
                    n == h * 0x1_0000_0000_0000_0000 + l,
                    bot <= h,
                    pow2(64) == 0x1_0000_0000_0000_0000,
            ;
        }
        r
    } else {
        let r: u32 = l.leading_zeros();
        64 + r
    }
}

/// Floor of the square root of `n`, by Newton's method on integers.
///
/// The first guess is two to the power of half the bit length of `n`, rounded
/// up, which is above the root. Each step replaces `x` by the mean of `x` and
/// `n / x`; the first `x` that a step does not lower is the root.
pub fn i_sqrt(n: u128) -> (r: u128)
    ensures
        is_sqrt_floor(n as nat, r as nat),
        r == sqrt_floor(n as nat),
        n < 2 ==> r == n,
{
    if n < 2 {
        proof {
            assert(n * n <= n < (n + 1) * (n + 1)) by (nonlinear_arith)
                requires
                    0 <= n < 2,
            ;
            lemma_sqrt_floor_is(n as nat, n as nat);
        }
        return n;
    }
    let zeros: u32 = leading_zeros(n);
    let shift: u32 = (128 - zeros + 1) / 2;
    let mut x: u128 = 1u128 << shift;
    proof {
        lemma_one_shl_is_pow2(shift);
        lemma_pow2_adds(shift as nat, shift as nat);
        if 128 - zeros < 2 * shift {
            lemma_pow2_strictly_increases((128 - zeros) as nat, (2 * shift) as nat);
        }
        if shift < 64 {
            lemma_pow2_strictly_increases(shift as nat, 64);
        }
        lemma_pow2_pos(shift as nat);
        assert(n < (x + 1) * (x + 1)) by (nonlinear_arith)
            requires
                n < x * x,
        ;
    }
    loop
        invariant
            2 <= n,
            0 < x <= pow2(64),
            n < (x + 1) * (x + 1),
        decreases x,
    {
        proof {
            lemma2_to64_rest();
            assert(n / x <= x + 2) by (nonlinear_arith)
                requires
                    0 < x,
                    n < (x + 1) * (x + 1),
            ;
        }
        let sum: u128 = x + n / x;
        let y: u128 = sum >> 1;
        proof {
            assert(sum >> 1 == sum / 2) by (bit_vector);
            lemma_newton_step_stays_above(n as int, x as int, y as int);
            assert(0 < y) by (nonlinear_arith)
                requires
                    2 <= n,
                    0 <= y,
                    n < (y + 1) * (y + 1),
            ;
        }
        if y >= x {
            proof {
                assert(x * x <= n) by (nonlinear_arith)
                    requires
                        0 < x,
                        x <= n / x,
                ;
                lemma_sqrt_floor_is(n as nat, x as nat);
            }
            return x;
        }
        x = y;
    }
}

/// `x * y / d`, rounded down.
pub open spec fn mul_div_floor(x: int, y: int, d: int) -> int {
    x * y / d
}

/// The product of two 64-bit numbers fits in 128 bits, and so does its
/// quotient by any positive number.
pub proof fn lemma_mul_div_fits(x: u64, y: u64, d: u64)
    ensures
        0 <= x * y <= u128::MAX,
        d > 0 ==> 0 <= mul_div_floor(x as int, y as int, d as int) <= x * y,
{
    assert(0 <= x * y <= 0xffff_ffff_ffff_ffff * 0xffff_ffff_ffff_ffff) by (nonlinear_arith)
        requires
            0 <= x <= 0xffff_ffff_ffff_ffff,
            0 <= y <= 0xffff_ffff_ffff_ffff,
    ;
    if d > 0 {
        let p: int = x * y;
        assert(0 <= p / (d as int) <= p) by (nonlinear_arith)
            requires
                0 <= p,
                0 < d,
        ;
    }
}

/// Rounding down loses less than one divisor: `x * y / d` times `d` is at
/// most `x * y`, and falls short of it by less than `d`.
pub proof fn lemma_mul_div_floor_bounds(x: int, y: int, d: int)
    requires
        0 <= x,
        0 <= y,
        0 < d,
    ensures
        0 <= mul_div_floor(x, y, d),
        mul_div_floor(x, y, d) * d <= x * y < mul_div_floor(x, y, d) * d + d,
{
    let p = x * y;
    assert(0 <= p) by (nonlinear_arith)
        requires
            p == x * y,
            0 <= x,
            0 <= y,
    ;
    assert(0 <= p / d && (p / d) * d <= p < (p / d) * d + d) by (nonlinear_arith)
        requires
            0 <= p,
            0 < d,
    ;
}

/// A quotient rounded down is the largest number whose product with the
/// divisor does not exceed the dividend: whatever times `d` stays within
/// `x * y` is at most `x * y / d`.
pub proof fn lemma_mul_div_floor_greatest(x: int, y: int, d: int, q: int)
    requires
        0 < d,
        q * d <= x * y,
    ensures
        q <= mul_div_floor(x, y, d),
{
    let p = x * y;
    assert(q <= p / d) by (nonlinear_arith)
        requires
            0 < d,
            q * d <= p,
    ;
}

/// A quotient rounded down is at most whatever number times the divisor
/// reaches the dividend.
pub proof fn lemma_mul_div_floor_at_most(x: int, y: int, d: int, q: int)
    requires
        0 < d,
        x * y <= q * d,
    ensures
        mul_div_floor(x, y, d) <= q,
{
    let p = x * y;
    assert(p / d <= q) by (nonlinear_arith)
        requires
            0 < d,
            p <= q * d,
    ;
}

/// `x * y / d`, rounded down, with the product taken in 128 bits so that it
/// cannot overflow. A zero divisor is reported as `MathOverflow`.
pub fn mul_div(x: u64, y: u64, d: u64) -> (res: Result<u128, DEXError>)
    ensures
        d == 0 ==> res == Err::<u128, DEXError>(DEXError::MathOverflow),
        d != 0 ==> res == Ok::<u128, DEXError>(mul_div_floor(x as int, y as int, d as int) as u128),
        d != 0 ==> mul_div_floor(x as int, y as int, d as int) <= u128::MAX,
{
    proof {
        lemma_mul_div_fits(x, y, d);
    }
    let product: u128 = match (x as u128).checked_mul(y as u128) {
        Some(product) => product,
        None => { return Err(DEXError::MathOverflow); },
    };
    match product.checked_div(d as u128) {
        Some(quotient) => Ok(quotient),
        None => Err(DEXError::MathOverflow),
    }
}

/// What a burn of `lp_tokens_to_burn` shares out of `total_lp_supply` pays
/// out of the two vaults, before any check on the size of the burn: each
/// vault's amount times the part of the supply that is burnt, rounded down.
pub open spec fn withdrawal_amounts(
    lp_tokens_to_burn: int,
    total_lp_supply: int,
    vault_a_amount: int,
    vault_b_amount: int,
) -> Result<(u64, u64), DEXError> {
    let amount_a = mul_div_floor(lp_tokens_to_burn, vault_a_amount, total_lp_supply);
    let amount_b = mul_div_floor(lp_tokens_to_burn, vault_b_amount, total_lp_supply);
    if total_lp_supply == 0 || amount_a > u64::MAX || amount_b > u64::MAX {
        Err(DEXError::MathOverflow)
    } else {
        Ok((amount_a as u64, amount_b as u64))
    }
}

/// The amounts of the two tokens that a burn of `lp_tokens_to_burn` shares
/// releases. Fails with `MathOverflow` where no share is outstanding or an
/// amount does not fit in 64 bits.
pub fn calculate_withdrawal_amounts(
    lp_tokens_to_burn: u64,
    total_lp_supply: u64,
    vault_a_amount: u64,
    vault_b_amount: u64,
) -> (res: Result<(u64, u64), DEXError>)
    ensures
        res == withdrawal_amounts(
            lp_tokens_to_burn as int,
            total_lp_supply as int,
            vault_a_amount as int,
            vault_b_amount as int,
        ),
{
    let amount_a: u128 = match mul_div(lp_tokens_to_burn, vault_a_amount, total_lp_supply) {
        Ok(amount) => amount,
        Err(e) => { return Err(e); },
    };
    let amount_b: u128 = match mul_div(lp_tokens_to_burn, vault_b_amount, total_lp_supply) {
        Ok(amount) => amount,
        Err(e) => { return Err(e); },
    };
    if amount_a > u64::MAX as u128 || amount_b > u64::MAX as u128 {
        return Err(DEXError::MathOverflow);
    }
    Ok((amount_a as u64, amount_b as u64))
}

} // verus!
