use vstd::prelude::*;
use crate::constants::MINIMUM_LIQUIDITY_WITHDRAWAL;
use crate::errors::DEXError;
use crate::utils::{
    calculate_withdrawal_amounts, lemma_mul_div_floor_at_most, lemma_mul_div_floor_greatest,
    mul_div_floor, withdrawal_amounts,
};

verus! {

/// What a withdrawal reads of the ledger before it computes: the two
/// reserves, the shares outstanding and the shares that the caller holds.
#[derive(Clone, Copy, Debug)]
pub struct WithdrawLiquidityFromPool {
    /// The pool's reserve of the first token.
    pub vault_a_amount: u64,
    /// The pool's reserve of the second token.
    pub vault_b_amount: u64,
    /// The shares of the pool that are outstanding.
    pub lp_supply: u64,
    /// The shares of the pool in the caller's account.
    pub user_lp_amount: u64,
}

/// What a withdrawal of `lp_tokens_amount` shares gives. The tests come in
/// this order: the burn against the floor, the supply against zero, the
/// amounts against 64 bits, the amounts against zero, the burn against what
/// the caller holds.
pub open spec fn withdrawal(ctx: WithdrawLiquidityFromPool, lp_tokens_amount: u64) -> Result<
    (u64, u64),
    DEXError,
> {
    if lp_tokens_amount < MINIMUM_LIQUIDITY_WITHDRAWAL {
        Err(DEXError::WithdrawalTooSmall)
    } else if ctx.lp_supply == 0 {
        Err(DEXError::EmptyPool)
    } else {
        match withdrawal_amounts(
            lp_tokens_amount as int,
            ctx.lp_supply as int,
            ctx.vault_a_amount as int,
            ctx.vault_b_amount as int,
        ) {
            Err(e) => Err(e),
            Ok((amount_a, amount_b)) => if amount_a == 0 || amount_b == 0 {
                Err(DEXError::WithdrawalTooSmall)
            } else if lp_tokens_amount > ctx.user_lp_amount {
                Err(DEXError::InsufficientLPTokens)
            } else {
                Ok((amount_a, amount_b))
            },
        }
    }
}

/// The amounts of the two tokens to release for a burn of `lp_tokens_amount`
/// shares: the part of each reserve that the burnt shares are of the supply,
/// rounded down. The caller burns the shares first and releases the amounts
/// after.
///
/// It is refused with `WithdrawalTooSmall` where the burn is below the floor
/// or would release nothing of a token, with `EmptyPool` where no share is
/// outstanding, with `MathOverflow` where an amount leaves 64 bits, and with
/// `InsufficientLPTokens` where the caller holds fewer shares than it burns.
pub fn withdraw_liquidity_from_pool(ctx: &WithdrawLiquidityFromPool, lp_tokens_amount: u64) -> (res:
    Result<(u64, u64), DEXError>)
    ensures
        res == withdrawal(*ctx, lp_tokens_amount),
        res matches Ok((amount_a, amount_b)) ==> {
            &&& amount_a == mul_div_floor(
                lp_tokens_amount as int,
                ctx.vault_a_amount as int,
                ctx.lp_supply as int,
            )
            &&& amount_b == mul_div_floor(
                lp_tokens_amount as int,
                ctx.vault_b_amount as int,
                ctx.lp_supply as int,
            )
            &&& amount_a > 0
            &&& amount_b > 0
        },
{
    if lp_tokens_amount < MINIMUM_LIQUIDITY_WITHDRAWAL {
        return Err(DEXError::WithdrawalTooSmall);
    }
    let total_lp_supply: u64 = ctx.lp_supply;
    let vault_a_amount: u64 = ctx.vault_a_amount;
    let vault_b_amount: u64 = ctx.vault_b_amount;

    if total_lp_supply == 0 {
        return Err(DEXError::EmptyPool);
    }
    let (amount_a, amount_b) = match calculate_withdrawal_amounts(
        lp_tokens_amount,
        total_lp_supply,
        vault_a_amount,
        vault_b_amount,
    ) {
        Ok(amounts) => amounts,
        Err(e) => { return Err(e); },
    };

    if !(amount_a > 0 && amount_b > 0) {
        return Err(DEXError::WithdrawalTooSmall);
    }
    if lp_tokens_amount > ctx.user_lp_amount {
        return Err(DEXError::InsufficientLPTokens);
    }
    Ok((amount_a, amount_b))
}

/// A burn of no more shares than are outstanding releases no more of a token
/// than the pool holds of it.
pub proof fn lemma_withdrawal_within_reserves(ctx: WithdrawLiquidityFromPool, lp_tokens_amount: u64)
    requires
        lp_tokens_amount <= ctx.lp_supply,
        withdrawal(ctx, lp_tokens_amount) is Ok,
    ensures
        withdrawal(ctx, lp_tokens_amount)->Ok_0.0 <= ctx.vault_a_amount,
        withdrawal(ctx, lp_tokens_amount)->Ok_0.1 <= ctx.vault_b_amount,
{
    let burnt = lp_tokens_amount as int;
    let supply = ctx.lp_supply as int;
    let total_a = ctx.vault_a_amount as int;
    let total_b = ctx.vault_b_amount as int;
    assert(burnt * total_a <= total_a * supply) by (nonlinear_arith)
        requires
            0 <= burnt <= supply,
            0 <= total_a,
    ;
    assert(burnt * total_b <= total_b * supply) by (nonlinear_arith)
        requires
            0 <= burnt <= supply,
            0 <= total_b,
    ;
    lemma_mul_div_floor_at_most(burnt, total_a, supply, total_a);
    lemma_mul_div_floor_at_most(burnt, total_b, supply, total_b);
}

/// A burn of every share outstanding releases the two reserves whole: never
/// more than the pool holds, and rounding leaves nothing behind. It goes
/// through wherever both reserves are above zero and the caller holds all the
/// shares.
pub proof fn lemma_burning_all_shares_empties_the_pool(ctx: WithdrawLiquidityFromPool)
    requires
        ctx.lp_supply > 0,
    ensures
        withdrawal_amounts(
            ctx.lp_supply as int,
            ctx.lp_supply as int,
            ctx.vault_a_amount as int,
            ctx.vault_b_amount as int,
        ) == Ok::<(u64, u64), DEXError>((ctx.vault_a_amount, ctx.vault_b_amount)),
        withdrawal(ctx, ctx.lp_supply) matches Ok((amount_a, amount_b)) ==> {
            &&& amount_a <= ctx.vault_a_amount
            &&& amount_b <= ctx.vault_b_amount
            &&& ctx.vault_a_amount - amount_a <= 1
            &&& ctx.vault_b_amount - amount_b <= 1
        },
        ctx.vault_a_amount > 0 && ctx.vault_b_amount > 0 && ctx.user_lp_amount >= ctx.lp_supply
            ==> withdrawal(ctx, ctx.lp_supply) is Ok,
{
    let supply = ctx.lp_supply as int;
    let total_a = ctx.vault_a_amount as int;
    let total_b = ctx.vault_b_amount as int;
    assert(supply * total_a == total_a * supply) by (nonlinear_arith);
    assert(supply * total_b == total_b * supply) by (nonlinear_arith);
    lemma_mul_div_floor_at_most(supply, total_a, supply, total_a);
    lemma_mul_div_floor_at_most(supply, total_b, supply, total_b);
    lemma_mul_div_floor_greatest(supply, total_a, supply, total_a);
    lemma_mul_div_floor_greatest(supply, total_b, supply, total_b);
}

} // verus!
