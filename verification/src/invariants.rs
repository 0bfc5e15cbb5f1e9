use vstd::prelude::*;
use crate::instructions::add_liquidity::{
    deposit, lemma_deposit_credits_no_more_than_paid, AddLiquidityToPool,
};
use crate::instructions::withdraw_liquidity::{withdrawal, WithdrawLiquidityFromPool};
use crate::utils::lemma_mul_div_floor_at_most;

verus! {

/// The pool as a withdrawal finds it once a deposit has been carried out: the
/// amounts taken have joined the reserves and the shares minted the supply.
pub open spec fn pool_after_deposit(
    ctx: AddLiquidityToPool,
    taken: (u64, u64, u64),
    user_lp_amount: u64,
) -> WithdrawLiquidityFromPool {
    WithdrawLiquidityFromPool {
        vault_a_amount: (ctx.vault_a_amount + taken.0) as u64,
        vault_b_amount: (ctx.vault_b_amount + taken.1) as u64,
        lp_supply: (ctx.lp_supply + taken.2) as u64,
        user_lp_amount,
    }
}

/// Nothing is gained by paying into a pool and taking out again. Whoever
/// deposits into a pool that has shares, and then burns the shares they were
/// minted, is released no more of either token than they paid in; rounding
/// goes to the pool.
pub proof fn lemma_withdrawal_returns_at_most_the_deposit(
    ctx: AddLiquidityToPool,
    token_a_amount: u64,
    token_b_amount: u64,
    user_lp_amount: u64,
)
    requires
        ctx.lp_supply > 0,
        deposit(ctx, token_a_amount, token_b_amount) is Ok,
        ctx.vault_a_amount + deposit(ctx, token_a_amount, token_b_amount)->Ok_0.0 <= u64::MAX,
        ctx.vault_b_amount + deposit(ctx, token_a_amount, token_b_amount)->Ok_0.1 <= u64::MAX,
        ctx.lp_supply + deposit(ctx, token_a_amount, token_b_amount)->Ok_0.2 <= u64::MAX,
    ensures
        ({
            let taken = deposit(ctx, token_a_amount, token_b_amount)->Ok_0;
            let after = pool_after_deposit(ctx, taken, user_lp_amount);
            withdrawal(after, taken.2) matches Ok((amount_a, amount_b)) ==> amount_a <= taken.0
                && amount_b <= taken.1
        }),
{
    let taken = deposit(ctx, token_a_amount, token_b_amount)->Ok_0;
    let (a_amount, b_amount, liquidity) = taken;
    let supply = ctx.lp_supply as int;
    let total_a = ctx.vault_a_amount as int;
    let total_b = ctx.vault_b_amount as int;
    lemma_deposit_credits_no_more_than_paid(ctx, token_a_amount, token_b_amount);
    assert(liquidity * (total_a + a_amount) <= a_amount * (supply + liquidity))
        by (nonlinear_arith)
        requires
            liquidity * total_a <= a_amount * supply,
    ;
    assert(liquidity * (total_b + b_amount) <= b_amount * (supply + liquidity))
        by (nonlinear_arith)
        requires
            liquidity * total_b <= b_amount * supply,
    ;
    lemma_mul_div_floor_at_most(
        liquidity as int,
        total_a + a_amount,
        supply + liquidity,
        a_amount as int,
    );
    lemma_mul_div_floor_at_most(
        liquidity as int,
        total_b + b_amount,
        supply + liquidity,
        b_amount as int,
    );
}

} // verus!
