use vstd::prelude::*;
use crate::errors::DEXError;
use crate::utils::{mul_div, mul_div_floor};

verus! {

/// What an exchange reads of the ledger before it computes: the two reserves,
/// named by the direction of the trade.
#[derive(Clone, Copy, Debug)]
pub struct ExchangeTokens {
    /// The reserve of the token that the trader pays in.
    pub vault_to_amount: u64,
    /// The reserve of the token that the trader is paid from.
    pub vault_from_amount: u64,
}

impl ExchangeTokens {
    /// The product of the two reserves, which a trade is priced to keep.
    pub open spec fn price_constant(self) -> int {
        self.vault_from_amount * self.vault_to_amount
    }

    /// What is left of the paying reserve after `amount_to_exchange` has come
    /// into the other: the product of the reserves divided by the grown
    /// reserve, rounded down.
    pub open spec fn new_vault_from_amount(self, amount_to_exchange: u64) -> int {
        mul_div_floor(
            self.vault_from_amount as int,
            self.vault_to_amount as int,
            self.vault_to_amount + amount_to_exchange,
        )
    }
}

/// What an exchange of `amount_to_exchange` gives: the amount paid out, which
/// is what the paying reserve loses.
pub open spec fn exchange(ctx: ExchangeTokens, amount_to_exchange: u64) -> Result<u64, DEXError> {
    if amount_to_exchange == 0 {
        Err(DEXError::InvalidAmount)
    } else if ctx.vault_to_amount + amount_to_exchange > u64::MAX {
        Err(DEXError::MathOverflow)
    } else {
        Ok((ctx.vault_from_amount - ctx.new_vault_from_amount(amount_to_exchange)) as u64)
    }
}

/// Dividing the product of the reserves by the grown reserve leaves at most
/// the paying reserve, and loses less than one grown reserve of the product.
pub proof fn lemma_new_reserve_bounds(reserve_out: int, reserve_in: int, amount_in: int)
    requires
        0 <= reserve_out,
        0 <= reserve_in,
        0 < amount_in,
    ensures
        0 <= mul_div_floor(reserve_out, reserve_in, reserve_in + amount_in) <= reserve_out,
        (reserve_in + amount_in) * mul_div_floor(reserve_out, reserve_in, reserve_in + amount_in)
            <= reserve_out * reserve_in,
        reserve_out * reserve_in < (reserve_in + amount_in) * mul_div_floor(
            reserve_out,
            reserve_in,
            reserve_in + amount_in,
        ) + (reserve_in + amount_in),
{
    let k = reserve_out * reserve_in;
    let n = reserve_in + amount_in;
    let q = k / n;
    assert(0 <= k <= reserve_out * n) by (nonlinear_arith)
        requires
            k == reserve_out * reserve_in,
            n == reserve_in + amount_in,
            0 <= reserve_out,
            0 <= reserve_in,
            0 < amount_in,
    ;
    assert(0 <= q <= reserve_out && n * q <= k < n * q + n) by (nonlinear_arith)
        requires
            q == k / n,
            0 < n,
            0 <= k <= reserve_out * n,
    ;
}

/// The amount to pay out for `amount_to_exchange` paid in, by the
/// constant-product rule: the paying reserve falls to the product of the two
/// reserves divided by the grown reserve, rounded down, and the trader gets
/// the difference. Which reserve pays is the caller's to settle, and so is a
/// floor on what the trader accepts.
///
/// It is refused with `InvalidAmount` where nothing is paid in, and with
/// `MathOverflow` where the grown reserve leaves 64 bits.
pub fn exchange_tokens(ctx: &ExchangeTokens, amount_to_exchange: u64) -> (res: Result<
    u64,
    DEXError,
>)
    ensures
        res == exchange(*ctx, amount_to_exchange),
        res matches Ok(tokens_to_give) ==> {
            &&& tokens_to_give <= ctx.vault_from_amount
            &&& (ctx.vault_to_amount + amount_to_exchange) * (ctx.vault_from_amount
                - tokens_to_give) <= ctx.price_constant()
            &&& ctx.price_constant() < (ctx.vault_to_amount + amount_to_exchange) * (
            ctx.vault_from_amount - tokens_to_give) + (ctx.vault_to_amount + amount_to_exchange)
        },
{
    if amount_to_exchange == 0 {
        return Err(DEXError::InvalidAmount);
    }
    let new_vault_to_amount: u64 = match ctx.vault_to_amount.checked_add(amount_to_exchange) {
        Some(amount) => amount,
        None => { return Err(DEXError::MathOverflow); },
    };
    proof {
        lemma_new_reserve_bounds(
            ctx.vault_from_amount as int,
            ctx.vault_to_amount as int,
            amount_to_exchange as int,
        );
    }
    let new_vault_from_amount: u128 = match mul_div(
        ctx.vault_from_amount,
        ctx.vault_to_amount,
        new_vault_to_amount,
    ) {
        Ok(amount) => amount,
        Err(e) => { return Err(e); },
    };
    let tokens_to_give: u64 = ctx.vault_from_amount - new_vault_from_amount as u64;
    Ok(tokens_to_give)
}

/// Where the grown reserve divides the product of the reserves, a trade keeps
/// that product: the reserves after it multiply to no less than before.
pub proof fn lemma_exchange_keeps_product(ctx: ExchangeTokens, amount_to_exchange: u64)
    requires
        exchange(ctx, amount_to_exchange) is Ok,
        ctx.price_constant() % (ctx.vault_to_amount + amount_to_exchange) == 0,
    ensures
        (ctx.vault_to_amount + amount_to_exchange) * (ctx.vault_from_amount - exchange(
            ctx,
            amount_to_exchange,
        )->Ok_0) >= ctx.vault_to_amount * ctx.vault_from_amount,
{
    let k = ctx.vault_from_amount * ctx.vault_to_amount;
    let n = ctx.vault_to_amount + amount_to_exchange;
    lemma_new_reserve_bounds(
        ctx.vault_from_amount as int,
        ctx.vault_to_amount as int,
        amount_to_exchange as int,
    );
    assert(n * (k / n) == k) by (nonlinear_arith)
        requires
            0 < n,
            k % n == 0,
    ;
    assert(ctx.vault_to_amount * ctx.vault_from_amount == k) by (nonlinear_arith)
        requires
            k == ctx.vault_from_amount * ctx.vault_to_amount,
    ;
}

} // verus!
