use vstd::prelude::*;
use crate::errors::DEXError;
use crate::utils::{
    i_sqrt, lemma_mul_div_fits, lemma_mul_div_floor_at_most, lemma_mul_div_floor_bounds, mul_div,
    mul_div_floor, sqrt_floor,
};

verus! {

/// What a deposit reads of the ledger before it computes: the two reserves
/// and the shares outstanding. Every division of one deposit goes by these
/// values; nothing is read a second time.
#[derive(Clone, Copy, Debug)]
pub struct AddLiquidityToPool {
    /// The pool's reserve of the first token.
    pub vault_a_amount: u64,
    /// The pool's reserve of the second token.
    pub vault_b_amount: u64,
    /// The shares of the pool that are outstanding.
    pub lp_supply: u64,
}

impl AddLiquidityToPool {
    /// The amount of the second token that goes with `token_a_amount` of the
    /// first at the ratio of the reserves, rounded down.
    pub open spec fn proportional_b(self, token_a_amount: int) -> int {
        mul_div_floor(token_a_amount, self.vault_b_amount as int, self.vault_a_amount as int)
    }

    /// The amount of the first token that goes with `token_b_amount` of the
    /// second at the ratio of the reserves, rounded down.
    pub open spec fn proportional_a(self, token_b_amount: int) -> int {
        mul_div_floor(token_b_amount, self.vault_a_amount as int, self.vault_b_amount as int)
    }

    /// The amounts that a pool with shares outstanding takes of what is
    /// offered. Where the second token is offered in plenty, the first is
    /// taken whole and the second cut down to the ratio; else the second is
    /// taken whole and the first cut down, and the offer is refused where
    /// that would take more of the first than was offered.
    pub open spec fn accepted_amounts(self, token_a_amount: int, token_b_amount: int) -> Result<
        (int, int),
        DEXError,
    > {
        if self.proportional_b(token_a_amount) <= token_b_amount {
            Ok((token_a_amount, self.proportional_b(token_a_amount)))
        } else if self.proportional_a(token_b_amount) > token_a_amount {
            Err(DEXError::InvalidAmountOfLiquidation)
        } else {
            Ok((self.proportional_a(token_b_amount), token_b_amount))
        }
    }

    /// The shares that `amount_a` brings, measured against the first reserve.
    pub open spec fn a_anchored(self, amount_a: int) -> int {
        mul_div_floor(amount_a, self.lp_supply as int, self.vault_a_amount as int)
    }

    /// The shares that `amount_b` brings, measured against the second
    /// reserve.
    pub open spec fn b_anchored(self, amount_b: int) -> int {
        mul_div_floor(amount_b, self.lp_supply as int, self.vault_b_amount as int)
    }

    /// The shares minted for the amounts taken: the lesser of what the two
    /// legs bring, so that no leg is credited above what it put in.
    pub open spec fn liquidity(self, amount_a: int, amount_b: int) -> int {
        if self.a_anchored(amount_a) <= self.b_anchored(amount_b) {
            self.a_anchored(amount_a)
        } else {
            self.b_anchored(amount_b)
        }
    }
}

/// What a deposit gives: the amounts of the two tokens to take from the
/// depositor, and the shares to mint to them.
pub open spec fn deposit(ctx: AddLiquidityToPool, token_a_amount: u64, token_b_amount: u64)
    -> Result<(u64, u64, u64), DEXError> {
    if token_a_amount == 0 || token_b_amount == 0 {
        Err(DEXError::InvalidAmount)
    } else if ctx.lp_supply == 0 {
        Ok((token_a_amount, token_b_amount, sqrt_floor((token_a_amount * token_b_amount) as nat) as u64))
    } else if ctx.vault_a_amount == 0 || ctx.vault_b_amount == 0 {
        Err(DEXError::MathOverflow)
    } else {
        match ctx.accepted_amounts(token_a_amount as int, token_b_amount as int) {
            Err(e) => Err(e),
            Ok((amount_a, amount_b)) => if ctx.liquidity(amount_a, amount_b) > u64::MAX {
                Err(DEXError::MathOverflow)
            } else {
                Ok((amount_a as u64, amount_b as u64, ctx.liquidity(amount_a, amount_b) as u64))
            },
        }
    }
}

/// The integer square root of a number of 128 bits fits in 64 bits.
pub proof fn lemma_sqrt_fits(n: u128, r: u128)
    requires
        r * r <= n,
    ensures
        r <= u64::MAX,
{
    assert(r <= 0xffff_ffff_ffff_ffff) by (nonlinear_arith)
        requires
            r * r <= n,
            n <= 0xffff_ffff_ffff_ffff_ffff_ffff_ffff_ffff,
            0 <= r,
    ;
}

/// The amounts to take from a depositor who offers `token_a_amount` and
/// `token_b_amount`, and the shares to mint to them. The caller moves the two
/// amounts first and mints after.
///
/// Into a pool without shares the offer goes whole, and the shares are the
/// integer square root of the product of the two amounts. Into a pool with
/// shares the offer is cut down to the ratio of the reserves on one leg, and
/// the shares are the lesser of what the two legs bring, each measured
/// against its reserve as it stood before the deposit.
///
/// It is refused with `InvalidAmount` where an amount offered is zero, and
/// with `MathOverflow` where a pool with shares has an empty reserve or the
/// shares to mint leave 64 bits. `InvalidAmountOfLiquidation` stands for an
/// offer of which neither leg can be cut down to the ratio; rounding down
/// leaves no such offer, so it is never returned.
pub fn add_liquidity_to_pool(
    ctx: &AddLiquidityToPool,
    token_a_amount: u64,
    token_b_amount: u64,
) -> (res: Result<(u64, u64, u64), DEXError>)
    ensures
        res == deposit(*ctx, token_a_amount, token_b_amount),
        res matches Ok((a_amount, b_amount, liquidity)) ==> {
            &&& a_amount <= token_a_amount
            &&& b_amount <= token_b_amount
            &&& a_amount == token_a_amount || b_amount == token_b_amount
        },
        res != Err::<(u64, u64, u64), DEXError>(DEXError::InvalidAmountOfLiquidation),
{
    if token_a_amount == 0 || token_b_amount == 0 {
        return Err(DEXError::InvalidAmount);
    }
    let total_lp_supply: u64 = ctx.lp_supply;
    let total_a: u64 = ctx.vault_a_amount;
    let total_b: u64 = ctx.vault_b_amount;

    if total_lp_supply == 0 {
        // the first deposit sets the price, so there is no ratio to hold it to
        proof {
            lemma_mul_div_fits(token_a_amount, token_b_amount, 1);
        }
        let product: u128 = match (token_a_amount as u128).checked_mul(token_b_amount as u128) {
            Some(product) => product,
            None => { return Err(DEXError::MathOverflow); },
        };
        let liquidity: u128 = i_sqrt(product);
        proof {
            lemma_sqrt_fits(product, liquidity);
        }
        return Ok((token_a_amount, token_b_amount, liquidity as u64));
    }
    proof {
        if total_a > 0 && total_b > 0 {
            lemma_ratio_is_always_met(*ctx, token_a_amount as int, token_b_amount as int);
        }
    }
    let proportional_b: u128 = match mul_div(token_a_amount, total_b, total_a) {
        Ok(amount) => amount,
        Err(e) => { return Err(e); },
    };
    let (a_amount, b_amount): (u64, u64) = if proportional_b <= token_b_amount as u128 {
        (token_a_amount, proportional_b as u64)
    } else {
        let proportional_a: u128 = match mul_div(token_b_amount, total_a, total_b) {
            Ok(amount) => amount,
            Err(e) => { return Err(e); },
        };
        if proportional_a > token_a_amount as u128 {
            return Err(DEXError::InvalidAmountOfLiquidation);
        }
        (proportional_a as u64, token_b_amount)
    };
    let a_anchored: u128 = match mul_div(a_amount, total_lp_supply, total_a) {
        Ok(amount) => amount,
        Err(e) => { return Err(e); },
    };
    let b_anchored: u128 = match mul_div(b_amount, total_lp_supply, total_b) {
        Ok(amount) => amount,
        Err(e) => { return Err(e); },
    };
    let liquidity: u128 = if a_anchored <= b_anchored {
        a_anchored
    } else {
        b_anchored
    };
    if liquidity > u64::MAX as u128 {
        return Err(DEXError::MathOverflow);
    }
    Ok((a_amount, b_amount, liquidity as u64))
}

/// A pool with both reserves above zero refuses no offer for its ratio: where
/// the second token falls short of what goes with the first, the first can
/// be cut down to what goes with the second. Of what is offered it takes one
/// token whole and no more than was offered of the other.
pub proof fn lemma_ratio_is_always_met(
    ctx: AddLiquidityToPool,
    token_a_amount: int,
    token_b_amount: int,
)
    requires
        ctx.vault_a_amount > 0,
        ctx.vault_b_amount > 0,
        0 <= token_a_amount,
        0 <= token_b_amount,
    ensures
        ctx.accepted_amounts(token_a_amount, token_b_amount) matches Ok((amount_a, amount_b)) && {
            &&& 0 <= amount_a <= token_a_amount
            &&& 0 <= amount_b <= token_b_amount
            &&& amount_a == token_a_amount || amount_b == token_b_amount
        },
{
    let total_a = ctx.vault_a_amount as int;
    let total_b = ctx.vault_b_amount as int;
    let proportional_b = ctx.proportional_b(token_a_amount);
    lemma_mul_div_floor_bounds(token_a_amount, total_b, total_a);
    lemma_mul_div_floor_bounds(token_b_amount, total_a, total_b);
    if proportional_b > token_b_amount {
        assert(token_b_amount * total_a <= token_a_amount * total_b) by (nonlinear_arith)
            requires
                proportional_b * total_a <= token_a_amount * total_b,
                token_b_amount < proportional_b,
                0 < total_a,
        ;
        lemma_mul_div_floor_at_most(token_b_amount, total_a, total_b, token_a_amount);
    }
}

/// The shares minted into a pool that has shares already are worth no more
/// than either leg of the deposit: set against the supply, they are no
/// greater a part than the amount taken is of its reserve.
pub proof fn lemma_deposit_credits_no_more_than_paid(
    ctx: AddLiquidityToPool,
    token_a_amount: u64,
    token_b_amount: u64,
)
    requires
        ctx.lp_supply > 0,
        deposit(ctx, token_a_amount, token_b_amount) is Ok,
    ensures
        ({
            let (a_amount, b_amount, liquidity) = deposit(ctx, token_a_amount, token_b_amount)->Ok_0;
            &&& liquidity * ctx.vault_a_amount <= a_amount * ctx.lp_supply
            &&& liquidity * ctx.vault_b_amount <= b_amount * ctx.lp_supply
        }),
{
    lemma_ratio_is_always_met(ctx, token_a_amount as int, token_b_amount as int);
    let (a_amount, b_amount, liquidity) = deposit(ctx, token_a_amount, token_b_amount)->Ok_0;
    lemma_mul_div_floor_bounds(a_amount as int, ctx.lp_supply as int, ctx.vault_a_amount as int);
    lemma_mul_div_floor_bounds(b_amount as int, ctx.lp_supply as int, ctx.vault_b_amount as int);
    let from_a = ctx.a_anchored(a_amount as int);
    let from_b = ctx.b_anchored(b_amount as int);
    assert(liquidity * ctx.vault_a_amount <= from_a * ctx.vault_a_amount) by (nonlinear_arith)
        requires
            liquidity <= from_a,
            0 <= ctx.vault_a_amount,
    ;
    assert(liquidity * ctx.vault_b_amount <= from_b * ctx.vault_b_amount) by (nonlinear_arith)
        requires
            liquidity <= from_b,
            0 <= ctx.vault_b_amount,
    ;
}

} // verus!
