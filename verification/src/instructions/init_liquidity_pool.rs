use vstd::prelude::*;
use crate::constants::MAX_FEE_BPS;
use crate::errors::DEXError;
use crate::state::Pool;
use crate::utils::{key_less, key_precedes};

verus! {

/// The accounts that a new pool is made of.
#[derive(Clone, Copy, Debug)]
pub struct InitializeLiquidityPool {
    /// The mint of the first token.
    pub mint_a: [u8; 32],
    /// The mint of the second token.
    pub mint_b: [u8; 32],
    /// The mint of the pool's shares.
    pub lp_mint: [u8; 32],
    /// The account that will hold the reserve of the first token.
    pub vault_a: [u8; 32],
    /// The account that will hold the reserve of the second token.
    pub vault_b: [u8; 32],
    /// The bump of the pool's own address.
    pub bump: u8,
}

impl InitializeLiquidityPool {
    /// The record of the pool that these accounts and `fee_bps` make.
    pub open spec fn pool(self, fee_bps: u64) -> Pool {
        Pool {
            vault_a: self.vault_a,
            vault_b: self.vault_b,
            mint_a: self.mint_a,
            mint_b: self.mint_b,
            lp_mint: self.lp_mint,
            fee_bps,
            bump: self.bump,
        }
    }
}

/// What creating a pool gives: the fee is tested first, then the order of the
/// two mints.
pub open spec fn initialized_pool(ctx: InitializeLiquidityPool, initial_fee_bps: u64) -> Result<
    Pool,
    DEXError,
> {
    if initial_fee_bps > MAX_FEE_BPS {
        Err(DEXError::InvalidBPSValue)
    } else if !key_precedes(ctx.mint_a@, ctx.mint_b@) {
        Err(DEXError::InvalidMintOrdering)
    } else {
        Ok(ctx.pool(initial_fee_bps))
    }
}

/// Creates the record of a pool. It is refused with `InvalidBPSValue` where
/// the fee is above 10 000 basis points, and with `InvalidMintOrdering` where
/// the key of the first mint is not below that of the second.
pub fn initialize_liquidity_pool(ctx: &InitializeLiquidityPool, initial_fee_bps: u64) -> (res:
    Result<Pool, DEXError>)
    ensures
        res == initialized_pool(*ctx, initial_fee_bps),
        res is Ok ==> res->Ok_0.well_formed(),
{
    if initial_fee_bps > MAX_FEE_BPS {
        return Err(DEXError::InvalidBPSValue);
    }
    if !key_less(&ctx.mint_a, &ctx.mint_b) {
        return Err(DEXError::InvalidMintOrdering);
    }
    Ok(
        Pool {
            vault_a: ctx.vault_a,
            vault_b: ctx.vault_b,
            mint_a: ctx.mint_a,
            mint_b: ctx.mint_b,
            lp_mint: ctx.lp_mint,
            fee_bps: initial_fee_bps,
            bump: ctx.bump,
        },
    )
}

} // verus!
