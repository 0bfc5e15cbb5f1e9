use vstd::prelude::*;
use crate::constants::MAX_FEE_BPS;
use crate::utils::key_precedes;

verus! {

/// The record of one pool: which two mints it trades, where it keeps its
/// reserves, which mint issues its shares, and its fee. It is written once,
/// when the pool is created, and never changed.
#[derive(Clone, Copy, Debug)]
pub struct Pool {
    /// The account that holds the pool's reserve of the first token.
    pub vault_a: [u8; 32],
    /// The account that holds the pool's reserve of the second token.
    pub vault_b: [u8; 32],
    /// The mint of the first token: the lower key of the pair.
    pub mint_a: [u8; 32],
    /// The mint of the second token: the higher key of the pair.
    pub mint_b: [u8; 32],
    /// The mint of the pool's shares.
    pub lp_mint: [u8; 32],
    /// The fee in basis points. It is kept, and no price is computed from it.
    pub fee_bps: u64,
    /// The bump of the address under which the pool signs for its vaults.
    pub bump: u8,
}

impl Pool {
    /// The bytes a stored record takes: a tag of eight bytes, five keys, the
    /// fee and the bump.
    pub const MAX_SIZE: usize = 8 + 5 * 32 + 8 + 1;

    /// What holds of every pool: the fee is at most the whole amount, and the
    /// two mints stand in ascending order, so that a pair has one pool only.
    pub open spec fn well_formed(&self) -> bool {
        &&& self.fee_bps <= MAX_FEE_BPS
        &&& key_precedes(self.mint_a@, self.mint_b@)
    }
}

} // verus!
