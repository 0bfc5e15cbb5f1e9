use vstd::prelude::*;

verus! {

/// The fewest shares that one withdrawal may burn.
pub const MINIMUM_LIQUIDITY_WITHDRAWAL: u64 = 1;

/// The highest fee a pool may be created with, in basis points.
pub const MAX_FEE_BPS: u64 = 10_000;

/// The bytes that open the seeds of every pool's address: the ASCII text
/// `liquidity_pool`.
pub const LIQUIDITY_POOL_SEED: [u8; 14] = [108u8, 105u8, 113u8, 117u8, 105u8, 100u8, 105u8, 116u8, 121u8, 95u8, 112u8, 111u8, 111u8, 108u8];

} // verus!
