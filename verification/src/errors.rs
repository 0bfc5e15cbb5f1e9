use vstd::prelude::*;

verus! {

/// Why an operation on a pool was refused. A refusal is final: nothing has
/// moved, and the caller may try again with other amounts.
#[derive(Clone, Copy, Debug, PartialEq, Eq, Structural)]
pub enum DEXError {
    /// The fee given at creation is above 10 000 basis points.
    InvalidBPSValue,
    /// A step of the arithmetic left the range of the integers it works in.
    MathOverflow,
    /// The amounts offered cannot be brought to the ratio of the reserves.
    InvalidAmountOfLiquidation,
    /// The two mints are not in ascending order of their keys.
    InvalidMintOrdering,
    /// The caller holds fewer shares than it wants to burn.
    InsufficientLPTokens,
    /// No share of the pool is outstanding.
    EmptyPool,
    /// The burn is below the floor, or would pay out nothing of one token.
    WithdrawalTooSmall,
    /// An amount offered is zero.
    InvalidAmount,
}

impl DEXError {
    /// The text shown to a user for this error.
    pub open spec fn message_text(self) -> Seq<char> {
        match self {
            DEXError::InvalidBPSValue => "invalid bps value passed (more then 100 percent)"@,
            DEXError::MathOverflow => "Math overflow ;("@,
            DEXError::InvalidAmountOfLiquidation => "Invalid amount of liquidation deposited. Not enough tokens"@,
            DEXError::InvalidMintOrdering => "Invalid Mint Ordering. Swap the places of the mint"@,
            DEXError::InsufficientLPTokens => "Insufficient LP tokens to withdraw"@,
            DEXError::EmptyPool => "Cannot withdraw from empty pool"@,
            DEXError::WithdrawalTooSmall => "Withdrawal amount too small"@,
            DEXError::InvalidAmount => "Invalid amount. It must be above zero"@,
        }
    }

    /// The text shown to a user for this error.
    pub fn message(&self) -> (text: &'static str)
        ensures
            text@ == self.message_text(),
    {
        match self {
            DEXError::InvalidBPSValue => "invalid bps value passed (more then 100 percent)",
            DEXError::MathOverflow => "Math overflow ;(",
            DEXError::InvalidAmountOfLiquidation => "Invalid amount of liquidation deposited. Not enough tokens",
            DEXError::InvalidMintOrdering => "Invalid Mint Ordering. Swap the places of the mint",
            DEXError::InsufficientLPTokens => "Insufficient LP tokens to withdraw",
            DEXError::EmptyPool => "Cannot withdraw from empty pool",
            DEXError::WithdrawalTooSmall => "Withdrawal amount too small",
            DEXError::InvalidAmount => "Invalid amount. It must be above zero",
        }
    }
}

} // verus!
