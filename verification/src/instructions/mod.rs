pub mod init_liquidity_pool;

pub use init_liquidity_pool::{initialize_liquidity_pool, InitializeLiquidityPool};

pub mod withdraw_liquidity;

pub use withdraw_liquidity::{withdraw_liquidity_from_pool, WithdrawLiquidityFromPool};

pub mod exchange_tokens;

pub use exchange_tokens::{exchange_tokens, ExchangeTokens};

pub mod add_liquidity;

pub use add_liquidity::{add_liquidity_to_pool, AddLiquidityToPool};
