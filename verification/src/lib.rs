//! Pricing and accounting core of a two-asset constant-product market maker.
//!
//! Every operation is a pure function of a snapshot of the pool (its two
//! reserves and the supply of its share token) and of the amounts a caller
//! offers. It returns the amounts to move, or the reason why nothing may move.
pub mod constants;
pub mod errors;
pub mod instructions;
pub mod invariants;
pub mod state;
pub mod utils;
