use vstd::prelude::*;

verus! {

/// The identity of an account or a contract: its 32-byte key, split into
/// a high and a low half, and whether it names a contract.
#[derive(Clone, Copy, Debug, PartialEq, Eq, Structural, Hash)]
pub struct Address {
    pub contract: bool,
    pub hi: u128,
    pub lo: u128,
}

/// One liquidity pool: its two tokens, their reserves and its fee in basis
/// points (10000 basis points make the whole amount).
#[derive(Clone, Copy, Debug, PartialEq, Eq, Structural)]
pub struct PoolInfo {
    pub token_a: Address,
    pub token_b: Address,
    pub reserve_a: u128,
    pub reserve_b: u128,
    pub fee_rate: u32,
}

/// A requested trade: sell `amount_in` of `token_a` for at least
/// `amount_out_min` of `token_b`, no later than `deadline`.
#[derive(Clone, Copy, Debug, PartialEq, Eq, Structural)]
pub struct SwapParams {
    pub token_a: Address,
    pub token_b: Address,
    pub amount_in: u128,
    pub amount_out_min: u128,
    pub to: Address,
    pub deadline: u64,
}

/// A resolved route: the pools crossed, in order, and the tokens traversed
/// (one more token than pools).
#[derive(Clone, Debug, PartialEq, Eq)]
pub struct SwapRoute {
    pub pools: Vec<Address>,
    pub tokens: Vec<Address>,
}

/// Why a router operation was refused. Every refusal leaves the router
/// unchanged.
#[derive(Clone, Copy, Debug, PartialEq, Eq, Structural)]
pub enum RouterError {
    /// The caller is not the administrator, or none was set.
    Unauthorized,
    /// The current time is past the request's deadline.
    Expired,
    /// No pool trades the requested pair of tokens.
    NoRoute,
    /// The route crosses more than one pool.
    MultiHopUnsupported,
    /// The computed output is below the requested minimum.
    InsufficientOutputAmount,
}

} // verus!
