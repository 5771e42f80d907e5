//! A constant-product swap router: a registry of liquidity pools, exact
//! integer pricing, direct route resolution and guarded single-hop swaps.
mod pricing;
mod registry;
mod route;
mod swap;
mod types;

pub use pricing::{amount_out, fee_adjusted, wide, word};
pub use registry::{
    fees_valid, keys_unique, lemma_added_pool_reads_back, lemma_pool_map_absent, lemma_pool_map_entry, lemma_queries_repeatable,
    pool_map, with_reserves,
    SwapRouter,
};
pub use route::{is_first_match, lemma_first_match_unique, lemma_route_either_order, pair_matches};
pub use swap::{
    lemma_quote_bounded, lemma_swap_min_met, lemma_swap_min_missed, oriented_reserves,
    quoted_output, swap_result,
};
pub use types::{Address, PoolInfo, RouterError, SwapParams, SwapRoute};
