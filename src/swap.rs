use vstd::prelude::*;

use crate::pricing::{amount_out, fee_adjusted};
use crate::registry::{lemma_pool_map_entry, SwapRouter};
use crate::route::{is_first_match, lemma_first_match_unique, pair_matches};
use crate::types::{PoolInfo, RouterError, SwapParams};

verus! {

/// The pool's reserves as (input side, output side) for a trade that sells
/// `p.token_a`.
pub open spec fn oriented_reserves(info: PoolInfo, p: SwapParams) -> (u128, u128) {
    if info.token_a == p.token_a {
        (info.reserve_a, info.reserve_b)
    } else {
        (info.reserve_b, info.reserve_a)
    }
}

/// The output the pool gives for the trade.
pub open spec fn quoted_output(info: PoolInfo, p: SwapParams) -> int {
    let (rin, rout) = oriented_reserves(info, p);
    amount_out(p.amount_in as int, rin as int, rout as int, info.fee_rate as int)
}

/// The outcome of the trade against the pool: the quoted output, unless it
/// falls below the requested minimum.
pub open spec fn swap_result(info: PoolInfo, p: SwapParams) -> Result<u128, RouterError> {
    if quoted_output(info, p) < p.amount_out_min {
        Err(RouterError::InsufficientOutputAmount)
    } else {
        Ok(quoted_output(info, p) as u128)
    }
}

/// A minimum at or below the quoted output is met: the trade succeeds and
/// pays at least that minimum.
pub proof fn lemma_swap_min_met(info: PoolInfo, p: SwapParams)
    requires
        info.fee_rate < 10000,
        p.amount_out_min <= quoted_output(info, p),
    ensures
        swap_result(info, p) is Ok,
        swap_result(info, p)->Ok_0 >= p.amount_out_min,
{
    let (rin, rout) = oriented_reserves(info, p);
    lemma_quote_bounded(p.amount_in as int, rin as int, rout as int, info.fee_rate as int);
}

/// A minimum above the quoted output is refused as insufficient output.
pub proof fn lemma_swap_min_missed(info: PoolInfo, p: SwapParams)
    requires
        p.amount_out_min > quoted_output(info, p),
    ensures
        swap_result(info, p) == Err::<u128, RouterError>(RouterError::InsufficientOutputAmount),
{
}

/// The constant-product output is never negative, never exceeds the output
/// reserve, and never exceeds the exact rational value
/// `w * reserve_out / (reserve_in + w)` of the fee-adjusted input `w`.
pub proof fn lemma_quote_bounded(amount_in: int, reserve_in: int, reserve_out: int, fee_rate: int)
    requires
        0 <= amount_in,
        0 <= reserve_in,
        0 <= reserve_out,
        0 <= fee_rate <= 10000,
    ensures
        0 <= amount_out(amount_in, reserve_in, reserve_out, fee_rate) <= reserve_out,
        amount_out(amount_in, reserve_in, reserve_out, fee_rate) * (reserve_in + fee_adjusted(
            amount_in,
            fee_rate,
        )) <= fee_adjusted(amount_in, fee_rate) * reserve_out,
{
    if amount_in != 0 && reserve_in != 0 && reserve_out != 0 {
        let w = fee_adjusted(amount_in, fee_rate);
        assert(0 <= amount_in * (10000 - fee_rate)) by (nonlinear_arith)
            requires
                0 <= amount_in,
                fee_rate <= 10000,
        ;
        assert(0 <= w * reserve_out / (reserve_in + w) <= reserve_out) by (nonlinear_arith)
            requires
                0 <= w,
                0 < reserve_in,
                0 <= reserve_out,
        ;
        assert((w * reserve_out / (reserve_in + w)) * (reserve_in + w) <= w * reserve_out)
            by (nonlinear_arith)
            requires
                0 <= w,
                0 < reserve_in,
                0 <= reserve_out,
        ;
    } else {
        assert(0 * (reserve_in + fee_adjusted(amount_in, fee_rate)) == 0);
        assert(fee_adjusted(amount_in, fee_rate) * reserve_out >= 0) by (nonlinear_arith)
            requires
                0 <= amount_in,
                0 <= reserve_out,
                fee_rate <= 10000,
        ;
    }
}

impl SwapRouter {
    /// Executes a single-hop trade at time `now`: refused as expired past
    /// the deadline, as unroutable where no pool trades the pair, and
    /// otherwise priced against the first matching pool with the reserves
    /// oriented by the token sold. Nothing is moved: the result is the
    /// amount the trade pays.
    pub fn swap_exact_tokens_for_tokens(&self, swap_params: SwapParams, now: u64) -> (r: Result<
        u128,
        RouterError,
    >)
        requires
            self.wf(),
        ensures
            now > swap_params.deadline ==> r == Err::<u128, RouterError>(RouterError::Expired),
            now <= swap_params.deadline && (forall|i: int|
                0 <= i < self.entries().len() ==> !pair_matches(
                    #[trigger] self.entries()[i].1,
                    swap_params.token_a,
                    swap_params.token_b,
                )) ==> r == Err::<u128, RouterError>(RouterError::NoRoute),
            forall|i: int|
                now <= swap_params.deadline && #[trigger] is_first_match(
                    self.entries(),
                    i,
                    swap_params.token_a,
                    swap_params.token_b,
                ) ==> r == swap_result(self.entries()[i].1, swap_params),
    {
        if now > swap_params.deadline {
            return Err(RouterError::Expired);
        }
        let route = match self.calculate_route(
            swap_params.token_a,
            swap_params.token_b,
            swap_params.amount_in,
        ) {
            Some(route) => route,
            None => {
                return Err(RouterError::NoRoute);
            },
        };
        if route.pools.len() != 1 {
            return Err(RouterError::MultiHopUnsupported);
        }
        let ghost s = self.entries();
        let ghost k = choose|k: int|
            #[trigger] is_first_match(s, k, swap_params.token_a, swap_params.token_b)
                && route.pools@ == seq![s[k].0];
        proof {
            lemma_pool_map_entry(s, k);
            assert forall|i: int|
                #[trigger] is_first_match(s, i, swap_params.token_a, swap_params.token_b) implies i
                == k by {
                lemma_first_match_unique(s, i, k, swap_params.token_a, swap_params.token_b);
            }
        }
        let pool_address = route.pools[0];
        let info = match self.get_pool(pool_address) {
            Some(info) => info,
            None => {
                return Err(RouterError::NoRoute);
            },
        };
        assert(info == s[k].1);
        assert(info.fee_rate < 10000);
        let (reserve_in, reserve_out) = if info.token_a == swap_params.token_a {
            (info.reserve_a, info.reserve_b)
        } else {
            (info.reserve_b, info.reserve_a)
        };
        let amount_out = SwapRouter::get_amount_out(
            swap_params.amount_in,
            reserve_in,
            reserve_out,
            info.fee_rate,
        );
        if amount_out < swap_params.amount_out_min {
            return Err(RouterError::InsufficientOutputAmount);
        }
        Ok(amount_out)
    }
}

} // verus!
