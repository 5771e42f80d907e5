use vstd::prelude::*;

use crate::registry::SwapRouter;
use crate::types::{Address, PoolInfo, SwapRoute};

verus! {

/// The pool trades `x` against `y`, in either direction.
pub open spec fn pair_matches(info: PoolInfo, x: Address, y: Address) -> bool {
    (info.token_a == x && info.token_b == y) || (info.token_a == y && info.token_b == x)
}

/// Entry `i` is the first entry whose pool trades `x` against `y`.
pub open spec fn is_first_match(s: Seq<(Address, PoolInfo)>, i: int, x: Address, y: Address) -> bool {
    &&& 0 <= i < s.len()
    &&& pair_matches(s[i].1, x, y)
    &&& forall|j: int| 0 <= j < i ==> !pair_matches(#[trigger] s[j].1, x, y)
}

/// At most one entry is the first to match a pair.
pub proof fn lemma_first_match_unique(s: Seq<(Address, PoolInfo)>, i: int, j: int, x: Address, y: Address)
    requires
        is_first_match(s, i, x, y),
        is_first_match(s, j, x, y),
    ensures
        i == j,
{
    if i < j {
        assert(!pair_matches(s[i].1, x, y));
    } else if j < i {
        assert(!pair_matches(s[j].1, x, y));
    }
}

/// Route resolution does not depend on the order in which the two tokens
/// are given: the first pool found for (a, b) is the first found for (b, a),
/// and its token set is exactly {a, b}.
pub proof fn lemma_route_either_order(s: Seq<(Address, PoolInfo)>, i: int, a: Address, b: Address)
    requires
        is_first_match(s, i, a, b),
    ensures
        is_first_match(s, i, b, a),
        set![s[i].1.token_a, s[i].1.token_b] == set![a, b],
{
    assert forall|j: int| 0 <= j < i implies !pair_matches(#[trigger] s[j].1, b, a) by {
        assert(!pair_matches(s[j].1, a, b));
    }
    assert(set![s[i].1.token_a, s[i].1.token_b] =~= set![a, b]);
}

impl SwapRouter {
    /// The direct route from `token_in` to `token_out`: the first registered
    /// pool, in iteration order, that trades the two tokens in either
    /// direction, or `None` where no pool does. `amount_in` does not affect
    /// the choice.
    pub fn calculate_route(&self, token_in: Address, token_out: Address, amount_in: u128) -> (r: Option<
        SwapRoute,
    >)
        ensures
            match r {
                None => forall|i: int|
                    0 <= i < self.entries().len() ==> !pair_matches(
                        #[trigger] self.entries()[i].1,
                        token_in,
                        token_out,
                    ),
                Some(route) => exists|i: int|
                    #[trigger] is_first_match(self.entries(), i, token_in, token_out)
                        && route.pools@ == seq![self.entries()[i].0] && route.tokens@ == seq![
                        token_in,
                        token_out,
                    ],
            },
    {
        let all = self.get_all_pools();
        let mut i: usize = 0;
        while i < all.len()
            invariant
                all@ == self.entries(),
                i <= all@.len(),
                forall|j: int| 0 <= j < i ==> !pair_matches(#[trigger] all@[j].1, token_in, token_out),
            decreases all@.len() - i,
        {
            let entry = all[i];
            let info = entry.1;
            if (info.token_a == token_in && info.token_b == token_out) || (info.token_a == token_out
                && info.token_b == token_in) {
                let mut pools: Vec<Address> = Vec::new();
                let mut tokens: Vec<Address> = Vec::new();
                pools.push(entry.0);
                tokens.push(token_in);
                tokens.push(token_out);
                proof {
                    assert(is_first_match(self.entries(), i as int, token_in, token_out));
                    assert(pools@ =~= seq![self.entries()[i as int].0]);
                    assert(tokens@ =~= seq![token_in, token_out]);
                }
                return Some(SwapRoute { pools, tokens });
            }
            i = i + 1;
        }
        None
    }
}

} // verus!
