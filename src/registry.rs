use vstd::prelude::*;

use crate::types::{Address, PoolInfo, RouterError};

verus! {

/// No two entries of the registry share a pool identifier.
pub open spec fn keys_unique(s: Seq<(Address, PoolInfo)>) -> bool {
    forall|i: int, j: int| 0 <= i < j < s.len() ==> s[i].0 != s[j].0
}

/// Every pool's fee is below the whole amount.
pub open spec fn fees_valid(s: Seq<(Address, PoolInfo)>) -> bool {
    forall|i: int| 0 <= i < s.len() ==> (#[trigger] s[i]).1.fee_rate < 10000
}

/// The registry entries read as a map from pool identifier to pool record.
pub open spec fn pool_map(s: Seq<(Address, PoolInfo)>) -> Map<Address, PoolInfo>
    decreases s.len(),
{
    if s.len() == 0 {
        Map::empty()
    } else {
        pool_map(s.drop_last()).insert(s.last().0, s.last().1)
    }
}

/// `info` with its two reserves replaced.
pub open spec fn with_reserves(info: PoolInfo, reserve_a: u128, reserve_b: u128) -> PoolInfo {
    PoolInfo { reserve_a, reserve_b, ..info }
}

/// An entry of a registry with unique keys is what the map holds for its key.
pub proof fn lemma_pool_map_entry(s: Seq<(Address, PoolInfo)>, i: int)
    requires
        keys_unique(s),
        0 <= i < s.len(),
    ensures
        pool_map(s).contains_key(s[i].0),
        pool_map(s)[s[i].0] == s[i].1,
    decreases s.len(),
{
    if i < s.len() - 1 {
        let d = s.drop_last();
        assert(d[i] == s[i]);
        assert(keys_unique(d));
        lemma_pool_map_entry(d, i);
        assert(s.last().0 != s[i].0);
    }
}

/// A key held by no entry is not in the map.
pub proof fn lemma_pool_map_absent(s: Seq<(Address, PoolInfo)>, k: Address)
    requires
        forall|i: int| 0 <= i < s.len() ==> s[i].0 != k,
    ensures
        !pool_map(s).contains_key(k),
    decreases s.len(),
{
    if s.len() > 0 {
        let d = s.drop_last();
        assert forall|i: int| 0 <= i < d.len() implies d[i].0 != k by {
            assert(d[i] == s[i]);
        }
        lemma_pool_map_absent(d, k);
        assert(s[s.len() - 1].0 != k);
    }
}

/// Replacing the entry of a key acts on the map as an insert of that key.
proof fn lemma_pool_map_replace(s: Seq<(Address, PoolInfo)>, i: int, e: (Address, PoolInfo))
    requires
        keys_unique(s),
        0 <= i < s.len(),
        s[i].0 == e.0,
    ensures
        pool_map(s.update(i, e)) == pool_map(s).insert(e.0, e.1),
    decreases s.len(),
{
    let u = s.update(i, e);
    let d = s.drop_last();
    if i == s.len() - 1 {
        assert(u.drop_last() =~= d);
        assert(pool_map(u) =~= pool_map(s).insert(e.0, e.1));
    } else {
        assert(u.drop_last() =~= d.update(i, e));
        assert(keys_unique(d));
        lemma_pool_map_replace(d, i, e);
        assert(s.last().0 != s[i].0);
        assert(u.last() == s.last());
        assert(pool_map(u) =~= pool_map(s).insert(e.0, e.1));
    }
}

/// A pool that was just added reads back with exactly the fields it was
/// added with.
pub proof fn lemma_added_pool_reads_back(
    before: SwapRouter,
    after: SwapRouter,
    pool_address: Address,
    info: PoolInfo,
)
    requires
        after@ == before@.insert(pool_address, info),
    ensures
        after.spec_pool(pool_address) == Some(info),
{
}

/// Queries are functions of the registry: two routers whose registries
/// agree, as one router does between two queries with no change in
/// between, answer every lookup and snapshot alike.
pub proof fn lemma_queries_repeatable(a: SwapRouter, b: SwapRouter, pool_address: Address)
    requires
        a.entries() == b.entries(),
    ensures
        a.spec_pool(pool_address) == b.spec_pool(pool_address),
        a@ == b@,
{
}

/// The router's state: the administrator, once set, and the pool registry
/// in the order the pools were first added.
pub struct SwapRouter {
    admin: Option<Address>,
    pools: Vec<(Address, PoolInfo)>,
}

impl View for SwapRouter {
    type V = Map<Address, PoolInfo>;

    /// The registry as a map from pool identifier to pool record.
    open spec fn view(&self) -> Map<Address, PoolInfo> {
        pool_map(self.entries())
    }
}

impl SwapRouter {
    /// The registry entries in iteration order.
    pub closed spec fn entries(&self) -> Seq<(Address, PoolInfo)> {
        self.pools@
    }

    /// The administrator, if one was set.
    pub closed spec fn admin(&self) -> Option<Address> {
        self.admin
    }

    /// Pool identifiers are unique and every fee is below the whole amount.
    pub open spec fn wf(&self) -> bool {
        keys_unique(self.entries()) && fees_valid(self.entries())
    }

    /// What the registry holds under `pool_address`.
    pub open spec fn spec_pool(&self, pool_address: Address) -> Option<PoolInfo> {
        if self@.contains_key(pool_address) {
            Some(self@[pool_address])
        } else {
            None
        }
    }

    /// A router with no administrator and no pools.
    pub fn new() -> (r: SwapRouter)
        ensures
            r.wf(),
            r.admin() == None::<Address>,
            r.entries() == Seq::<(Address, PoolInfo)>::empty(),
    {
        SwapRouter { admin: None, pools: Vec::new() }
    }

    /// Sets the administrator. A second call replaces the first one's
    /// administrator; the registry is kept.
    pub fn initialize(&mut self, admin: Address)
        ensures
            final(self).admin() == Some(admin),
            final(self).entries() == old(self).entries(),
    {
        self.admin = Some(admin);
    }

    /// The position of `pool_address` in the registry, if it is there.
    fn find_index(&self, pool_address: Address) -> (r: Option<usize>)
        ensures
            match r {
                Some(i) => i < self.entries().len() && self.entries()[i as int].0 == pool_address,
                None => forall|i: int|
                    0 <= i < self.entries().len() ==> self.entries()[i].0 != pool_address,
            },
    {
        let mut i: usize = 0;
        while i < self.pools.len()
            invariant
                i <= self.pools@.len(),
                forall|j: int| 0 <= j < i ==> self.pools@[j].0 != pool_address,
            decreases self.pools@.len() - i,
        {
            if self.pools[i].0 == pool_address {
                return Some(i);
            }
            i = i + 1;
        }
        None
    }

    /// Registers the pool at `pool_address`, or replaces its record in
    /// place. Only the administrator may do so.
    pub fn add_pool(
        &mut self,
        admin: Address,
        pool_address: Address,
        token_a: Address,
        token_b: Address,
        reserve_a: u128,
        reserve_b: u128,
        fee_rate: u32,
    ) -> (r: Result<(), RouterError>)
        requires
            old(self).wf(),
            fee_rate < 10000,
        ensures
            final(self).wf(),
            final(self).admin() == old(self).admin(),
            r is Ok <==> old(self).admin() == Some(admin),
            r is Err ==> r == Err::<(), RouterError>(RouterError::Unauthorized) && final(self).entries()
                == old(self).entries(),
            r is Ok ==> final(self)@ == old(self)@.insert(
                pool_address,
                (PoolInfo { token_a, token_b, reserve_a, reserve_b, fee_rate }),
            ),
            r is Ok && !old(self)@.contains_key(pool_address) ==> final(self).entries() == old(
                self,
            ).entries().push(
                (pool_address, (PoolInfo { token_a, token_b, reserve_a, reserve_b, fee_rate })),
            ),
            r is Ok && old(self)@.contains_key(pool_address) ==> final(self).entries().len()
                == old(self).entries().len() && forall|i: int|
                0 <= i < old(self).entries().len() ==> #[trigger] final(self).entries()[i] == if old(
                    self,
                ).entries()[i].0 == pool_address {
                    (pool_address, (PoolInfo { token_a, token_b, reserve_a, reserve_b, fee_rate }))
                } else {
                    old(self).entries()[i]
                },
    {
        match self.admin {
            Some(stored) => {
                if stored != admin {
                    return Err(RouterError::Unauthorized);
                }
            },
            None => {
                return Err(RouterError::Unauthorized);
            },
        }
        let info = PoolInfo { token_a, token_b, reserve_a, reserve_b, fee_rate };
        let e = (pool_address, info);
        match self.find_index(pool_address) {
            Some(i) => {
                proof {
                    lemma_pool_map_replace(self.pools@, i as int, e);
                }
                self.pools.set(i, e);
                proof {
                    lemma_pool_map_entry(old(self).pools@, i as int);
                }
            },
            None => {
                proof {
                    lemma_pool_map_absent(self.pools@, pool_address);
                }
                self.pools.push(e);
                proof {
                    assert(self.pools@.drop_last() =~= old(self).pools@);
                }
            },
        }
        Ok(())
    }

    /// The record of the pool at `pool_address`, if it is registered.
    pub fn get_pool(&self, pool_address: Address) -> (r: Option<PoolInfo>)
        requires
            self.wf(),
        ensures
            r == self.spec_pool(pool_address),
    {
        match self.find_index(pool_address) {
            Some(i) => {
                proof {
                    lemma_pool_map_entry(self.pools@, i as int);
                }
                Some(self.pools[i].1)
            },
            None => {
                proof {
                    lemma_pool_map_absent(self.pools@, pool_address);
                }
                None
            },
        }
    }

    /// A snapshot of every registry entry, in iteration order.
    pub fn get_all_pools(&self) -> (r: Vec<(Address, PoolInfo)>)
        ensures
            r@ == self.entries(),
    {
        let mut out: Vec<(Address, PoolInfo)> = Vec::new();
        let mut i: usize = 0;
        while i < self.pools.len()
            invariant
                i <= self.pools@.len(),
                out@ == self.pools@.subrange(0, i as int),
            decreases self.pools@.len() - i,
        {
            out.push(self.pools[i]);
            i = i + 1;
            proof {
                assert(out@ =~= self.pools@.subrange(0, i as int));
            }
        }
        proof {
            assert(out@ =~= self.pools@);
        }
        out
    }

    /// Replaces the two reserves of the pool at `pool_address`, keeping its
    /// tokens and fee; does nothing when no such pool is registered. No
    /// identity is checked here: any caller may move reserves.
    pub fn update_pool_reserves(&mut self, pool_address: Address, new_reserve_a: u128, new_reserve_b: u128)
        requires
            old(self).wf(),
        ensures
            final(self).wf(),
            final(self).admin() == old(self).admin(),
            final(self)@ == if old(self)@.contains_key(pool_address) {
                old(self)@.insert(
                    pool_address,
                    with_reserves(old(self)@[pool_address], new_reserve_a, new_reserve_b),
                )
            } else {
                old(self)@
            },
            final(self).entries().len() == old(self).entries().len(),
            forall|i: int|
                0 <= i < old(self).entries().len() ==> #[trigger] final(self).entries()[i] == if old(
                    self,
                ).entries()[i].0 == pool_address {
                    (
                        pool_address,
                        with_reserves(old(self).entries()[i].1, new_reserve_a, new_reserve_b),
                    )
                } else {
                    old(self).entries()[i]
                },
    {
        match self.find_index(pool_address) {
            Some(i) => {
                let info = self.pools[i].1;
                let e = (pool_address, PoolInfo { reserve_a: new_reserve_a, reserve_b: new_reserve_b, ..info });
                proof {
                    lemma_pool_map_entry(self.pools@, i as int);
                    lemma_pool_map_replace(self.pools@, i as int, e);
                }
                self.pools.set(i, e);
            },
            None => {
                proof {
                    lemma_pool_map_absent(self.pools@, pool_address);
                }
            },
        }
    }
}

} // verus!
