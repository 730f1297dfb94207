use vstd::prelude::*;

use crate::errors::AmmError;
use crate::ids::{AssetId, UserId};
use crate::pool::{
    spec_add_liquidity, spec_remove_liquidity, spec_swap, LiquidityPool, TokenPair,
};
use vstd::pervasive::VecAdditionalExecFns;

verus! {

/// Whether pool `p` serves the unordered pair of `token_a` and `token_b`.
pub open spec fn pair_matches(p: LiquidityPool, token_a: AssetId, token_b: AssetId) -> bool {
    (p.asset_a == token_a && p.asset_b == token_b) || (p.asset_a == token_b && p.asset_b
        == token_a)
}

/// Every pool in the registry is well-formed.
pub open spec fn pools_wf(pools: Seq<LiquidityPool>) -> bool {
    forall|i: int| 0 <= i < pools.len() ==> (#[trigger] pools[i]).wf()
}

/// No two pools serve the same unordered pair.
pub open spec fn pools_unique(pools: Seq<LiquidityPool>) -> bool {
    forall|i: int, j: int|
        #![trigger pools[i], pools[j]]
        0 <= i < j < pools.len() ==> !pair_matches(pools[j], pools[i].asset_a, pools[i].asset_b)
}

/// Replacing one pool with a pool over the same two assets keeps the
/// registry's well-formedness and uniqueness.
pub proof fn lemma_pools_update_keeps_registry(
    pre: Seq<LiquidityPool>,
    post: Seq<LiquidityPool>,
    k: int,
)
    requires
        pools_wf(pre),
        pools_unique(pre),
        post.len() == pre.len(),
        0 <= k < pre.len(),
        forall|i: int| 0 <= i < pre.len() && i != k ==> post[i] == pre[i],
        post[k].wf(),
        post[k].asset_a == pre[k].asset_a,
        post[k].asset_b == pre[k].asset_b,
    ensures
        pools_wf(post),
        pools_unique(post),
{
    assert forall|i: int| 0 <= i < post.len() implies (#[trigger] post[i]).wf() by {
        if i != k {
            assert(post[i] == pre[i]);
        }
    };
    assert forall|i: int, j: int|
        #![trigger post[i], post[j]]
        0 <= i < j < post.len() implies !pair_matches(
        post[j],
        post[i].asset_a,
        post[i].asset_b,
    ) by {
        assert(!pair_matches(pre[j], pre[i].asset_a, pre[i].asset_b));
        if i != k {
            assert(post[i] == pre[i]);
        }
        if j != k {
            assert(post[j] == pre[j]);
        }
    };
}

/// Appending a pool over a pair that no registered pool serves keeps the
/// registry's well-formedness and uniqueness.
pub proof fn lemma_pools_push_keeps_registry(pre: Seq<LiquidityPool>, p: LiquidityPool)
    requires
        pools_wf(pre),
        pools_unique(pre),
        p.wf(),
        forall|j: int| 0 <= j < pre.len() ==> !pair_matches(#[trigger] pre[j], p.asset_a, p.asset_b),
    ensures
        pools_wf(pre.push(p)),
        pools_unique(pre.push(p)),
{
    let post = pre.push(p);
    assert forall|i: int| 0 <= i < post.len() implies (#[trigger] post[i]).wf() by {
        if i < pre.len() {
            assert(post[i] == pre[i]);
        }
    };
    assert forall|i: int, j: int|
        #![trigger post[i], post[j]]
        0 <= i < j < post.len() implies !pair_matches(
        post[j],
        post[i].asset_a,
        post[i].asset_b,
    ) by {
        if j == pre.len() {
            assert(post[i] == pre[i]);
            assert(!pair_matches(pre[i], p.asset_a, p.asset_b));
        } else {
            assert(post[i] == pre[i] && post[j] == pre[j]);
            assert(!pair_matches(pre[j], pre[i].asset_a, pre[i].asset_b));
        }
    };
}

/// Index of the first pool serving the unordered pair, in registration
/// order.
pub fn find_pair_index(pools: &Vec<LiquidityPool>, token_a: AssetId, token_b: AssetId) -> (found:
    Option<usize>)
    ensures
        (match found {
            Some(i) => i < pools@.len() && pair_matches(pools@[i as int], token_a, token_b) && (
            forall|j: int| 0 <= j < i ==> !pair_matches(#[trigger] pools@[j], token_a, token_b)),
            None => forall|j: int|
                0 <= j < pools@.len() ==> !pair_matches(#[trigger] pools@[j], token_a, token_b),
        }),
{
    let n: usize = pools.len();
    let mut i: usize = 0;
    while i < n
        invariant
            i <= n,
            n == pools@.len(),
            forall|j: int| 0 <= j < i ==> !pair_matches(#[trigger] pools@[j], token_a, token_b),
        decreases n - i,
    {
        let p: LiquidityPool = pools[i];
        if (p.asset_a == token_a && p.asset_b == token_b) || (p.asset_a == token_b && p.asset_b
            == token_a) {
            return Some(i);
        }
        i = i + 1;
    }
    None
}

/// The pair factory: register a pair once, look its pool up thereafter.
pub trait PairFactory {
    fn create_pair(&mut self, token_a: AssetId, token_b: AssetId) -> Result<usize, AmmError>;

    fn get_pair(&self, token_a: AssetId, token_b: AssetId) -> Result<usize, AmmError>;
}

/// The registry of pools, one per unordered pair of distinct assets. A
/// pool's identity is its index in registration order; entries are created
/// once and never removed.
pub struct Factory {
    pub pools: Vec<LiquidityPool>,
}

impl Factory {
    /// Every pool well-formed, and one pool per unordered pair.
    pub open spec fn wf(self) -> bool {
        pools_wf(self.pools@) && pools_unique(self.pools@)
    }

    /// Whether some registered pool serves the unordered pair.
    pub open spec fn spec_has_pair(self, token_a: AssetId, token_b: AssetId) -> bool {
        exists|i: int|
            0 <= i < self.pools@.len() && pair_matches(
                #[trigger] self.pools@[i],
                token_a,
                token_b,
            )
    }

    /// An empty registry.
    pub fn new() -> (factory: Factory)
        ensures
            factory.pools@.len() == 0,
            factory.wf(),
    {
        Factory { pools: Vec::new() }
    }

    /// Number of pools created so far; pool ids are `0 .. pool_count()`.
    pub fn pool_count(&self) -> (n: usize)
        ensures
            n == self.pools@.len(),
    {
        self.pools.len()
    }

    /// The pool registered under id `pool`, if that id is in range.
    pub fn get_pool(&self, pool: usize) -> (found: Option<&LiquidityPool>)
        ensures
            (match found {
                Some(p) => pool < self.pools@.len() && *p == self.pools@[pool as int],
                None => pool >= self.pools@.len(),
            }),
    {
        if pool < self.pools.len() {
            Some(&self.pools[pool])
        } else {
            None
        }
    }

    /// Deposit into the pool registered under `pool`, as
    /// `LiquidityPool::add_liquidity` does; every other pool is untouched.
    pub fn add_liquidity(&mut self, pool: usize, amount_a: u64, amount_b: u64, user: UserId) -> (
    result: Result<u64, AmmError>)
        ensures
            old(self).wf() ==> final(self).wf(),
            pool >= old(self).pools@.len() ==> result == Err::<u64, AmmError>(
                AmmError::PairNotFound,
            ) && *final(self) == *old(self),
            pool < old(self).pools@.len() ==> (match spec_add_liquidity(
                old(self).pools@[pool as int],
                amount_a,
                amount_b,
            ) {
                Ok((p, minted)) => result == Ok::<u64, AmmError>(minted) && final(self).pools@
                    == old(self).pools@.update(pool as int, p),
                Err(e) => result == Err::<u64, AmmError>(e) && *final(self) == *old(self),
            }),
    {
        if pool >= self.pools.len() {
            return Err(AmmError::PairNotFound);
        }
        let mut entry: LiquidityPool = self.pools[pool];
        let result = entry.add_liquidity(amount_a, amount_b, user);
        match result {
            Ok(minted) => {
                self.pools.set(pool, entry);
                proof {
                    if old(self).wf() {
                        lemma_pools_update_keeps_registry(
                            old(self).pools@,
                            self.pools@,
                            pool as int,
                        );
                    }
                }
                Ok(minted)
            },
            Err(e) => Err(e),
        }
    }

    /// Withdraw from the pool registered under `pool`, as
    /// `LiquidityPool::remove_liquidity` does; every other pool is
    /// untouched.
    pub fn remove_liquidity(&mut self, pool: usize, lp_tokens: u64, user: UserId) -> (result:
        Result<(u64, u64), AmmError>)
        ensures
            old(self).wf() ==> final(self).wf(),
            pool >= old(self).pools@.len() ==> result == Err::<(u64, u64), AmmError>(
                AmmError::PairNotFound,
            ) && *final(self) == *old(self),
            pool < old(self).pools@.len() ==> (match spec_remove_liquidity(
                old(self).pools@[pool as int],
                lp_tokens,
            ) {
                Ok((p, amounts)) => result == Ok::<(u64, u64), AmmError>(amounts)
                    && final(self).pools@ == old(self).pools@.update(pool as int, p),
                Err(e) => result == Err::<(u64, u64), AmmError>(e) && *final(self) == *old(self),
            }),
    {
        if pool >= self.pools.len() {
            return Err(AmmError::PairNotFound);
        }
        let mut entry: LiquidityPool = self.pools[pool];
        let result = entry.remove_liquidity(lp_tokens, user);
        match result {
            Ok(amounts) => {
                self.pools.set(pool, entry);
                proof {
                    if old(self).wf() {
                        lemma_pools_update_keeps_registry(
                            old(self).pools@,
                            self.pools@,
                            pool as int,
                        );
                    }
                }
                Ok(amounts)
            },
            Err(e) => Err(e),
        }
    }

    /// Swap against the pool registered under `pool`, as
    /// `LiquidityPool::swap` does; every other pool is untouched.
    pub fn swap(&mut self, pool: usize, token_in: AssetId, amount_in: u64, user: UserId) -> (
    result: Result<u64, AmmError>)
        ensures
            old(self).wf() ==> final(self).wf(),
            pool >= old(self).pools@.len() ==> result == Err::<u64, AmmError>(
                AmmError::PairNotFound,
            ) && *final(self) == *old(self),
            pool < old(self).pools@.len() ==> (match spec_swap(
                old(self).pools@[pool as int],
                token_in,
                amount_in,
            ) {
                Ok((p, out)) => result == Ok::<u64, AmmError>(out)
                    && final(self).pools@ == old(self).pools@.update(pool as int, p),
                Err(e) => result == Err::<u64, AmmError>(e) && *final(self) == *old(self),
            }),
    {
        if pool >= self.pools.len() {
            return Err(AmmError::PairNotFound);
        }
        let mut entry: LiquidityPool = self.pools[pool];
        let result = entry.swap(token_in, amount_in, user);
        match result {
            Ok(out) => {
                self.pools.set(pool, entry);
                proof {
                    if old(self).wf() {
                        lemma_pools_update_keeps_registry(
                            old(self).pools@,
                            self.pools@,
                            pool as int,
                        );
                    }
                }
                Ok(out)
            },
            Err(e) => Err(e),
        }
    }

    /// The reserves of the pool registered under `pool`.
    pub fn get_reserves(&self, pool: usize) -> (result: Result<(u64, u64), AmmError>)
        ensures
            pool >= self.pools@.len() ==> result == Err::<(u64, u64), AmmError>(
                AmmError::PairNotFound,
            ),
            pool < self.pools@.len() ==> result == Ok::<(u64, u64), AmmError>(
                (self.pools@[pool as int].reserve_a, self.pools@[pool as int].reserve_b),
            ),
    {
        if pool >= self.pools.len() {
            return Err(AmmError::PairNotFound);
        }
        Ok((self.pools[pool].reserve_a, self.pools[pool].reserve_b))
    }
}

impl PairFactory for Factory {
    /// Register the unordered pair of two distinct tokens exactly once:
    /// refuse equal tokens with `InvalidToken`, refuse an already served
    /// pair — under either order — with `PairExists`, and otherwise append
    /// an empty pool bound to the tokens in the order supplied and return
    /// its id.
    fn create_pair(&mut self, token_a: AssetId, token_b: AssetId) -> (result: Result<
        usize,
        AmmError,
    >)
        ensures
            old(self).wf() ==> final(self).wf(),
            token_a == token_b ==> result == Err::<usize, AmmError>(AmmError::InvalidToken)
                && *final(self) == *old(self),
            token_a != token_b && old(self).spec_has_pair(token_a, token_b) ==> result == Err::<
                usize,
                AmmError,
            >(AmmError::PairExists) && *final(self) == *old(self),
            token_a != token_b && !old(self).spec_has_pair(token_a, token_b) ==> (result matches Ok(
                id,
            ) && id == old(self).pools@.len() && final(self).pools@ == old(self).pools@.push(
                (LiquidityPool {
                    asset_a: token_a,
                    asset_b: token_b,
                    reserve_a: 0,
                    reserve_b: 0,
                    lp_supply: 0,
                }),
            )),
    {
        if token_a == token_b {
            return Err(AmmError::InvalidToken);
        }
        match find_pair_index(&self.pools, token_a, token_b) {
            Some(_) => Err(AmmError::PairExists),
            None => {
                let id: usize = self.pools.len();
                let pool = LiquidityPool::new(token_a, token_b);
                proof {
                    if old(self).wf() {
                        lemma_pools_push_keeps_registry(self.pools@, pool);
                    }
                }
                self.pools.push(pool);
                Ok(id)
            },
        }
    }

    /// Look the unordered pair up: the id of the one pool serving it, or
    /// `PairNotFound`.
    fn get_pair(&self, token_a: AssetId, token_b: AssetId) -> (result: Result<usize, AmmError>)
        ensures
            (match result {
                Ok(i) => i < self.pools@.len() && pair_matches(
                    self.pools@[i as int],
                    token_a,
                    token_b,
                ) && (forall|j: int|
                    0 <= j < i ==> !pair_matches(#[trigger] self.pools@[j], token_a, token_b)),
                Err(e) => e == AmmError::PairNotFound && !self.spec_has_pair(token_a, token_b),
            }),
            result is Ok <==> self.spec_has_pair(token_a, token_b),
    {
        match find_pair_index(&self.pools, token_a, token_b) {
            Some(i) => Ok(i),
            None => Err(AmmError::PairNotFound),
        }
    }
}

/// Registry idempotent-uniqueness: once a pair is registered, the registry
/// serves it under both orders, so a second `create_pair` for the same two
/// tokens — in either order — hits the `PairExists` case of `create_pair`'s
/// contract.
pub proof fn lemma_create_pair_unique(f0: Factory, f1: Factory, token_a: AssetId, token_b: AssetId)
    requires
        token_a != token_b,
        f1.pools@ == f0.pools@.push(
            (LiquidityPool {
                asset_a: token_a,
                asset_b: token_b,
                reserve_a: 0,
                reserve_b: 0,
                lp_supply: 0,
            }),
        ),
    ensures
        f1.spec_has_pair(token_a, token_b),
        f1.spec_has_pair(token_b, token_a),
{
    let n = f0.pools@.len() as int;
    assert(pair_matches(f1.pools@[n], token_a, token_b));
    assert(pair_matches(f1.pools@[n], token_b, token_a));
}

} // verus!
