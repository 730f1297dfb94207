use vstd::pervasive::VecAdditionalExecFns;
use vstd::prelude::*;

use crate::errors::AmmError;
use crate::ids::{AssetId, UserId};
use crate::pool::{spec_swap, LiquidityPool, TokenPair};
use crate::registry::{
    find_pair_index, lemma_pools_update_keeps_registry, pair_matches, pools_unique, pools_wf,
    Factory,
};

verus! {

/// Index of the first pool serving the unordered pair, as a recursive
/// definition; `find_pair_index` computes it.
pub open spec fn spec_find_pair(pools: Seq<LiquidityPool>, token_a: AssetId, token_b: AssetId)
    -> Option<int>
    decreases pools.len(),
{
    if pools.len() == 0 {
        None
    } else if pair_matches(pools[0], token_a, token_b) {
        Some(0)
    } else {
        match spec_find_pair(pools.drop_first(), token_a, token_b) {
            None => None,
            Some(i) => Some(i + 1),
        }
    }
}

pub proof fn lemma_find_pair_some(
    pools: Seq<LiquidityPool>,
    token_a: AssetId,
    token_b: AssetId,
    i: int,
)
    requires
        0 <= i < pools.len(),
        pair_matches(pools[i], token_a, token_b),
        forall|j: int| 0 <= j < i ==> !pair_matches(#[trigger] pools[j], token_a, token_b),
    ensures
        spec_find_pair(pools, token_a, token_b) == Some(i),
    decreases i,
{
    if i > 0 {
        let rest = pools.drop_first();
        assert forall|j: int| 0 <= j < i - 1 implies !pair_matches(
            #[trigger] rest[j],
            token_a,
            token_b,
        ) by {
            assert(rest[j] == pools[j + 1]);
        };
        assert(rest[i - 1] == pools[i]);
        lemma_find_pair_some(rest, token_a, token_b, i - 1);
    }
}

pub proof fn lemma_find_pair_none(pools: Seq<LiquidityPool>, token_a: AssetId, token_b: AssetId)
    requires
        forall|j: int|
            0 <= j < pools.len() ==> !pair_matches(#[trigger] pools[j], token_a, token_b),
    ensures
        spec_find_pair(pools, token_a, token_b) == None::<int>,
    decreases pools.len(),
{
    if pools.len() > 0 {
        let rest = pools.drop_first();
        assert forall|j: int| 0 <= j < rest.len() implies !pair_matches(
            #[trigger] rest[j],
            token_a,
            token_b,
        ) by {
            assert(rest[j] == pools[j + 1]);
        };
        lemma_find_pair_none(rest, token_a, token_b);
    }
}

/// What a route does: walk the path, resolve each consecutive pair to the
/// first pool serving it, swap the running amount through that pool, and
/// thread the output into the next hop. The result is the pool sequence
/// after all hops and the final amount, or the first error met.
pub open spec fn spec_route(
    pools: Seq<LiquidityPool>,
    path: Seq<AssetId>,
    amount_in: u64,
) -> Result<(Seq<LiquidityPool>, u64), AmmError>
    decreases path.len(),
{
    if path.len() < 2 {
        Ok((pools, amount_in))
    } else {
        match spec_find_pair(pools, path[0], path[1]) {
            None => Err(AmmError::PairNotFound),
            Some(i) => match spec_swap(pools[i], path[0], amount_in) {
                Err(e) => Err(e),
                Ok((p, out)) => spec_route(pools.update(i, p), path.drop_first(), out),
            },
        }
    }
}

/// The router: execute a swap along a path of asset ids, pool by pool.
pub trait AMMRouter {
    fn swap_exact_tokens_for_tokens(
        &mut self,
        factory: &mut Factory,
        amount_in: u64,
        min_amount_out: u64,
        path: Vec<AssetId>,
        user: UserId,
    ) -> Result<u64, AmmError>;
}

/// The router holds no state of its own; it routes trades through the
/// pools that the registry resolves for each hop.
pub struct Router {}

impl AMMRouter for Router {
    /// Swap `amount_in` along `path`, threading each hop's output into the
    /// next hop, and refuse a final amount under `min_amount_out` with
    /// `SlippageExceeded`. All hops run against a private copy of the
    /// pools; the registry is committed only when the whole route,
    /// including the slippage bound, has succeeded, so a failing route
    /// leaves every pool exactly as it was.
    fn swap_exact_tokens_for_tokens(
        &mut self,
        factory: &mut Factory,
        amount_in: u64,
        min_amount_out: u64,
        path: Vec<AssetId>,
        user: UserId,
    ) -> (result: Result<u64, AmmError>)
        ensures
            old(factory).wf() ==> final(factory).wf(),
            path@.len() < 2 ==> result == Err::<u64, AmmError>(AmmError::InvalidPath)
                && *final(factory) == *old(factory),
            path@.len() >= 2 ==> (match spec_route(old(factory).pools@, path@, amount_in) {
                Err(e) => result == Err::<u64, AmmError>(e) && *final(factory) == *old(factory),
                Ok((pools, out)) => (if out < min_amount_out {
                    result == Err::<u64, AmmError>(AmmError::SlippageExceeded) && *final(factory)
                        == *old(factory)
                } else {
                    result == Ok::<u64, AmmError>(out) && final(factory).pools@ == pools
                }),
            }),
    {
        let n: usize = path.len();
        if n < 2 {
            return Err(AmmError::InvalidPath);
        }
        let mut work: Vec<LiquidityPool> = Vec::new();
        let mut k: usize = 0;
        while k < factory.pools.len()
            invariant
                k <= factory.pools@.len(),
                work@ == factory.pools@.subrange(0, k as int),
                *factory == *old(factory),
            decreases factory.pools@.len() - k,
        {
            work.push(factory.pools[k]);
            k = k + 1;
        }
        proof {
            assert(work@ =~= old(factory).pools@);
            assert(path@.skip(0) =~= path@);
        }
        let mut current: u64 = amount_in;
        let mut i: usize = 0;
        while i + 1 < n
            invariant
                n == path@.len(),
                2 <= n,
                i <= n - 1,
                *factory == *old(factory),
                spec_route(old(factory).pools@, path@, amount_in) == spec_route(
                    work@,
                    path@.skip(i as int),
                    current,
                ),
                old(factory).wf() ==> pools_wf(work@) && pools_unique(work@),
            decreases n - i,
        {
            let ghost hop = path@.skip(i as int);
            let token_in: AssetId = path[i];
            let token_out: AssetId = path[i + 1];
            proof {
                assert(hop[0] == token_in && hop[1] == token_out);
            }
            let j: usize = match find_pair_index(&work, token_in, token_out) {
                Some(j) => j,
                None => {
                    proof {
                        lemma_find_pair_none(work@, token_in, token_out);
                    }
                    return Err(AmmError::PairNotFound);
                },
            };
            proof {
                lemma_find_pair_some(work@, token_in, token_out, j as int);
            }
            let ghost work_pre = work@;
            let mut entry: LiquidityPool = work[j];
            match entry.swap(token_in, current, user) {
                Ok(out) => {
                    work.set(j, entry);
                    proof {
                        assert(hop.drop_first() =~= path@.skip(i as int + 1));
                        assert(work@ =~= work_pre.update(j as int, entry));
                        if old(factory).wf() {
                            lemma_pools_update_keeps_registry(work_pre, work@, j as int);
                        }
                    }
                    current = out;
                },
                Err(e) => {
                    return Err(e);
                },
            }
            i = i + 1;
        }
        proof {
            assert(path@.skip(i as int).len() < 2);
        }
        if current < min_amount_out {
            return Err(AmmError::SlippageExceeded);
        }
        factory.pools = work;
        Ok(current)
    }
}

/// Router single-hop equivalence: over a two-token path the route performs
/// exactly the one swap that a direct call against the resolved pool
/// performs — the same output and the same single pool update — and fails
/// with `PairNotFound` exactly when no pool serves the pair.
pub proof fn lemma_single_hop_route(
    pools: Seq<LiquidityPool>,
    token_a: AssetId,
    token_b: AssetId,
    amount_in: u64,
)
    ensures
        (match spec_find_pair(pools, token_a, token_b) {
            None => spec_route(pools, seq![token_a, token_b], amount_in) == Err::<
                (Seq<LiquidityPool>, u64),
                AmmError,
            >(AmmError::PairNotFound),
            Some(i) => spec_route(pools, seq![token_a, token_b], amount_in) == (match spec_swap(
                pools[i],
                token_a,
                amount_in,
            ) {
                Ok((p, out)) => Ok::<(Seq<LiquidityPool>, u64), AmmError>((pools.update(i, p), out)),
                Err(e) => Err::<(Seq<LiquidityPool>, u64), AmmError>(e),
            }),
        }),
{
    let path = seq![token_a, token_b];
    assert(path.len() == 2);
    assert(path[0] == token_a && path[1] == token_b);
    assert(path.drop_first().len() == 1);
    match spec_find_pair(pools, token_a, token_b) {
        None => {
        },
        Some(i) => {
            match spec_swap(pools[i], token_a, amount_in) {
                Ok((p, out)) => {
                    assert(spec_route(pools.update(i, p), path.drop_first(), out)
                        == Ok::<(Seq<LiquidityPool>, u64), AmmError>((pools.update(i, p), out)));
                },
                Err(e) => {
                },
            }
        },
    }
}

} // verus!
