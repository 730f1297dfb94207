use vstd::arithmetic::div_mod::{
    lemma_div_multiples_vanish, lemma_fundamental_div_mod, lemma_mod_bound,
};
use vstd::prelude::*;

use crate::errors::AmmError;
use crate::ids::{AssetId, UserId};
use crate::math::{
    calculate_output_amount, integer_sqrt, is_sqrt_floor, lemma_deposit_withdraw_le,
    lemma_proportional_share, lemma_sqrt_floor_correct, lemma_sqrt_floor_unique,
    lemma_swap_output_bounds, lemma_swap_preserves_product, lemma_u64_mul_fits, spec_sqrt_floor,
    swap_numerator, swap_output,
};

verus! {

/// One pair's liquidity pool: the two asset identities it was created for,
/// the reserve held on each side, and the supply of LP shares against them.
#[derive(Clone, Copy, Debug, PartialEq, Eq, Structural)]
pub struct LiquidityPool {
    pub asset_a: AssetId,
    pub asset_b: AssetId,
    pub reserve_a: u64,
    pub reserve_b: u64,
    pub lp_supply: u64,
}

/// The pool operations: deposit paired liquidity against LP shares, burn
/// LP shares for a proportional withdrawal, swap one asset for the other
/// at the constant-product price, and read the reserves.
pub trait TokenPair {
    fn add_liquidity(&mut self, amount_a: u64, amount_b: u64, user: UserId) -> Result<
        u64,
        AmmError,
    >;

    fn remove_liquidity(&mut self, lp_tokens: u64, user: UserId) -> Result<(u64, u64), AmmError>;

    fn swap(&mut self, token_in: AssetId, amount_in: u64, user: UserId) -> Result<u64, AmmError>;

    fn get_reserves(&self) -> (u64, u64);
}

impl LiquidityPool {
    /// A pool is either fully empty or fully funded: a zero reserve on
    /// either side coincides with a zero share supply. Its two assets are
    /// always distinct.
    pub open spec fn wf(self) -> bool {
        &&& self.asset_a != self.asset_b
        &&& (self.reserve_a == 0 <==> self.lp_supply == 0)
        &&& (self.reserve_b == 0 <==> self.lp_supply == 0)
    }

    /// Whether `token` is one of the pool's two configured assets.
    pub open spec fn holds_asset(self, token: AssetId) -> bool {
        token == self.asset_a || token == self.asset_b
    }

    /// An empty pool bound to two distinct assets, in the order supplied.
    pub fn new(asset_a: AssetId, asset_b: AssetId) -> (pool: LiquidityPool)
        requires
            asset_a != asset_b,
        ensures
            pool == (LiquidityPool {
                asset_a: asset_a,
                asset_b: asset_b,
                reserve_a: 0,
                reserve_b: 0,
                lp_supply: 0,
            }),
            pool.wf(),
    {
        LiquidityPool { asset_a: asset_a, asset_b: asset_b, reserve_a: 0, reserve_b: 0, lp_supply: 0 }
    }
}

/// Shares minted for a deposit against a funded pool: the ratio-implied
/// share of each side, floored, and the smaller of the two.
pub open spec fn spec_lp_minted(p: LiquidityPool, amount_a: u64, amount_b: u64) -> int {
    let qa = amount_a as int * p.lp_supply as int / p.reserve_a as int;
    let qb = amount_b as int * p.lp_supply as int / p.reserve_b as int;
    if qa <= qb {
        qa
    } else {
        qb
    }
}

/// What a deposit does: the new pool and the minted shares, or the error.
/// A first deposit (no shares outstanding) fixes the price and mints
/// `floor(sqrt(amount_a * amount_b))`; a later deposit mints the
/// minimum-implied share and the reserves absorb both full amounts.
pub open spec fn spec_add_liquidity(p: LiquidityPool, amount_a: u64, amount_b: u64) -> Result<
    (LiquidityPool, u64),
    AmmError,
> {
    if amount_a == 0 || amount_b == 0 {
        Err(AmmError::InvalidAmount)
    } else if p.reserve_a as int + amount_a as int > u64::MAX as int || p.reserve_b as int
        + amount_b as int > u64::MAX as int {
        Err(AmmError::ArithmeticOverflow)
    } else if p.lp_supply == 0 {
        let minted = spec_sqrt_floor(amount_a as int * amount_b as int);
        Ok(
            (
                LiquidityPool {
                    asset_a: p.asset_a,
                    asset_b: p.asset_b,
                    reserve_a: (p.reserve_a + amount_a) as u64,
                    reserve_b: (p.reserve_b + amount_b) as u64,
                    lp_supply: minted as u64,
                },
                minted as u64,
            ),
        )
    } else if p.reserve_a == 0 || p.reserve_b == 0 {
        Err(AmmError::DivisionByZero)
    } else {
        let minted = spec_lp_minted(p, amount_a, amount_b);
        if minted > u64::MAX as int || p.lp_supply as int + minted > u64::MAX as int {
            Err(AmmError::ArithmeticOverflow)
        } else {
            Ok(
                (
                    LiquidityPool {
                        asset_a: p.asset_a,
                        asset_b: p.asset_b,
                        reserve_a: (p.reserve_a + amount_a) as u64,
                        reserve_b: (p.reserve_b + amount_b) as u64,
                        lp_supply: (p.lp_supply as int + minted) as u64,
                    },
                    minted as u64,
                ),
            )
        }
    }
}

/// What a withdrawal does: burn `lp_tokens` shares and pay out the floored
/// proportional part of each reserve, or the error.
pub open spec fn spec_remove_liquidity(p: LiquidityPool, lp_tokens: u64) -> Result<
    (LiquidityPool, (u64, u64)),
    AmmError,
> {
    if p.lp_supply == 0 {
        Err(AmmError::DivisionByZero)
    } else if lp_tokens > p.lp_supply {
        Err(AmmError::InsufficientLiquidity)
    } else {
        let wa = p.reserve_a as int * lp_tokens as int / p.lp_supply as int;
        let wb = p.reserve_b as int * lp_tokens as int / p.lp_supply as int;
        Ok(
            (
                LiquidityPool {
                    asset_a: p.asset_a,
                    asset_b: p.asset_b,
                    reserve_a: (p.reserve_a as int - wa) as u64,
                    reserve_b: (p.reserve_b as int - wb) as u64,
                    lp_supply: (p.lp_supply - lp_tokens) as u64,
                },
                (wa as u64, wb as u64),
            ),
        )
    }
}

/// What a swap does: the new pool and the amount paid out, or the error.
/// Direction is resolved against the pool's own stored asset identities.
pub open spec fn spec_swap(p: LiquidityPool, token_in: AssetId, amount_in: u64) -> Result<
    (LiquidityPool, u64),
    AmmError,
> {
    if !p.holds_asset(token_in) {
        Err(AmmError::InvalidToken)
    } else {
        let rin = if token_in == p.asset_a {
            p.reserve_a
        } else {
            p.reserve_b
        };
        let rout = if token_in == p.asset_a {
            p.reserve_b
        } else {
            p.reserve_a
        };
        if rin == 0 || rout == 0 {
            Err(AmmError::InsufficientLiquidity)
        } else if rin as int + amount_in as int > u64::MAX as int {
            Err(AmmError::ArithmeticOverflow)
        } else if swap_numerator(amount_in as int, rout as int) > u128::MAX as int {
            Err(AmmError::ArithmeticOverflow)
        } else {
            let out = swap_output(amount_in as int, rin as int, rout as int);
            if token_in == p.asset_a {
                Ok(
                    (
                        LiquidityPool {
                            asset_a: p.asset_a,
                            asset_b: p.asset_b,
                            reserve_a: (rin + amount_in) as u64,
                            reserve_b: (rout - out) as u64,
                            lp_supply: p.lp_supply,
                        },
                        out as u64,
                    ),
                )
            } else {
                Ok(
                    (
                        LiquidityPool {
                            asset_a: p.asset_a,
                            asset_b: p.asset_b,
                            reserve_a: (rout - out) as u64,
                            reserve_b: (rin + amount_in) as u64,
                            lp_supply: p.lp_supply,
                        },
                        out as u64,
                    ),
                )
            }
        }
    }
}

impl TokenPair for LiquidityPool {
    /// Deposit `amount_a` and `amount_b` against newly minted LP shares.
    fn add_liquidity(&mut self, amount_a: u64, amount_b: u64, user: UserId) -> (result: Result<
        u64,
        AmmError,
    >)
        ensures
            (match spec_add_liquidity(*old(self), amount_a, amount_b) {
                Ok((p, minted)) => result == Ok::<u64, AmmError>(minted) && *final(self) == p,
                Err(e) => result == Err::<u64, AmmError>(e) && *final(self) == *old(self),
            }),
            old(self).wf() ==> final(self).wf(),
    {
        if amount_a == 0 || amount_b == 0 {
            return Err(AmmError::InvalidAmount);
        }
        if amount_a > u64::MAX - self.reserve_a || amount_b > u64::MAX - self.reserve_b {
            return Err(AmmError::ArithmeticOverflow);
        }
        if self.lp_supply == 0 {
            proof {
                lemma_u64_mul_fits(amount_a as int, amount_b as int);
            }
            let product: u128 = (amount_a as u128) * (amount_b as u128);
            let minted: u64 = integer_sqrt(product);
            proof {
                lemma_sqrt_floor_unique(product as int, minted as int);
                assert(minted >= 1) by (nonlinear_arith)
                    requires
                        amount_a >= 1,
                        amount_b >= 1,
                        product as int == amount_a as int * amount_b as int,
                        is_sqrt_floor(product as int, minted as int),
                ;
            }
            self.reserve_a = self.reserve_a + amount_a;
            self.reserve_b = self.reserve_b + amount_b;
            self.lp_supply = minted;
            return Ok(minted);
        }
        if self.reserve_a == 0 || self.reserve_b == 0 {
            return Err(AmmError::DivisionByZero);
        }
        proof {
            lemma_u64_mul_fits(amount_a as int, self.lp_supply as int);
            lemma_u64_mul_fits(amount_b as int, self.lp_supply as int);
        }
        let qa: u128 = (amount_a as u128) * (self.lp_supply as u128) / (self.reserve_a as u128);
        let qb: u128 = (amount_b as u128) * (self.lp_supply as u128) / (self.reserve_b as u128);
        let minted128: u128 = if qa <= qb {
            qa
        } else {
            qb
        };
        if minted128 > u64::MAX as u128 {
            return Err(AmmError::ArithmeticOverflow);
        }
        let minted: u64 = minted128 as u64;
        if minted > u64::MAX - self.lp_supply {
            return Err(AmmError::ArithmeticOverflow);
        }
        self.reserve_a = self.reserve_a + amount_a;
        self.reserve_b = self.reserve_b + amount_b;
        self.lp_supply = self.lp_supply + minted;
        Ok(minted)
    }

    /// Burn `lp_tokens` shares and withdraw the proportional part of each
    /// reserve, computed multiply-then-divide so rounding only loses dust.
    fn remove_liquidity(&mut self, lp_tokens: u64, user: UserId) -> (result: Result<
        (u64, u64),
        AmmError,
    >)
        ensures
            (match spec_remove_liquidity(*old(self), lp_tokens) {
                Ok((p, amounts)) => result == Ok::<(u64, u64), AmmError>(amounts) && *final(self)
                    == p,
                Err(e) => result == Err::<(u64, u64), AmmError>(e) && *final(self) == *old(self),
            }),
            old(self).wf() ==> final(self).wf(),
    {
        if self.lp_supply == 0 {
            return Err(AmmError::DivisionByZero);
        }
        if lp_tokens > self.lp_supply {
            return Err(AmmError::InsufficientLiquidity);
        }
        proof {
            lemma_u64_mul_fits(self.reserve_a as int, lp_tokens as int);
            lemma_u64_mul_fits(self.reserve_b as int, lp_tokens as int);
            lemma_proportional_share(self.reserve_a as int, lp_tokens as int, self.lp_supply as int);
            lemma_proportional_share(self.reserve_b as int, lp_tokens as int, self.lp_supply as int);
        }
        let wa: u64 = ((self.reserve_a as u128) * (lp_tokens as u128) / (self.lp_supply as u128))
            as u64;
        let wb: u64 = ((self.reserve_b as u128) * (lp_tokens as u128) / (self.lp_supply as u128))
            as u64;
        self.reserve_a = self.reserve_a - wa;
        self.reserve_b = self.reserve_b - wb;
        self.lp_supply = self.lp_supply - lp_tokens;
        Ok((wa, wb))
    }

    /// Swap `amount_in` of `token_in` for the other asset at the
    /// constant-product price with the 0.3% fee. A pool with no funds on
    /// the input or output side refuses with `InsufficientLiquidity`, so a
    /// swap can never strand value in an empty pool. The reserve product
    /// never shrinks across a successful swap of a well-formed pool.
    fn swap(&mut self, token_in: AssetId, amount_in: u64, user: UserId) -> (result: Result<
        u64,
        AmmError,
    >)
        ensures
            (match spec_swap(*old(self), token_in, amount_in) {
                Ok((p, out)) => result == Ok::<u64, AmmError>(out) && *final(self) == p,
                Err(e) => result == Err::<u64, AmmError>(e) && *final(self) == *old(self),
            }),
            old(self).wf() ==> final(self).wf(),
            (old(self).wf() && result is Ok) ==> (final(self).reserve_a as int) * (
            final(self).reserve_b as int) >= (old(self).reserve_a as int) * (
            old(self).reserve_b as int),
    {
        let token_is_a: bool = token_in == self.asset_a;
        if !(token_is_a || token_in == self.asset_b) {
            return Err(AmmError::InvalidToken);
        }
        let rin: u64 = if token_is_a {
            self.reserve_a
        } else {
            self.reserve_b
        };
        let rout: u64 = if token_is_a {
            self.reserve_b
        } else {
            self.reserve_a
        };
        if rin == 0 || rout == 0 {
            return Err(AmmError::InsufficientLiquidity);
        }
        if amount_in > u64::MAX - rin {
            return Err(AmmError::ArithmeticOverflow);
        }
        let out: u64 = match calculate_output_amount(amount_in, rin, rout) {
            Ok(o) => o,
            Err(e) => {
                return Err(e);
            },
        };
        proof {
            lemma_swap_output_bounds(amount_in as int, rin as int, rout as int);
            lemma_swap_preserves_product(amount_in as int, rin as int, rout as int);
            let q = swap_output(amount_in as int, rin as int, rout as int);
            assert((rout as int - q) * (rin as int + amount_in as int) >= (rout as int) * (
            rin as int)) by (nonlinear_arith)
                requires
                    (rin as int + amount_in as int) * (rout as int - q) >= (rin as int) * (
                    rout as int),
            ;
        }
        if token_is_a {
            self.reserve_a = rin + amount_in;
            self.reserve_b = rout - out;
        } else {
            self.reserve_b = rin + amount_in;
            self.reserve_a = rout - out;
        }
        Ok(out)
    }

    /// The current reserves, in the pool's own (A, B) order.
    fn get_reserves(&self) -> (reserves: (u64, u64))
        ensures
            reserves == (self.reserve_a, self.reserve_b),
    {
        (self.reserve_a, self.reserve_b)
    }
}

/// Withdraw bound: a deposit followed by a withdrawal of exactly the
/// shares it minted returns at most the deposited amounts on each side —
/// integer rounding never creates value.
pub proof fn lemma_withdraw_bound(
    p0: LiquidityPool,
    amount_a: u64,
    amount_b: u64,
    p1: LiquidityPool,
    minted: u64,
)
    requires
        p0.wf(),
        spec_add_liquidity(p0, amount_a, amount_b) == Ok::<(LiquidityPool, u64), AmmError>(
            (p1, minted),
        ),
    ensures
        spec_remove_liquidity(p1, minted) is Ok,
        spec_remove_liquidity(p1, minted)->Ok_0.1.0 <= amount_a,
        spec_remove_liquidity(p1, minted)->Ok_0.1.1 <= amount_b,
{
    let aa = amount_a as int;
    let ab = amount_b as int;
    if p0.lp_supply == 0 {
        let prod = aa * ab;
        assert(1 <= prod <= u64::MAX as int * u64::MAX as int) by (nonlinear_arith)
            requires
                1 <= aa <= u64::MAX as int,
                1 <= ab <= u64::MAX as int,
                prod == aa * ab,
        ;
        lemma_sqrt_floor_correct(prod);
        let s = spec_sqrt_floor(prod);
        assert(1 <= s <= u64::MAX) by (nonlinear_arith)
            requires
                is_sqrt_floor(prod, s),
                1 <= prod <= u64::MAX as int * u64::MAX as int,
        ;
        let m = p1.lp_supply as int;
        lemma_div_multiples_vanish(aa, m);
        lemma_div_multiples_vanish(ab, m);
        assert(m * aa == aa * m && m * ab == ab * m) by (nonlinear_arith);
    } else {
        let ra = p0.reserve_a as int;
        let rb = p0.reserve_b as int;
        let lp = p0.lp_supply as int;
        let m = minted as int;
        let qa = aa * lp / ra;
        let qb = ab * lp / rb;
        lemma_fundamental_div_mod(aa * lp, ra);
        lemma_mod_bound(aa * lp, ra);
        lemma_fundamental_div_mod(ab * lp, rb);
        lemma_mod_bound(ab * lp, rb);
        assert(m * ra <= aa * lp && m * rb <= ab * lp) by (nonlinear_arith)
            requires
                m <= qa,
                m <= qb,
                0 <= m,
                1 <= ra,
                1 <= rb,
                ra * qa <= aa * lp,
                rb * qb <= ab * lp,
        ;
        lemma_deposit_withdraw_le(ra, aa, lp, m);
        lemma_deposit_withdraw_le(rb, ab, lp, m);
        lemma_proportional_share(p1.reserve_a as int, m, lp + m);
        lemma_proportional_share(p1.reserve_b as int, m, lp + m);
    }
}

} // verus!
