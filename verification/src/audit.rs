use vstd::prelude::*;

use crate::errors::AmmError;
use crate::ids::{AssetId, UserId};
use crate::math::{
    calculate_output_amount, lemma_quotient_exceeded, lemma_quotient_respected,
    lemma_u64_mul_fits, spec_calculate_output,
};
use crate::pool::{LiquidityPool, TokenPair};
use crate::registry::Factory;

verus! {

/// A completed swap as recorded for audit: which asset went in, which
/// came out, the two amounts, and the account that traded. Immutable once
/// created; the verifier only reads it.
#[derive(Clone, Copy, Debug, PartialEq, Eq, Structural)]
pub struct TradeDetails {
    pub token_in: AssetId,
    pub token_out: AssetId,
    pub amount_in: u64,
    pub amount_out: u64,
    pub user: UserId,
}

/// The audit verdict on a recorded trade held against a pool's reserves:
/// `InvalidToken` when the trade's asset pair is not the pool's pair;
/// `InvariantViolation` when the trade would drain past the output-side
/// reserve or shrink the reserve product; otherwise the trade's output is
/// re-derived through the fee formula, a mismatch is `OutputMismatch`, and
/// the formula's own errors pass through.
pub open spec fn spec_verify_trade(p: LiquidityPool, trade: TradeDetails) -> Result<
    (),
    AmmError,
> {
    if trade.token_in == p.asset_a && trade.token_out == p.asset_b {
        spec_verify_trade_sides(p.reserve_a, p.reserve_b, trade)
    } else if trade.token_in == p.asset_b && trade.token_out == p.asset_a {
        spec_verify_trade_sides(p.reserve_b, p.reserve_a, trade)
    } else {
        Err(AmmError::InvalidToken)
    }
}

/// The verdict once the sides are resolved: `input_reserve` faces the
/// trade's input, `output_reserve` its output.
pub open spec fn spec_verify_trade_sides(
    input_reserve: u64,
    output_reserve: u64,
    trade: TradeDetails,
) -> Result<(), AmmError> {
    if trade.amount_out > output_reserve {
        Err(AmmError::InvariantViolation)
    } else if (input_reserve as int + trade.amount_in as int) * (output_reserve as int
        - trade.amount_out as int) < input_reserve as int * output_reserve as int {
        Err(AmmError::InvariantViolation)
    } else {
        match spec_calculate_output(trade.amount_in, input_reserve, output_reserve) {
            Err(e) => Err(e),
            Ok(expected) => if trade.amount_out != expected {
                Err(AmmError::OutputMismatch)
            } else {
                Ok(())
            },
        }
    }
}

/// The audit interface: re-check a pool's state, and re-check a recorded
/// trade, without mutating anything.
pub trait DEXVerifier {
    fn verify_liquidity_pool(&self, factory: &Factory, pool: usize) -> Result<(), AmmError>;

    fn verify_trade(&self, factory: &Factory, pool: usize, trade_details: TradeDetails) -> Result<
        (),
        AmmError,
    >;
}

/// The verifier holds no state: it is a pure audit over a registry's
/// pools and recorded trades, usable on any snapshot of either.
pub struct Verifier {}

impl DEXVerifier for Verifier {
    /// Check that the pool registered under `pool` is either fully funded
    /// or fully empty on both sides; reserves cannot be negative in this
    /// representation, so that is the whole consistency check.
    fn verify_liquidity_pool(&self, factory: &Factory, pool: usize) -> (result: Result<
        (),
        AmmError,
    >)
        ensures
            pool >= factory.pools@.len() ==> result == Err::<(), AmmError>(AmmError::PairNotFound),
            pool < factory.pools@.len() ==> result == (if (factory.pools@[pool as int].reserve_a
                > 0 && factory.pools@[pool as int].reserve_b > 0) || (
            factory.pools@[pool as int].reserve_a == 0 && factory.pools@[pool as int].reserve_b
                == 0) {
                Ok::<(), AmmError>(())
            } else {
                Err::<(), AmmError>(AmmError::InvariantViolation)
            }),
    {
        let entry: &LiquidityPool = match factory.get_pool(pool) {
            Some(p) => p,
            None => {
                return Err(AmmError::PairNotFound);
            },
        };
        let reserves: (u64, u64) = entry.get_reserves();
        if (reserves.0 > 0 && reserves.1 > 0) || (reserves.0 == 0 && reserves.1 == 0) {
            Ok(())
        } else {
            Err(AmmError::InvariantViolation)
        }
    }

    /// Replay a recorded trade against the reserves registered under
    /// `pool`: resolve the sides from the pool's own asset identities,
    /// check the constant-product invariant over 128-bit products, and
    /// re-derive the output through the same fee formula the pool uses.
    /// Read-only: the pool is never mutated.
    fn verify_trade(&self, factory: &Factory, pool: usize, trade_details: TradeDetails) -> (
    result: Result<(), AmmError>)
        ensures
            pool >= factory.pools@.len() ==> result == Err::<(), AmmError>(AmmError::PairNotFound),
            pool < factory.pools@.len() ==> result == spec_verify_trade(
                factory.pools@[pool as int],
                trade_details,
            ),
    {
        let entry: LiquidityPool = match factory.get_pool(pool) {
            Some(p) => *p,
            None => {
                return Err(AmmError::PairNotFound);
            },
        };
        let input_reserve: u64;
        let output_reserve: u64;
        if trade_details.token_in == entry.asset_a && trade_details.token_out == entry.asset_b {
            input_reserve = entry.reserve_a;
            output_reserve = entry.reserve_b;
        } else if trade_details.token_in == entry.asset_b && trade_details.token_out
            == entry.asset_a {
            input_reserve = entry.reserve_b;
            output_reserve = entry.reserve_a;
        } else {
            return Err(AmmError::InvalidToken);
        }
        if trade_details.amount_out > output_reserve {
            return Err(AmmError::InvariantViolation);
        }
        let new_input: u128 = input_reserve as u128 + trade_details.amount_in as u128;
        let new_output: u128 = (output_reserve - trade_details.amount_out) as u128;
        proof {
            lemma_u64_mul_fits(input_reserve as int, output_reserve as int);
        }
        let old_product: u128 = (input_reserve as u128) * (output_reserve as u128);
        proof {
            assert((input_reserve as int + trade_details.amount_in as int) * (output_reserve as int
                - trade_details.amount_out as int) == (new_input as int) * (new_output as int))
                by (nonlinear_arith)
                requires
                    new_input as int == input_reserve as int + trade_details.amount_in as int,
                    new_output as int == output_reserve as int - trade_details.amount_out as int,
            ;
        }
        let violated: bool = if new_output == 0 {
            proof {
                assert((new_input as int) * (new_output as int) == 0) by (nonlinear_arith)
                    requires
                        new_output as int == 0,
                ;
            }
            old_product > 0
        } else if new_input > u128::MAX / new_output {
            proof {
                lemma_quotient_exceeded(new_input as int, new_output as int, u128::MAX as int);
            }
            false
        } else {
            proof {
                lemma_quotient_respected(new_input as int, new_output as int, u128::MAX as int);
            }
            new_input * new_output < old_product
        };
        if violated {
            return Err(AmmError::InvariantViolation);
        }
        let expected: u64 = match calculate_output_amount(
            trade_details.amount_in,
            input_reserve,
            output_reserve,
        ) {
            Ok(v) => v,
            Err(e) => {
                return Err(e);
            },
        };
        if trade_details.amount_out != expected {
            return Err(AmmError::OutputMismatch);
        }
        Ok(())
    }
}

} // verus!
