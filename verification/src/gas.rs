//! Gas parameters and the checks derived from them. The intrinsic charge is
//! fixed per transaction: the base cost plus the per-byte cost of the fixed
//! forty-byte transfer record.

use vstd::prelude::*;
use crate::u256::{pow256, U256};

verus! {

#[derive(Clone, Copy, Debug, PartialEq, Eq, Structural)]
pub struct GasConfig {
    pub intrinsic_gas: U256,
    pub gas_per_byte: U256,
    pub min_gas_price: U256,
    pub block_gas_limit: U256,
}

/// The full intrinsic charge of one transfer under a configuration.
pub open spec fn intrinsic_gas_nat(c: GasConfig) -> nat {
    c.intrinsic_gas.as_nat() + c.gas_per_byte.as_nat() * 40
}

impl GasConfig {
    /// The intrinsic charge is representable.
    pub open spec fn wf(self) -> bool {
        intrinsic_gas_nat(self) < pow256()
    }
}

impl Default for GasConfig {
    /// The stock parameters: a 21000 base charge, 4 gas per byte, a one-gwei
    /// price floor, and a one-million-gas block budget.
    fn default() -> (r: GasConfig)
        ensures
            r.intrinsic_gas.as_nat() == 21_000,
            r.gas_per_byte.as_nat() == 4,
            r.min_gas_price.as_nat() == 1_000_000_000,
            r.block_gas_limit.as_nat() == 1_000_000,
            r.wf(),
    {
        GasConfig {
            intrinsic_gas: U256::from_u64(21_000),
            gas_per_byte: U256::from_u64(4),
            min_gas_price: U256::from_u64(1_000_000_000),
            block_gas_limit: U256::from_u64(1_000_000),
        }
    }
}

pub struct GasCalculator;

impl GasCalculator {
    /// The fixed intrinsic charge: base cost plus forty charged bytes.
    pub fn calculate_instrinsic_gas(config: &GasConfig) -> (r: U256)
        requires
            config.wf(),
        ensures
            r.as_nat() == intrinsic_gas_nat(*config),
    {
        let forty = U256::from_u64(40);
        let byte_cost = match config.gas_per_byte.checked_mul(&forty) {
            Some(c) => c,
            None => {
                proof {
                    assert(false);
                }
                U256::zero()
            }
        };
        match config.intrinsic_gas.checked_add(&byte_cost) {
            Some(total) => total,
            None => {
                proof {
                    assert(false);
                }
                U256::zero()
            }
        }
    }

    /// The price clears the configured floor.
    pub fn validate_gas_price(gas_price: U256, config: &GasConfig) -> (r: bool)
        ensures
            r == (gas_price.as_nat() >= config.min_gas_price.as_nat()),
    {
        config.min_gas_price.le(&gas_price)
    }

    /// The limit covers the base charge and fits in the block budget.
    pub fn validate_gas_limit(gas_limit: U256, config: &GasConfig) -> (r: bool)
        ensures
            r == (config.intrinsic_gas.as_nat() <= gas_limit.as_nat() && gas_limit.as_nat()
                <= config.block_gas_limit.as_nat()),
    {
        config.intrinsic_gas.le(&gas_limit) && gas_limit.le(&config.block_gas_limit)
    }
}

} // verus!
