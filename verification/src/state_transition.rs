//! The atomic state transition: every check runs before the first write, so
//! a rejected transfer leaves the state exactly as it was, and a committed
//! one moves the amount, charges the intrinsic fee, and bumps the sender's
//! nonce in one step.

use vstd::prelude::*;
use vstd::arithmetic::mul::lemma_mul_inequality;
use crate::account::Account;
use crate::address::Address;
use crate::gas::{intrinsic_gas_nat, GasCalculator, GasConfig};
use crate::state::{balance_of, find_account, nonce_of, sum_balances, State};
use crate::transaction::Transaction;
use crate::u256::{pow256, U256};

verus! {

#[derive(Clone, Copy, Debug, PartialEq, Eq, Structural)]
pub enum StateTransitionError {
    InsufficientBalance { has: U256, needs: U256 },
    InvalidNonce { expected: u64, got: u64 },
    GasPriceTooLow,
    BalanceOverflow,
    SameAddress,
    InvalidGasLimit,
    InsufficientGas { provided: U256, required: U256 },
}

/// The ordered admission checks, as predicates over the pre-state.
pub open spec fn price_ok(tx: Transaction, config: GasConfig) -> bool {
    tx.gas_price.as_nat() >= config.min_gas_price.as_nat()
}

pub open spec fn limit_ok(tx: Transaction, config: GasConfig) -> bool {
    config.intrinsic_gas.as_nat() <= tx.gas_limit.as_nat() && tx.gas_limit.as_nat()
        <= config.block_gas_limit.as_nat()
}

pub open spec fn intrinsic_ok(tx: Transaction, config: GasConfig) -> bool {
    tx.gas_limit.as_nat() >= intrinsic_gas_nat(config)
}

pub open spec fn distinct_ok(tx: Transaction) -> bool {
    tx.from.as_nat() != tx.to.as_nat()
}

pub open spec fn balance_ok(s: Seq<Account>, tx: Transaction) -> bool {
    balance_of(s, tx.from) >= tx.max_cost_nat()
}

pub open spec fn nonce_ok(s: Seq<Account>, tx: Transaction) -> bool {
    tx.nonce as nat == nonce_of(s, tx.from) && nonce_of(s, tx.from) < 0xffff_ffff_ffff_ffff
}

pub open spec fn overflow_ok(s: Seq<Account>, tx: Transaction) -> bool {
    balance_of(s, tx.to) + tx.amount.as_nat() < pow256()
}

/// Every admission check at once.
pub open spec fn transition_admissible(s: Seq<Account>, tx: Transaction, config: GasConfig) -> bool {
    price_ok(tx, config) && limit_ok(tx, config) && intrinsic_ok(tx, config) && distinct_ok(tx)
        && balance_ok(s, tx) && nonce_ok(s, tx) && overflow_ok(s, tx)
}

pub struct StateTransition;

impl StateTransition {
    /// Applies one transfer to the state, or rejects it with the first
    /// failing check. A rejection leaves the state exactly as it was; a
    /// commit debits the sender by the amount plus the intrinsic fee, bumps
    /// the sender's nonce, credits the receiver, and burns the fee, so the
    /// balance total drops by exactly the gas consumed times the price.
    #[verifier::rlimit(100)]
    pub fn apply_transaction(state: &mut State, tx: &Transaction, config: &GasConfig) -> (r:
        Result<U256, StateTransitionError>)
        requires
            old(state).wf(),
            config.wf(),
        ensures
            final(state).wf(),
            r is Err ==> *final(state) == *old(state),
            r is Ok <==> transition_admissible(old(state).accounts@, *tx, *config),
            (r matches Err(e) && e is GasPriceTooLow) <==> !price_ok(*tx, *config),
            (r matches Err(e) && e is InvalidGasLimit) <==> (price_ok(*tx, *config) && !limit_ok(
                *tx,
                *config,
            )),
            (r matches Err(e) && e is InsufficientGas) <==> (price_ok(*tx, *config) && limit_ok(
                *tx,
                *config,
            ) && !intrinsic_ok(*tx, *config)),
            (r matches Err(e) && e is SameAddress) <==> (price_ok(*tx, *config) && limit_ok(
                *tx,
                *config,
            ) && intrinsic_ok(*tx, *config) && !distinct_ok(*tx)),
            (r matches Err(e) && e is InsufficientBalance) <==> (price_ok(*tx, *config)
                && limit_ok(*tx, *config) && intrinsic_ok(*tx, *config) && distinct_ok(*tx)
                && !balance_ok(old(state).accounts@, *tx)),
            (r matches Err(e) && e is InvalidNonce) <==> (price_ok(*tx, *config) && limit_ok(
                *tx,
                *config,
            ) && intrinsic_ok(*tx, *config) && distinct_ok(*tx) && balance_ok(
                old(state).accounts@,
                *tx,
            ) && !nonce_ok(old(state).accounts@, *tx)),
            (r matches Err(e) && e is BalanceOverflow) <==> (price_ok(*tx, *config) && limit_ok(
                *tx,
                *config,
            ) && intrinsic_ok(*tx, *config) && distinct_ok(*tx) && balance_ok(
                old(state).accounts@,
                *tx,
            ) && nonce_ok(old(state).accounts@, *tx) && !overflow_ok(old(state).accounts@, *tx)),
            r matches Err(StateTransitionError::InsufficientBalance { has, needs }) ==> has.as_nat()
                == balance_of(old(state).accounts@, tx.from) && (tx.max_cost_nat() < pow256()
                ==> needs.as_nat() == tx.max_cost_nat()),
            r matches Err(StateTransitionError::InvalidNonce { expected, got }) ==> expected as nat
                == nonce_of(old(state).accounts@, tx.from) && got == tx.nonce,
            r matches Err(StateTransitionError::InsufficientGas { provided, required })
                ==> provided == tx.gas_limit && required.as_nat() == intrinsic_gas_nat(*config),
            r matches Ok(gas_used) ==> gas_used.as_nat() == intrinsic_gas_nat(*config)
                && balance_of(final(state).accounts@, tx.from) + tx.amount.as_nat()
                + intrinsic_gas_nat(*config) * tx.gas_price.as_nat() == balance_of(
                old(state).accounts@,
                tx.from,
            ) && nonce_of(final(state).accounts@, tx.from) == nonce_of(
                old(state).accounts@,
                tx.from,
            ) + 1 && balance_of(final(state).accounts@, tx.to) == balance_of(
                old(state).accounts@,
                tx.to,
            ) + tx.amount.as_nat() && nonce_of(final(state).accounts@, tx.to) == nonce_of(
                old(state).accounts@,
                tx.to,
            ) && (forall|x: Address|
                x.as_nat() != tx.from.as_nat() && x.as_nat() != tx.to.as_nat() ==> find_account(
                    final(state).accounts@,
                    x,
                ) == find_account(old(state).accounts@, x)) && sum_balances(
                final(state).accounts@,
            ) + intrinsic_gas_nat(*config) * tx.gas_price.as_nat() == sum_balances(
                old(state).accounts@,
            ),
    {
        if !GasCalculator::validate_gas_price(tx.gas_price, config) {
            return Err(StateTransitionError::GasPriceTooLow);
        }
        if !GasCalculator::validate_gas_limit(tx.gas_limit, config) {
            return Err(StateTransitionError::InvalidGasLimit);
        }
        let intrinsic = GasCalculator::calculate_instrinsic_gas(config);
        if tx.gas_limit.lt(&intrinsic) {
            return Err(
                StateTransitionError::InsufficientGas {
                    provided: tx.gas_limit,
                    required: intrinsic,
                },
            );
        }
        proof {
            if tx.from == tx.to {
            } else {
                Address::lemma_as_nat_inj(tx.from, tx.to);
            }
        }
        if tx.from == tx.to {
            return Err(StateTransitionError::SameAddress);
        }
        let sender = state.get_account(&tx.from);
        let recipient = state.get_account(&tx.to);
        proof {
            if find_account(state.accounts@, tx.from) is Some {
                crate::state::lemma_find_addr(state.accounts@, tx.from);
            }
            Address::lemma_as_nat_inj(sender.address, tx.from);
            if find_account(state.accounts@, tx.to) is Some {
                crate::state::lemma_find_addr(state.accounts@, tx.to);
            }
            Address::lemma_as_nat_inj(recipient.address, tx.to);
            U256::lemma_as_nat_inj(sender.balance, sender.balance);
        }
        let max_cost = match tx.max_transaction_cost() {
            Some(c) => c,
            None => {
                return Err(
                    StateTransitionError::InsufficientBalance {
                        has: sender.balance,
                        needs: U256 {
                            limb0: 0xffff_ffff_ffff_ffff,
                            limb1: 0xffff_ffff_ffff_ffff,
                            limb2: 0xffff_ffff_ffff_ffff,
                            limb3: 0xffff_ffff_ffff_ffff,
                        },
                    },
                );
            }
        };
        if sender.balance.lt(&max_cost) {
            return Err(
                StateTransitionError::InsufficientBalance { has: sender.balance, needs: max_cost },
            );
        }
        if tx.nonce != sender.nonce || sender.nonce == 0xffff_ffff_ffff_ffff {
            return Err(
                StateTransitionError::InvalidNonce { expected: sender.nonce, got: tx.nonce },
            );
        }
        let new_to_balance = match recipient.balance.checked_add(&tx.amount) {
            Some(b) => b,
            None => {
                return Err(StateTransitionError::BalanceOverflow);
            }
        };
        proof {
            lemma_mul_inequality(
                intrinsic.as_nat() as int,
                tx.gas_limit.as_nat() as int,
                tx.gas_price.as_nat() as int,
            );
        }
        let gas_cost = match intrinsic.checked_mul(&tx.gas_price) {
            Some(g) => g,
            None => {
                proof {
                    assert(false);
                }
                U256::zero()
            }
        };
        let total_cost = match tx.amount.checked_add(&gas_cost) {
            Some(t) => t,
            None => {
                proof {
                    assert(false);
                }
                U256::zero()
            }
        };
        let mut new_sender = sender;
        new_sender.nonce = sender.nonce + 1;
        new_sender.balance = sender.balance.sub(&total_cost);
        let mut new_recipient = recipient;
        new_recipient.balance = new_to_balance;
        let ghost s0 = state.accounts@;
        state.set_account(tx.from, new_sender);
        let ghost s1 = state.accounts@;
        state.set_account(tx.to, new_recipient);
        proof {
            assert(new_sender.is_live());
            assert(find_account(s1, tx.from) == Some(new_sender));
            assert(find_account(state.accounts@, tx.from) == Some(new_sender));
            assert(balance_of(s1, tx.to) == balance_of(s0, tx.to));
            if !new_recipient.is_live() {
                assert(new_recipient.balance.as_nat() == 0);
            }
            assert(balance_of(state.accounts@, tx.to) == balance_of(s0, tx.to)
                + tx.amount.as_nat());
            assert(nonce_of(state.accounts@, tx.to) == nonce_of(s0, tx.to));
        }
        Ok(intrinsic)
    }
}

} // verus!
