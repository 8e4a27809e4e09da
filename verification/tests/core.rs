use speed_blockchain::account::Account;
use speed_blockchain::address::Address;
use speed_blockchain::crypto::KeyPair;
use speed_blockchain::gas::GasConfig;
use speed_blockchain::mempool::Mempool;
use speed_blockchain::state::State;
use speed_blockchain::state_transition::{StateTransition, StateTransitionError};
use speed_blockchain::transaction::Transaction;
use speed_blockchain::u256::U256;

fn eth(n: u64) -> U256 {
    let base = U256::from_u128(1_000_000_000_000_000_000u128);
    let k = U256::from_u64(n);
    k.checked_mul(&base).unwrap()
}

fn addr(n: u64) -> Address {
    Address { hi: 0, mid: 0, lo: n }
}

#[test]
fn u256_checked_arithmetic() {
    let a = U256::from_u64(21_160);
    let b = U256::from_u64(1_000_000_000);
    let p = a.checked_mul(&b).unwrap();
    assert_eq!(p, U256::from_u128(21_160u128 * 1_000_000_000u128));
    let max = U256 {
        limb0: u64::MAX,
        limb1: u64::MAX,
        limb2: u64::MAX,
        limb3: u64::MAX,
    };
    assert!(max.checked_add(&U256::from_u64(1)).is_none());
    assert!(max.checked_mul(&U256::from_u64(2)).is_none());
    assert_eq!(max.sub(&max), U256::from_u64(0));
}

#[test]
fn funded_transfer_updates_balances() {
    let alice = addr(1);
    let bob = addr(2);
    let mut state = State::new();
    state.fund_account(&alice, eth(100));
    let tx = Transaction::new(
        alice,
        bob,
        eth(1),
        U256::from_u64(21_160),
        U256::from_u64(1_000_000_000),
        7,
        0,
    );
    let config = GasConfig::default();
    let gas = StateTransition::apply_transaction(&mut state, &tx, &config).unwrap();
    assert_eq!(gas, U256::from_u64(21_160));
    let fee = U256::from_u128(21_160u128 * 1_000_000_000u128);
    let expected_alice = eth(100).sub(&eth(1)).sub(&fee);
    assert_eq!(state.get_balance(&alice), expected_alice);
    assert_eq!(state.get_balance(&bob), eth(1));
    assert_eq!(state.get_nonce(&alice), 1);
}

#[test]
fn underfunded_transfer_rejected_and_state_unchanged() {
    let alice = addr(1);
    let bob = addr(2);
    let mut state = State::new();
    let root_before = state.get_state_root();
    let tx = Transaction::new(
        alice,
        bob,
        eth(1),
        U256::from_u64(21_160),
        U256::from_u64(1_000_000_000),
        7,
        0,
    );
    let config = GasConfig::default();
    let err = StateTransition::apply_transaction(&mut state, &tx, &config).unwrap_err();
    match err {
        StateTransitionError::InsufficientBalance { has, .. } => {
            assert_eq!(has, U256::from_u64(0));
        }
        other => panic!("unexpected error {:?}", other),
    }
    assert_eq!(state.get_state_root(), root_before);
    assert_eq!(state.account_count(), 0);
}

#[test]
fn replay_rejected_with_nonce_error() {
    let alice = addr(1);
    let bob = addr(2);
    let mut state = State::new();
    state.fund_account(&alice, eth(100));
    let tx = Transaction::new(
        alice,
        bob,
        eth(1),
        U256::from_u64(21_160),
        U256::from_u64(1_000_000_000),
        7,
        0,
    );
    let config = GasConfig::default();
    StateTransition::apply_transaction(&mut state, &tx, &config).unwrap();
    let err = StateTransition::apply_transaction(&mut state, &tx, &config).unwrap_err();
    match err {
        StateTransitionError::InvalidNonce { expected, got } => {
            assert_eq!(expected, 1);
            assert_eq!(got, 0);
        }
        other => panic!("unexpected error {:?}", other),
    }
}

#[test]
fn replace_by_fee_keeps_the_higher_bid() {
    let mut secret = vec![0u8; 32];
    secret[31] = 1;
    let kp = KeyPair::from_secret(&secret).unwrap();
    let bob = addr(2);
    let mut pool = Mempool::new(16);
    let mut a = Transaction::new(
        kp.address,
        bob,
        U256::from_u64(5),
        U256::from_u64(21_160),
        U256::from_u64(1_000_000_000),
        7,
        5,
    );
    a.sign(&kp);
    pool.add_transaction(&a).unwrap();
    let mut b = a;
    b.gas_price = U256::from_u64(2_000_000_000);
    b.sign(&kp);
    pool.add_transaction(&b).unwrap();
    assert_eq!(pool.len(), 1);
    assert_eq!(pool.get_all_transactions()[0].gas_price, U256::from_u64(2_000_000_000));
    let mut c = a;
    c.gas_price = U256::from_u64(1_000_000_000);
    c.sign(&kp);
    assert!(pool.add_transaction(&c).is_err());
    assert_eq!(pool.len(), 1);
    assert_eq!(pool.get_all_transactions()[0].gas_price, U256::from_u64(2_000_000_000));
}

#[test]
fn signature_roundtrip_recovers_sender() {
    let mut secret = vec![0u8; 32];
    secret[31] = 7;
    let kp = KeyPair::from_secret(&secret).unwrap();
    let mut tx = Transaction::new(
        kp.address,
        addr(2),
        U256::from_u64(5),
        U256::from_u64(21_160),
        U256::from_u64(1_000_000_000),
        7,
        0,
    );
    tx.sign(&kp);
    assert!(tx.is_signature_valid());
    let mut other = tx;
    other.amount = U256::from_u64(6);
    assert!(!other.is_signature_valid());
}

#[test]
fn account_defaults_are_zero() {
    let a = Account::new(addr(9));
    assert_eq!(a.balance, U256::from_u64(0));
    assert_eq!(a.nonce, 0);
}

use speed_blockchain::chain::{attestation_message, sign_attestation, verify_attestation_signature,
    AttestationVote, Blockchain, BlockProcessResult};
use speed_blockchain::consensus::ConsensusEngine;
use speed_blockchain::execution::ExecutionEngine;
use speed_blockchain::proposer::ProposerSelection;
use speed_blockchain::storage::Storage;
use speed_blockchain::validator::ValidatorSet;

fn node(kp: Option<KeyPair>, proposer_addr: Address) -> Blockchain {
    let mut set = ValidatorSet::new(100);
    set.add_validator(proposer_addr, 10_000).unwrap();
    let seed = vec![1u8; 32];
    let selection = ProposerSelection::new(set, seed);
    let consensus = ConsensusEngine::new(10, 1_000, selection, kp);
    let executor = ExecutionEngine::new(1000);
    Blockchain::new(consensus, executor, Storage::new())
}

#[test]
fn produce_then_replay_matches_state_root() {
    let mut secret = vec![0u8; 32];
    secret[31] = 3;
    let kp = KeyPair::from_secret(&secret).unwrap();
    let alice = kp.address;
    let bob = addr(42);
    let mut proposer_chain = node(Some(KeyPair::from_secret(&secret).unwrap()), alice);
    proposer_chain.executor.state.fund_account(&alice, eth(100));
    let mut tx = Transaction::new(
        alice,
        bob,
        eth(1),
        U256::from_u64(21_160),
        U256::from_u64(1_000_000_000),
        7,
        0,
    );
    tx.sign(&kp);
    proposer_chain.executor.add_transaction(&tx).unwrap();
    let now = 1_000 + 11;
    let block = proposer_chain.produce_block(now).unwrap();
    assert_eq!(block.header.index, 1);
    assert_eq!(block.transactions.len(), 1);
    assert!(block.header.validator_signature.is_some());
    assert_eq!(proposer_chain.get_last_index(), 1);
    assert_eq!(proposer_chain.executor.mempool.len(), 0);

    let mut attestor_chain = node(None, alice);
    attestor_chain.executor.state.fund_account(&alice, eth(100));
    let signature = block.header.validator_signature.unwrap();
    let result = attestor_chain.process_received_block(
        &block,
        block.header.proposer,
        &signature,
        now,
    );
    match result {
        BlockProcessResult::Accepted(h) => {
            assert_eq!(h, block.header.hash());
        }
        BlockProcessResult::Rejected(_, reason) => panic!("rejected: {:?}", reason),
    }
    assert_eq!(attestor_chain.get_last_index(), 1);
    assert_eq!(
        attestor_chain.executor.state.get_state_root(),
        block.header.state_root
    );
    assert_eq!(
        proposer_chain.executor.state.get_state_root(),
        attestor_chain.executor.state.get_state_root()
    );
    let stored = attestor_chain.get_block_by_index(1).unwrap();
    assert_eq!(stored, block.encode());
}

#[test]
fn attestation_message_and_signature_roundtrip() {
    let zero_hash = U256::from_u64(0);
    let message = attestation_message(&zero_hash, &AttestationVote::Accept);
    let mut expected = b"ATTEST:".to_vec();
    expected.extend(std::iter::repeat(b'0').take(64));
    expected.push(b':');
    expected.extend_from_slice(b"ACCEPT");
    assert_eq!(message, expected);

    let mut secret = vec![0u8; 32];
    secret[31] = 9;
    let kp = KeyPair::from_secret(&secret).unwrap();
    let attestation = sign_attestation(&kp, &zero_hash, AttestationVote::Accept);
    assert!(verify_attestation_signature(&attestation, &zero_hash));
    let other_hash = U256::from_u64(5);
    assert!(!verify_attestation_signature(&attestation, &other_hash));
}

#[test]
fn commit_burns_full_limit_on_failure() {
    let alice = addr(1);
    let bob = addr(2);
    let mut engine = ExecutionEngine::new(16);
    engine.state.fund_account(&alice, eth(100));
    let good = Transaction::new(
        alice,
        bob,
        eth(1),
        U256::from_u64(21_160),
        U256::from_u64(1_000_000_000),
        7,
        0,
    );
    let bad = Transaction::new(
        alice,
        bob,
        eth(1),
        U256::from_u64(21_160),
        U256::from_u64(1_000_000_000),
        7,
        0,
    );
    let batch = vec![good, bad];
    let result = engine.execute_block_commit(&batch);
    assert_eq!(result.receipts.len(), 2);
    assert!(result.receipts[0].success);
    assert_eq!(result.receipts[0].gas_used, U256::from_u64(21_160));
    assert!(!result.receipts[1].success);
    assert_eq!(result.receipts[1].gas_used, U256::from_u64(21_160));
    assert!(result.receipts[1].error_message.is_some());
    let expected_total = U256::from_u64(21_160).checked_add(&U256::from_u64(21_160)).unwrap();
    assert_eq!(result.total_gas_used, expected_total);
    assert_eq!(result.state_root, engine.state.get_state_root());
}

#[test]
fn simulate_threads_nonces_and_balances() {
    let alice = addr(1);
    let bob = addr(2);
    let mut engine = ExecutionEngine::new(16);
    engine.state.fund_account(&alice, eth(100));
    let t0 = Transaction::new(
        alice,
        bob,
        eth(1),
        U256::from_u64(21_160),
        U256::from_u64(1_000_000_000),
        7,
        0,
    );
    let t1 = Transaction::new(
        alice,
        bob,
        eth(1),
        U256::from_u64(21_160),
        U256::from_u64(1_000_000_000),
        7,
        1,
    );
    let stale = t0;
    let batch = vec![t0, t1, stale];
    let admitted = engine.simulate_execute_block(&batch);
    assert_eq!(admitted.len(), 2);
    assert_eq!(admitted[0].nonce, 0);
    assert_eq!(admitted[1].nonce, 1);
}
