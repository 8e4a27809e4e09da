//! The block lifecycle: the produce pipeline that drains the pool, builds,
//! executes, signs, stores and commits a block; the received-block pipeline
//! that checks the proposer's signature, validates, replays and commits; and
//! the attestation a validator signs over the outcome. Only the network send
//! itself is left to the caller.

use vstd::prelude::*;
use crate::address::Address;
use crate::block::{header_hash_spec, tx_root_spec, Block};
use crate::bytes::u64_le_seq;
use crate::consensus::ConsensusEngine;
use crate::crypto::{ecdsa_recover_spec, keccak256, keccak_spec, recover_signer, KeyPair,
    Signature};
use crate::execution::{lemma_simulate_full_batch, simulate_spec, ExecutionEngine};
use crate::storage::{last_index_key_spec, Storage};
use crate::u256::U256;

verus! {

/// The role a node plays in a slot.
#[derive(Clone, Copy, Debug, PartialEq, Eq, Structural)]
pub enum ValidatorRole {
    Proposer,
    Attestor,
}

/// Why a received block was turned away.
#[derive(Clone, Copy, Debug, PartialEq, Eq, Structural)]
pub enum RejectReason {
    InvalidSignature,
    ConsensusInvalid,
    ExecutionMismatch,
}

/// The outcome of a validation pass.
#[derive(Clone, Copy, Debug, PartialEq, Eq, Structural)]
pub enum ValidationResult {
    Valid,
    Invalid(RejectReason),
}

/// A validator's vote on a received block.
#[derive(Clone, Copy, Debug, PartialEq, Eq, Structural)]
pub enum AttestationVote {
    Accept,
    Reject { reason: RejectReason },
}

/// A signed vote: the voter, the vote, and a signature over the keccak-256
/// digest of the vote message.
#[derive(Clone, Copy, Debug, PartialEq, Eq, Structural)]
pub struct Attestation {
    pub validator_id: Address,
    pub vote: AttestationVote,
    pub signature: Signature,
}

/// Why a slot produced no block.
#[derive(Clone, Copy, Debug, PartialEq, Eq, Structural)]
pub enum ProduceError {
    NotMyTurn,
    NoTransactions,
    NoValidTransactions,
}

/// The ASCII hex digit of a value below sixteen, lower case.
pub open spec fn hex_digit_spec(n: u8) -> u8 {
    if n < 10 {
        (48 + n) as u8
    } else {
        (87 + n) as u8
    }
}

/// The bytes rendered as ASCII hex, two digits each.
pub open spec fn hex_of_bytes(s: Seq<u8>) -> Seq<u8>
    decreases s.len(),
{
    if s.len() == 0 {
        Seq::empty()
    } else {
        hex_of_bytes(s.drop_last()) + seq![
            hex_digit_spec(s.last() / 16),
            hex_digit_spec(s.last() % 16),
        ]
    }
}

/// The vote spelled out: the ASCII letters of accept or reject.
pub open spec fn vote_text_spec(vote: AttestationVote) -> Seq<u8> {
    match vote {
        AttestationVote::Accept => seq![65u8, 67u8, 67u8, 69u8, 80u8, 84u8],
        AttestationVote::Reject { .. } => seq![82u8, 69u8, 74u8, 69u8, 67u8, 84u8],
    }
}

/// The attested message: the ASCII tag, a colon-separated hex block hash,
/// and the vote text.
pub open spec fn attestation_message_spec(hash_bytes: Seq<u8>, vote: AttestationVote) -> Seq<
    u8,
> {
    seq![65u8, 84u8, 84u8, 69u8, 83u8, 84u8, 58u8] + hex_of_bytes(hash_bytes) + seq![58u8]
        + vote_text_spec(vote)
}

/// Renders the message a vote on `block_hash` is signed over.
pub fn attestation_message(block_hash: &U256, vote: &AttestationVote) -> (r: Vec<u8>)
    ensures
        r@ == attestation_message_spec(block_hash.be_seq(), *vote),
{
    let mut out: Vec<u8> = Vec::new();
    out.push(65);
    out.push(84);
    out.push(84);
    out.push(69);
    out.push(83);
    out.push(84);
    out.push(58);
    let ghost head = out@;
    let hash_bytes = block_hash.to_be_bytes();
    let m = hash_bytes.len();
    let mut i: usize = 0;
    proof {
        assert(hash_bytes@.subrange(0, 0) =~= Seq::<u8>::empty());
        assert(out@ =~= head + hex_of_bytes(hash_bytes@.subrange(0, 0)));
    }
    while i < m
        invariant
            m == hash_bytes@.len(),
            0 <= i <= m,
            out@ == head + hex_of_bytes(hash_bytes@.subrange(0, i as int)),
        decreases m - i,
    {
        let b = hash_bytes[i];
        out.push(if b / 16 < 10 {
            48 + b / 16
        } else {
            87 + b / 16
        });
        out.push(if b % 16 < 10 {
            48 + b % 16
        } else {
            87 + b % 16
        });
        proof {
            let pre = hash_bytes@.subrange(0, i as int);
            let post = hash_bytes@.subrange(0, i as int + 1);
            assert(post.drop_last() =~= pre);
            assert(post.last() == hash_bytes@[i as int]);
            assert(out@ =~= head + hex_of_bytes(post));
        }
        i = i + 1;
    }
    proof {
        assert(hash_bytes@.subrange(0, m as int) =~= hash_bytes@);
    }
    out.push(58);
    match vote {
        AttestationVote::Accept => {
            out.push(65);
            out.push(67);
            out.push(67);
            out.push(69);
            out.push(80);
            out.push(84);
        }
        AttestationVote::Reject { .. } => {
            out.push(82);
            out.push(69);
            out.push(74);
            out.push(69);
            out.push(67);
            out.push(84);
        }
    }
    proof {
        assert(out@ =~= attestation_message_spec(block_hash.be_seq(), *vote));
    }
    out
}

/// Signs a vote on a block hash: the signature is over the keccak-256
/// digest of the vote message and recovers to the voter.
pub fn sign_attestation(kp: &KeyPair, block_hash: &U256, vote: AttestationVote) -> (r:
    Attestation)
    requires
        kp.wf(),
    ensures
        r.validator_id == kp.address,
        r.vote == vote,
        ecdsa_recover_spec(
            r.signature.be_seq(),
            keccak_spec(attestation_message_spec(block_hash.be_seq(), vote)),
        ) == Some(kp.address.be_seq()),
{
    let message = attestation_message(block_hash, &vote);
    let digest = keccak256(&message);
    let sig_bytes = kp.sign_prehash(&digest);
    Attestation {
        validator_id: kp.address,
        vote,
        signature: Signature::from_bytes(&sig_bytes),
    }
}

/// Checks a vote's signature: it must recover to the claimed voter over the
/// digest of the vote message.
pub fn verify_attestation_signature(attestation: &Attestation, block_hash: &U256) -> (r: bool)
    ensures
        r == (ecdsa_recover_spec(
            attestation.signature.be_seq(),
            keccak_spec(attestation_message_spec(block_hash.be_seq(), attestation.vote)),
        ) == Some(attestation.validator_id.be_seq())),
{
    let message = attestation_message(block_hash, &attestation.vote);
    let digest = keccak256(&message);
    let sig_bytes = attestation.signature.to_bytes();
    match recover_signer(&sig_bytes, &digest) {
        Some(recovered) => {
            proof {
                if recovered.be_seq() == attestation.validator_id.be_seq() {
                    Address::lemma_be_seq_inj(recovered, attestation.validator_id);
                }
            }
            recovered == attestation.validator_id
        }
        None => false,
    }
}

/// The vote a validator casts for a processing outcome.
pub fn vote_for(result: &BlockProcessResult) -> (r: AttestationVote)
    ensures
        match result {
            BlockProcessResult::Accepted(_) => r == AttestationVote::Accept,
            BlockProcessResult::Rejected(_, reason) => r == (AttestationVote::Reject {
                reason: *reason,
            }),
        },
{
    match result {
        BlockProcessResult::Accepted(_) => AttestationVote::Accept,
        BlockProcessResult::Rejected(_, reason) => AttestationVote::Reject { reason: *reason },
    }
}

/// The outcome of processing a received block: the header hash, and either
/// acceptance or the first failing check.
#[derive(Clone, Copy, Debug, PartialEq, Eq, Structural)]
pub enum BlockProcessResult {
    Accepted(U256),
    Rejected(U256, RejectReason),
}

/// The node's chain: consensus, execution and the block index wired into
/// one produce/validate/commit pipeline.
pub struct Blockchain {
    pub consensus: ConsensusEngine,
    pub executor: ExecutionEngine,
    pub store: Storage,
}

impl Blockchain {
    pub open spec fn wf(self) -> bool {
        self.consensus.wf() && self.executor.wf()
    }

    pub fn new(consensus: ConsensusEngine, executor: ExecutionEngine, store: Storage) -> (r:
        Blockchain)
        requires
            consensus.wf(),
            executor.wf(),
        ensures
            r.wf(),
            r.consensus == consensus && r.executor == executor && r.store == store,
    {
        Blockchain { consensus, executor, store }
    }

    /// Whether a received block passes consensus validation and replays in
    /// full: every consensus check holds and the preflight admits the whole
    /// batch unchanged.
    pub fn validate_block(&self, block: &Block, now: u64) -> (r: bool)
        requires
            self.wf(),
        ensures
            r == (block.header.index == self.consensus.current_block_number + 1
                && block.header.parent_hash == self.consensus.current_block_hash && Some(
                block.header.proposer,
            ) == self.consensus.proposer_for(block.header.slot) && block.header.timestamp <= now
                + 30 && block.header.transactions_root.be_seq() == tx_root_spec(
                block.transactions@,
            ) && simulate_spec(self.executor.state.accounts@, block.transactions@)
                == block.transactions@),
    {
        if !self.consensus.validate_block(block, now) {
            return false;
        }
        let admitted = self.executor.simulate_execute_block(&block.transactions);
        if admitted.len() != block.transactions.len() {
            proof {
                assert(simulate_spec(self.executor.state.accounts@, block.transactions@)
                    != block.transactions@);
            }
            return false;
        }
        proof {
            lemma_simulate_full_batch(self.executor.state.accounts@, block.transactions@);
        }
        true
    }

    /// The produce pipeline for one slot: when the local key is the slot's
    /// proposer, drain the pool, keep what the preflight admits, build and
    /// execute the block, sign it, store its three records, advance the tip
    /// and clear the pool. A turned-away slot changes nothing.
    #[verifier::rlimit(100)]
    #[verifier::spinoff_prover]
    pub fn produce_block(&mut self, now: u64) -> (r: Result<Block, ProduceError>)
        requires
            old(self).wf(),
            old(self).consensus.current_block_number < u64::MAX,
        ensures
            final(self).wf(),
            r is Err ==> *final(self) == *old(self),
            (r matches Err(e) && e is NotMyTurn) <==> !(old(self).consensus.slot_at(now) > old(
                self,
            ).consensus.current_slot && match old(self).consensus.local_keypair {
                Some(kp) => old(self).consensus.proposer_for(old(self).consensus.slot_at(now))
                    == Some(kp.address),
                None => false,
            }),
            (r matches Err(e) && e is NoTransactions) <==> (!(r matches Err(e2) && e2
                is NotMyTurn) && old(self).executor.mempool.transactions@.len() == 0),
            (r matches Err(e) && e is NoValidTransactions) <==> (!(r matches Err(e2) && e2
                is NotMyTurn) && old(self).executor.mempool.transactions@.len() > 0
                && simulate_spec(
                old(self).executor.state.accounts@,
                old(self).executor.mempool.transactions@,
            ).len() == 0),
            r matches Ok(b) ==> b.transactions@ == simulate_spec(
                old(self).executor.state.accounts@,
                old(self).executor.mempool.transactions@,
            ) && b.header.index == old(self).consensus.current_block_number + 1
                && b.header.parent_hash == old(self).consensus.current_block_hash && Some(
                b.header.proposer,
            ) == old(self).consensus.proposer_for(old(self).consensus.slot_at(now))
                && b.header.transactions_root.be_seq() == tx_root_spec(b.transactions@)
                && b.header.state_root == final(self).executor.state.state_root
                && b.header.signature_valid() && final(self).store.spec_get(
                u64_le_seq(b.header.index),
            ) == Some(header_hash_spec(b.header)) && final(self).store.spec_get(
                last_index_key_spec(),
            ) == Some(u64_le_seq(b.header.index)) && final(self).consensus.current_block_number
                == b.header.index && final(self).executor.mempool.transactions@.len() == 0,
    {
        if !self.consensus.should_produce_block(now) {
            return Err(ProduceError::NotMyTurn);
        }
        let pending = self.executor.get_pending_transactions();
        if pending.len() == 0 {
            return Err(ProduceError::NoTransactions);
        }
        let valid = self.executor.simulate_execute_block(&pending);
        if valid.len() == 0 {
            return Err(ProduceError::NoValidTransactions);
        }
        let block = match self.consensus.create_block(valid, now) {
            Ok(b) => b,
            Err(_) => {
                proof {
                    assert(false);
                }
                return Err(ProduceError::NotMyTurn);
            }
        };
        let result = self.executor.execute_block_commit(&block.transactions);
        let finalized = self.consensus.finalize_block(block, result.state_root);
        let encoded = finalized.encode();
        let _hash = self.store.store_block(&finalized, encoded);
        self.consensus.update_best_block(&finalized);
        self.executor.mempool.clear_all_transactions();
        Ok(finalized)
    }

    /// The received-block pipeline: check that the sender is the header's
    /// proposer and signed its hash, validate against the tip and the slot's
    /// proposer, replay the batch in full, then commit, store and advance.
    /// A rejected block changes nothing; an accepted one was exactly the
    /// batch our own preflight admits.
    #[verifier::rlimit(100)]
    #[verifier::spinoff_prover]
    pub fn process_received_block(
        &mut self,
        block: &Block,
        proposer_id: Address,
        signature: &Signature,
        now: u64,
    ) -> (r: BlockProcessResult)
        requires
            old(self).wf(),
        ensures
            final(self).wf(),
            r matches BlockProcessResult::Rejected(h, _) ==> h.be_seq() == header_hash_spec(
                block.header,
            ) && *final(self) == *old(self),
            r matches BlockProcessResult::Accepted(h) ==> h.be_seq() == header_hash_spec(
                block.header,
            ) && proposer_id == block.header.proposer && ecdsa_recover_spec(
                signature.be_seq(),
                header_hash_spec(block.header),
            ) == Some(proposer_id.be_seq()) && block.header.index == old(
                self,
            ).consensus.current_block_number + 1 && block.header.parent_hash == old(
                self,
            ).consensus.current_block_hash && Some(block.header.proposer) == old(
                self,
            ).consensus.proposer_for(block.header.slot) && simulate_spec(
                old(self).executor.state.accounts@,
                block.transactions@,
            ) == block.transactions@ && final(self).consensus.current_block_number
                == block.header.index && final(self).store.spec_get(
                u64_le_seq(block.header.index),
            ) == Some(header_hash_spec(block.header)) && final(self).store.spec_get(
                last_index_key_spec(),
            ) == Some(u64_le_seq(block.header.index)),
    {
        let hash = block.header.hash();
        if !(proposer_id == block.header.proposer) {
            return BlockProcessResult::Rejected(hash, RejectReason::InvalidSignature);
        }
        let sig_bytes = signature.to_bytes();
        let signer_ok = match recover_signer(&sig_bytes, &hash) {
            Some(recovered) => {
                proof {
                    if recovered.be_seq() == proposer_id.be_seq() {
                        Address::lemma_be_seq_inj(recovered, proposer_id);
                    }
                }
                recovered == proposer_id
            }
            None => false,
        };
        if !signer_ok {
            return BlockProcessResult::Rejected(hash, RejectReason::InvalidSignature);
        }
        if !self.consensus.validate_block(block, now) {
            return BlockProcessResult::Rejected(hash, RejectReason::ConsensusInvalid);
        }
        let admitted = self.executor.simulate_execute_block(&block.transactions);
        if admitted.len() != block.transactions.len() {
            return BlockProcessResult::Rejected(hash, RejectReason::ExecutionMismatch);
        }
        proof {
            lemma_simulate_full_batch(self.executor.state.accounts@, block.transactions@);
        }
        let _result = self.executor.execute_block_commit(&block.transactions);
        let encoded = block.encode();
        let _stored = self.store.store_block(block, encoded);
        self.consensus.update_best_block(block);
        BlockProcessResult::Accepted(hash)
    }

    /// The latest stored height, zero when the chain is empty.
    pub fn get_last_index(&self) -> (r: u64)
        ensures
            match self.store.spec_get(last_index_key_spec()) {
                Some(v) => v.len() == 8 ==> v == u64_le_seq(r),
                None => r == 0,
            },
    {
        match self.store.get_last_index() {
            Some(h) => h,
            None => 0,
        }
    }

    /// The stored header hash for a height, if any.
    pub fn get_block_hash_by_index(&self, index: u64) -> (r: Option<U256>)
        ensures
            r matches Some(h) ==> self.store.spec_get(u64_le_seq(index)) == Some(h.be_seq()),
    {
        self.store.get_block_hash_from_index(index)
    }

    /// The stored encoding of the block at a height, if any: first the
    /// height resolves to a header hash, then the hash to the body.
    pub fn get_block_by_index(&self, index: u64) -> (r: Option<Vec<u8>>)
        ensures
            r matches Some(v) ==> exists|h: U256|
                self.store.spec_get(u64_le_seq(index)) == Some(h.be_seq())
                    && self.store.spec_get(h.be_seq()) == Some(v@),
    {
        let hash = match self.store.get_block_hash_from_index(index) {
            Some(h) => h,
            None => {
                return None;
            }
        };
        self.store.get_block_from_block_hash(&hash)
    }
}

} // verus!
