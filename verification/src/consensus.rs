//! The consensus engine: the slot clock, block-template construction, header
//! validation against the chain tip and the slot's proposer, and the tip
//! update after a commit. Wall-clock time comes in as a parameter, so every
//! decision is a function of the engine state and its inputs.

use vstd::prelude::*;
use crate::block::{header_hash_spec, tx_root_spec, Block, BlockHeader};
use crate::crypto::{ecdsa_sign_spec, KeyPair};
use crate::proposer::{select_proposer_spec, ConsensusError, ProposerSelection};
use crate::transaction::Transaction;
use crate::u256::U256;
use crate::validator::active_of;

verus! {

pub struct ConsensusEngine {
    pub slot_duration: u64,
    pub genesis_time: u64,
    pub current_slot: u64,
    pub current_block_number: u64,
    pub current_block_hash: U256,
    pub proposer_selection: ProposerSelection,
    pub local_keypair: Option<KeyPair>,
}

impl ConsensusEngine {
    pub open spec fn wf(self) -> bool {
        self.slot_duration > 0 && self.proposer_selection.wf() && match self.local_keypair {
            Some(kp) => kp.wf(),
            None => true,
        }
    }

    /// Who proposes in `slot` under this engine's snapshot and seed.
    pub open spec fn proposer_for(self, slot: u64) -> Option<crate::address::Address> {
        select_proposer_spec(
            active_of(
                self.proposer_selection.validator_set.validators@,
                self.proposer_selection.validator_set.min_stake,
            ),
            self.proposer_selection.randomness_seed@,
            slot,
        )
    }

    pub fn new(
        slot_duration: u64,
        genesis_time: u64,
        proposer_selection: ProposerSelection,
        local_keypair: Option<KeyPair>,
    ) -> (r: ConsensusEngine)
        requires
            slot_duration > 0,
            proposer_selection.wf(),
            match local_keypair {
                Some(kp) => kp.wf(),
                None => true,
            },
        ensures
            r.wf(),
            r.slot_duration == slot_duration && r.genesis_time == genesis_time,
            r.current_slot == 0 && r.current_block_number == 0,
            r.current_block_hash.as_nat() == 0,
            r.proposer_selection == proposer_selection,
            r.local_keypair == local_keypair,
    {
        ConsensusEngine {
            slot_duration,
            genesis_time,
            current_slot: 0,
            current_block_number: 0,
            current_block_hash: U256::zero(),
            proposer_selection,
            local_keypair,
        }
    }

    /// The slot the wall clock sits in: slot zero starts at genesis.
    pub open spec fn slot_at(self, now: u64) -> u64 {
        if now >= self.genesis_time {
            (((now - self.genesis_time) as nat) / (self.slot_duration as nat)) as u64
        } else {
            0
        }
    }

    pub fn calculate_current_slot(&self, now: u64) -> (r: u64)
        requires
            self.wf(),
        ensures
            r == self.slot_at(now),
    {
        if now >= self.genesis_time {
            (now - self.genesis_time) / self.slot_duration
        } else {
            0
        }
    }

    /// True exactly when the wall clock has entered a fresh slot and the
    /// local key is that slot's proposer.
    pub fn should_produce_block(&self, now: u64) -> (r: bool)
        requires
            self.wf(),
        ensures
            r == (self.slot_at(now) > self.current_slot && match self.local_keypair {
                Some(kp) => self.proposer_for(self.slot_at(now)) == Some(kp.address),
                None => false,
            }),
    {
        let slot = self.calculate_current_slot(now);
        if slot <= self.current_slot {
            return false;
        }
        let kp = match &self.local_keypair {
            Some(kp) => kp,
            None => {
                return false;
            }
        };
        match self.proposer_selection.selector_proposer(slot) {
            Ok(p) => p == kp.address,
            Err(_) => false,
        }
    }

    /// Builds the block template for the current slot: next height, parent
    /// at the tip, the slot's proposer, the transactions root over the
    /// batch, and a zero state root for the executor to fill.
    #[verifier::rlimit(100)]
    #[verifier::spinoff_prover]
    pub fn create_block(&self, transactions: Vec<Transaction>, now: u64) -> (r: Result<
        Block,
        ConsensusError,
    >)
        requires
            self.wf(),
            self.current_block_number < u64::MAX,
        ensures
            r matches Ok(b) ==> b.header.index == self.current_block_number + 1
                && b.header.parent_hash == self.current_block_hash && b.header.slot == self.slot_at(
                now,
            ) && b.header.timestamp == now && Some(b.header.proposer) == self.proposer_for(
                self.slot_at(now),
            ) && b.header.transactions_root.be_seq() == tx_root_spec(b.transactions@)
                && b.header.state_root.as_nat() == 0 && b.header.validator_signature is None
                && b.transactions@ == transactions@,
            r matches Err(e) ==> e == ConsensusError::NoActiveValidators,
            r is Err <==> self.proposer_for(self.slot_at(now)) is None,
    {
        let slot = self.calculate_current_slot(now);
        let proposer = match self.proposer_selection.selector_proposer(slot) {
            Ok(p) => p,
            Err(e) => {
                return Err(e);
            }
        };
        let tx_root = Block::calculate_transactions_root(&transactions);
        let header = BlockHeader::new(
            self.current_block_number + 1,
            slot,
            proposer,
            self.current_block_hash,
            tx_root,
            U256::zero(),
            now,
        );
        Ok(Block::new(header, transactions))
    }

    /// Attaches the executor's state root and, when the local key is the
    /// proposer's, the proposer signature over the finished header.
    #[verifier::rlimit(100)]
    #[verifier::spinoff_prover]
    pub fn finalize_block(&self, block: Block, state_root: U256) -> (r: Block)
        requires
            self.wf(),
        ensures
            r.header.index == block.header.index && r.header.parent_hash
                == block.header.parent_hash && r.header.slot == block.header.slot
                && r.header.timestamp == block.header.timestamp && r.header.proposer
                == block.header.proposer && r.header.transactions_root
                == block.header.transactions_root,
            r.header.state_root == state_root,
            r.transactions@ == block.transactions@,
            match self.local_keypair {
                Some(kp) => if kp.address == block.header.proposer {
                    r.header.signature_valid() && (r.header.validator_signature matches Some(s)
                        && s.be_seq() == ecdsa_sign_spec(kp.secret@, header_hash_spec(r.header)))
                } else {
                    r.header.validator_signature is None
                },
                None => r.header.validator_signature is None,
            },
    {
        let mut header = block.header;
        header.state_root = state_root;
        header.validator_signature = None;
        match &self.local_keypair {
            Some(kp) => {
                if kp.address == header.proposer {
                    header.sign(kp);
                }
            }
            None => {}
        }
        Block::new(header, block.transactions)
    }

    /// The consensus checks on a received block, in order: next height,
    /// parent at the tip, the slot's proposer, a timestamp at most thirty
    /// seconds ahead, and a transactions root that recomputes.
    #[verifier::rlimit(100)]
    #[verifier::spinoff_prover]
    pub fn validate_block(&self, block: &Block, now: u64) -> (r: bool)
        requires
            self.wf(),
        ensures
            r == (block.header.index == self.current_block_number + 1 && block.header.parent_hash
                == self.current_block_hash && Some(block.header.proposer) == self.proposer_for(
                block.header.slot,
            ) && block.header.timestamp <= now + 30 && block.header.transactions_root.be_seq()
                == tx_root_spec(block.transactions@)),
    {
        if self.current_block_number == u64::MAX {
            proof {
                assert(block.header.index != self.current_block_number + 1);
            }
            return false;
        }
        if block.header.index != self.current_block_number + 1 {
            return false;
        }
        if !(block.header.parent_hash == self.current_block_hash) {
            return false;
        }
        let expected = match self.proposer_selection.selector_proposer(block.header.slot) {
            Ok(p) => p,
            Err(_) => {
                return false;
            }
        };
        if !(block.header.proposer == expected) {
            return false;
        }
        if now <= u64::MAX - 30 && block.header.timestamp > now + 30 {
            return false;
        }
        let root = Block::calculate_transactions_root(&block.transactions);
        proof {
            if root.be_seq() == block.header.transactions_root.be_seq() {
                U256::lemma_be_seq_inj(root, block.header.transactions_root);
            }
        }
        root == block.header.transactions_root
    }

    /// Advances the tip to a committed block.
    pub fn update_best_block(&mut self, block: &Block)
        requires
            old(self).wf(),
        ensures
            final(self).wf(),
            final(self).current_block_number == block.header.index,
            final(self).current_block_hash.be_seq() == header_hash_spec(block.header),
            final(self).current_slot == block.header.slot,
            final(self).slot_duration == old(self).slot_duration,
            final(self).genesis_time == old(self).genesis_time,
            final(self).proposer_selection == old(self).proposer_selection,
            final(self).local_keypair == old(self).local_keypair,
    {
        self.current_block_number = block.header.index;
        self.current_block_hash = block.header.hash();
        self.current_slot = block.header.slot;
    }
}

} // verus!
