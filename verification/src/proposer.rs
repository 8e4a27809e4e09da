//! Stake-weighted proposer selection. A per-slot seed — the slot number laid
//! little-endian over the first eight bytes of the randomness seed — keys a
//! ChaCha20 stream; one draw, reduced modulo the total active stake, picks
//! the validator whose cumulative stake range covers it. Everything is a
//! function of the validator set, the seed and the slot, so every node picks
//! the same proposer.

use vstd::prelude::*;
use rand_core::{SeedableRng, TryRng};
use crate::address::Address;
use crate::bytes::u64_le_seq;
use crate::validator::{active_of, total_stake_of, Validator, ValidatorSet};

verus! {

#[derive(Clone, Copy, Debug, PartialEq, Eq, Structural)]
pub enum ConsensusError {
    NoActiveValidators,
    NotMyTurn,
    SigningFailed,
    StorageFailed,
}

/// The first 64-bit draw of a ChaCha20 stream keyed with the 32-byte seed: a
/// function of the seed alone.
pub uninterp spec fn chacha20_first_u64(seed: Seq<u8>) -> u64;

/// Relies on rand_chacha::ChaCha20Rng::from_seed and rand_core::RngCore::
/// next_u64: the ChaCha20 stream, hence its first draw, is a deterministic
/// function of the seed.
#[verifier::external_body]
fn chacha20_draw(seed: &Vec<u8>) -> (r: u64)
    requires
        seed@.len() == 32,
    ensures
        r == chacha20_first_u64(seed@),
{
    let mut arr = [0u8; 32];
    arr.copy_from_slice(seed.as_slice());
    let mut rng = rand_chacha::ChaCha20Rng::from_seed(arr);
    match rng.try_next_u64() {
        Ok(x) => x,
        Err(_) => 0,
    }
}

/// The per-slot seed: the slot little-endian in the first eight bytes, the
/// tail of the base seed behind it.
pub open spec fn slot_seed_spec(seed: Seq<u8>, slot: u64) -> Seq<u8> {
    u64_le_seq(slot) + seed.skip(8)
}

/// The validator whose cumulative stake range covers `r`, walking the active
/// list in address order.
pub open spec fn weighted_pick(active: Seq<Validator>, r: nat) -> Address
    decreases active.len(),
{
    if active.len() == 0 {
        Address { hi: 0, mid: 0, lo: 0 }
    } else if r < active[0].staked_amount {
        active[0].address
    } else {
        weighted_pick(active.skip(1), (r - active[0].staked_amount) as nat)
    }
}

/// Who proposes in a slot, given the active set, the base seed and the slot:
/// nobody when no stake is active, else the stake-weighted pick under the
/// slot's ChaCha20 draw.
pub open spec fn select_proposer_spec(active: Seq<Validator>, seed: Seq<u8>, slot: u64) -> Option<
    Address,
> {
    if active.len() == 0 || total_stake_of(active) == 0 {
        None
    } else {
        Some(
            weighted_pick(
                active,
                chacha20_first_u64(slot_seed_spec(seed, slot)) as nat % total_stake_of(active),
            ),
        )
    }
}

/// The active sub-table stakes no more than the whole table.
proof fn lemma_filter_stake_le(s: Seq<Validator>, pred: spec_fn(Validator) -> bool)
    ensures
        total_stake_of(s.filter(pred)) <= total_stake_of(s),
    decreases s.len(),
{
    reveal(Seq::filter);
    if s.len() > 0 {
        lemma_filter_stake_le(s.drop_last(), pred);
        if pred(s.last()) {
            assert(s.filter(pred) == s.drop_last().filter(pred).push(s.last()));
            assert(s.drop_last().filter(pred).push(s.last()).drop_last() =~= s.drop_last().filter(
                pred,
            ));
        }
    }
}

/// A prefix of the walk consumes exactly its own stake.
proof fn lemma_weighted_pick_step(active: Seq<Validator>, r: nat, i: int)
    requires
        0 <= i < active.len(),
        total_stake_of(active.subrange(0, i)) <= r,
        r < total_stake_of(active.subrange(0, i)) + active[i].staked_amount,
    ensures
        weighted_pick(active, r) == active[i].address,
    decreases i,
{
    if i == 0 {
        assert(active.subrange(0, 0) =~= Seq::<Validator>::empty());
    } else {
        let tail = active.skip(1);
        assert(active.subrange(0, 1).drop_last() =~= Seq::<Validator>::empty());
        assert(active.subrange(0, 1).last() == active[0]);
        lemma_prefix_stake_split(active, i);
        assert(tail.subrange(0, i - 1) =~= active.subrange(1, i));
        lemma_weighted_pick_step(tail, (r - active[0].staked_amount) as nat, i - 1);
    }
}

/// The stake of a prefix splits as head plus the shifted prefix.
proof fn lemma_prefix_stake_split(active: Seq<Validator>, i: int)
    requires
        1 <= i <= active.len(),
    ensures
        total_stake_of(active.subrange(0, i)) == active[0].staked_amount + total_stake_of(
            active.skip(1).subrange(0, i - 1),
        ),
    decreases i,
{
    if i == 1 {
        assert(active.subrange(0, 1).drop_last() =~= Seq::<Validator>::empty());
        assert(active.subrange(0, 1).last() == active[0]);
        assert(active.skip(1).subrange(0, 0) =~= Seq::<Validator>::empty());
    } else {
        lemma_prefix_stake_split(active, i - 1);
        assert(active.subrange(0, i).drop_last() =~= active.subrange(0, i - 1));
        assert(active.subrange(0, i).last() == active[i - 1]);
        assert(active.skip(1).subrange(0, i - 1).drop_last() =~= active.skip(1).subrange(
            0,
            i - 2,
        ));
        assert(active.skip(1).subrange(0, i - 1).last() == active[i - 1]);
    }
}

pub struct ProposerSelection {
    pub validator_set: ValidatorSet,
    pub randomness_seed: Vec<u8>,
}

impl ProposerSelection {
    pub open spec fn wf(self) -> bool {
        self.validator_set.wf() && self.randomness_seed@.len() == 32
    }

    pub fn new(validator_set: ValidatorSet, randomness_seed: Vec<u8>) -> (r: ProposerSelection)
        requires
            validator_set.wf(),
            randomness_seed@.len() == 32,
        ensures
            r.wf(),
            r.validator_set == validator_set,
            r.randomness_seed == randomness_seed,
    {
        ProposerSelection { validator_set, randomness_seed }
    }

    /// The proposer for a slot: deterministic in the validator set, the
    /// randomness seed and the slot, and failing exactly when no stake is
    /// active.
    #[verifier::rlimit(100)]
    pub fn selector_proposer(&self, slot: u64) -> (r: Result<Address, ConsensusError>)
        requires
            self.wf(),
        ensures
            match r {
                Ok(a) => select_proposer_spec(
                    active_of(self.validator_set.validators@, self.validator_set.min_stake),
                    self.randomness_seed@,
                    slot,
                ) == Some(a),
                Err(e) => e == ConsensusError::NoActiveValidators && select_proposer_spec(
                    active_of(self.validator_set.validators@, self.validator_set.min_stake),
                    self.randomness_seed@,
                    slot,
                ) is None,
            },
    {
        let active = self.validator_set.get_active_validators();
        if active.len() == 0 {
            return Err(ConsensusError::NoActiveValidators);
        }
        let mut seed: Vec<u8> = Vec::new();
        crate::bytes::push_u64_le(&mut seed, slot);
        let mut k: usize = 8;
        while k < 32
            invariant
                8 <= k <= 32,
                self.randomness_seed@.len() == 32,
                seed@ == u64_le_seq(slot) + self.randomness_seed@.subrange(8, k as int),
            decreases 32 - k,
        {
            seed.push(self.randomness_seed[k]);
            proof {
                assert(seed@ =~= u64_le_seq(slot) + self.randomness_seed@.subrange(
                    8,
                    k as int + 1,
                ));
            }
            k = k + 1;
        }
        proof {
            assert(self.randomness_seed@.subrange(8, 32) =~= self.randomness_seed@.skip(8));
            assert(seed@ == slot_seed_spec(self.randomness_seed@, slot));
        }
        let draw = chacha20_draw(&seed);
        let n = active.len();
        let ghost av = active@;
        proof {
            lemma_filter_stake_le(
                self.validator_set.validators@,
                |v: Validator| crate::validator::is_active_spec(v, self.validator_set.min_stake),
            );
        }
        let mut total: u128 = 0;
        let mut i: usize = 0;
        proof {
            assert(av.subrange(0, 0) =~= Seq::<Validator>::empty());
        }
        while i < n
            invariant
                av == active@,
                n == av.len(),
                0 <= i <= n,
                total as nat == total_stake_of(av.subrange(0, i as int)),
                total <= 0xffff_ffff_ffff_ffff_u128 * (i as u128),
                total_stake_of(av.subrange(0, i as int)) <= 0xffff_ffff_ffff_ffffnat * (
                i as nat),
            decreases n - i,
        {
            proof {
                assert(av.subrange(0, i as int + 1).drop_last() =~= av.subrange(0, i as int));
                assert(av.subrange(0, i as int + 1).last() == av[i as int]);
            }
            total = total + active[i].staked_amount as u128;
            i = i + 1;
        }
        proof {
            assert(av.subrange(0, n as int) =~= av);
        }
        if total == 0 {
            return Err(ConsensusError::NoActiveValidators);
        }
        let r: u128 = (draw as u128) % total;
        let mut cumulative: u128 = 0;
        let mut j: usize = 0;
        proof {
            assert(av.subrange(0, 0) =~= Seq::<Validator>::empty());
        }
        while j < n
            invariant
                av == active@,
                av == active_of(self.validator_set.validators@, self.validator_set.min_stake),
                n == av.len(),
                n > 0,
                0 <= j <= n,
                r <= 0xffff_ffff_ffff_ffff_u128,
                cumulative as nat == total_stake_of(av.subrange(0, j as int)),
                cumulative <= r,
                (r as nat) < total_stake_of(av),
                r as nat == (chacha20_first_u64(slot_seed_spec(self.randomness_seed@, slot)) as nat)
                    % total_stake_of(av),
            decreases n - j,
        {
            proof {
                assert(av.subrange(0, j as int + 1).drop_last() =~= av.subrange(0, j as int));
                assert(av.subrange(0, j as int + 1).last() == av[j as int]);
            }
            let v = active[j];
            if r < cumulative + v.staked_amount as u128 {
                proof {
                    lemma_weighted_pick_step(av, r as nat, j as int);
                }
                return Ok(v.address);
            }
            cumulative = cumulative + v.staked_amount as u128;
            j = j + 1;
        }
        proof {
            assert(av.subrange(0, n as int) =~= av);
            assert(false);
        }
                Err(ConsensusError::NoActiveValidators)
    }
}

/// A longer prefix stakes no less; in particular every prefix stays within
/// the total.
proof fn lemma_prefix_stake_mono(s: Seq<Validator>, i: int, j: int)
    requires
        0 <= i <= j <= s.len(),
    ensures
        total_stake_of(s.subrange(0, i)) <= total_stake_of(s.subrange(0, j)),
    decreases j - i,
{
    if i < j {
        lemma_prefix_stake_mono(s, i, j - 1);
        assert(s.subrange(0, j).drop_last() =~= s.subrange(0, j - 1));
    }
}

/// Proposer selection is a function of the active set, the seed and the
/// slot: equal snapshots pick the same proposer in every slot.
pub proof fn lemma_select_proposer_deterministic(
    active1: Seq<Validator>,
    seed1: Seq<u8>,
    active2: Seq<Validator>,
    seed2: Seq<u8>,
    slot: u64,
)
    requires
        active1 == active2,
        seed1 == seed2,
    ensures
        select_proposer_spec(active1, seed1, slot) == select_proposer_spec(active2, seed2, slot),
{
}

} // verus!
