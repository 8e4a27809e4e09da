//! The validator table: stake per address with a minimum-stake floor. The
//! table is kept sorted by address so that every walk over the active set is
//! deterministic.

use vstd::prelude::*;
use crate::address::Address;

verus! {

#[derive(Clone, Copy, Debug, PartialEq, Eq, Structural)]
pub struct Validator {
    pub address: Address,
    pub staked_amount: u64,
    pub is_active: bool,
    pub last_block_proposed: u64,
    pub slash_count: u32,
}

#[derive(Clone, Copy, Debug, PartialEq, Eq, Structural)]
pub enum StakeError {
    InsufficientStake,
    StakeOverflow,
}

/// Failures of validator bookkeeping beyond staking. No operation returns
/// one yet; the single placeholder variant exists because an uninhabited
/// type cannot be declared here.
#[derive(Clone, Copy, Debug, PartialEq, Eq, Structural)]
pub enum ValidatorError {
    Unavailable,
}

/// Strictly ascending by address: sorted and duplicate-free at once.
pub open spec fn validators_sorted(s: Seq<Validator>) -> bool {
    forall|i: int, j: int|
        0 <= i < j < s.len() ==> s[i].address.as_nat() < s[j].address.as_nat()
}

/// A validator that takes part in selection: active and at or over the floor.
pub open spec fn is_active_spec(v: Validator, min_stake: u64) -> bool {
    v.is_active && v.staked_amount >= min_stake
}

/// The entry stored under an address, if any.
pub open spec fn find_validator(s: Seq<Validator>, a: Address) -> Option<Validator>
    decreases s.len(),
{
    if s.len() == 0 {
        None
    } else if s[0].address.as_nat() == a.as_nat() {
        Some(s[0])
    } else {
        find_validator(s.skip(1), a)
    }
}

/// The stake total of a sequence of validators.
pub open spec fn total_stake_of(s: Seq<Validator>) -> nat
    decreases s.len(),
{
    if s.len() == 0 {
        0
    } else {
        total_stake_of(s.drop_last()) + s.last().staked_amount as nat
    }
}

/// The active validators among `s`, in address order.
pub open spec fn active_of(s: Seq<Validator>, min_stake: u64) -> Seq<Validator> {
    s.filter(|v: Validator| is_active_spec(v, min_stake))
}

pub struct ValidatorSet {
    pub validators: Vec<Validator>,
    pub total_stake: u64,
    pub min_stake: u64,
}

impl ValidatorSet {
    /// Sorted table whose cached total matches the stored stakes.
    pub open spec fn wf(self) -> bool {
        validators_sorted(self.validators@) && self.total_stake as nat == total_stake_of(
            self.validators@,
        )
    }

    pub fn new(min_stake: u64) -> (r: ValidatorSet)
        ensures
            r.wf(),
            r.validators@.len() == 0,
            r.min_stake == min_stake,
    {
        ValidatorSet { validators: Vec::new(), total_stake: 0, min_stake }
    }

    /// Registers a new validator with the given stake: active from the
    /// start, with no proposals and no slashes on record. The stake must
    /// clear the floor and the running total must fit; the address must not
    /// be registered yet, since re-registering would inflate the cached
    /// total.
    pub fn add_validator(&mut self, address: Address, stake: u64) -> (r: Result<(), StakeError>)
        requires
            old(self).wf(),
            find_validator(old(self).validators@, address) is None,
        ensures
            final(self).wf(),
            final(self).min_stake == old(self).min_stake,
            r is Err ==> final(self).validators@ == old(self).validators@ && final(self).total_stake == old(self).total_stake,
            (r matches Err(e) && e is InsufficientStake) <==> stake < old(self).min_stake,
            (r matches Err(e) && e is StakeOverflow) <==> (stake >= old(self).min_stake && old(
                self,
            ).total_stake + stake > u64::MAX),
            r is Ok ==> find_validator(final(self).validators@, address) == Some(
                Validator {
                    address,
                    staked_amount: stake,
                    is_active: true,
                    last_block_proposed: 0,
                    slash_count: 0,
                },
            ),
            r is Ok ==> final(self).total_stake == old(self).total_stake + stake,
            r is Ok ==> forall|x: Address| x.as_nat() != address.as_nat() ==> find_validator(
                final(self).validators@,
                x,
            ) == find_validator(old(self).validators@, x),
    {
        if stake < self.min_stake {
            return Err(StakeError::InsufficientStake);
        }
        if self.total_stake > u64::MAX - stake {
            return Err(StakeError::StakeOverflow);
        }
        let v = Validator {
            address,
            staked_amount: stake,
            is_active: true,
            last_block_proposed: 0,
            slash_count: 0,
        };
        let n = self.validators.len();
        let mut i: usize = 0;
        while i < n && self.validators[i].address.lt(&address)
            invariant
                old(self).wf(),
                *self == *old(self),
                n == self.validators@.len(),
                0 <= i <= n,
                forall|j: int| 0 <= j < i ==> self.validators@[j].address.as_nat()
                    < address.as_nat(),
            decreases n - i,
        {
            i = i + 1;
        }
        let ghost s0 = self.validators@;
        proof {
            if i < n as usize && s0[i as int].address.as_nat() == address.as_nat() {
                lemma_find_validator_present(s0, i as int);
            }
            assert(forall|j: int| 0 <= j < s0.len() ==> s0[j].address.as_nat()
                != address.as_nat()) by {
                if exists|j: int| 0 <= j < s0.len() && s0[j].address.as_nat() == address.as_nat() {
                    let j = choose|j: int|
                        0 <= j < s0.len() && s0[j].address.as_nat() == address.as_nat();
                    lemma_find_validator_present(s0, j);
                }
            }
        }
        self.validators.insert(i, v);
        self.total_stake = self.total_stake + stake;
        proof {
            assert(validators_sorted(self.validators@));
            lemma_total_stake_insert(s0, i as int, v);
            assert forall|x: Address| x.as_nat() != address.as_nat() implies find_validator(
                self.validators@,
                x,
            ) == find_validator(s0, x) by {
                lemma_find_validator_insert(s0, i as int, v, x);
            }
            lemma_find_validator_insert(s0, i as int, v, address);
        }
        Ok(())
    }

    /// The validators that are active and at or over the stake floor, in
    /// address order.
    pub fn get_active_validators(&self) -> (r: Vec<Validator>)
        ensures
            r@ == active_of(self.validators@, self.min_stake),
    {
        let mut out: Vec<Validator> = Vec::new();
        let n = self.validators.len();
        let mut i: usize = 0;
        proof {
            reveal(Seq::filter);
            assert(self.validators@.subrange(0, 0) =~= Seq::<Validator>::empty());
            assert(out@ =~= active_of(self.validators@.subrange(0, 0), self.min_stake));
        }
        while i < n
            invariant
                n == self.validators@.len(),
                0 <= i <= n,
                out@ == active_of(self.validators@.subrange(0, i as int), self.min_stake),
            decreases n - i,
        {
            let v = self.validators[i];
            proof {
                reveal(Seq::filter);
                let pre = self.validators@.subrange(0, i as int);
                let post = self.validators@.subrange(0, i as int + 1);
                assert(post.drop_last() =~= pre);
                assert(post.last() == self.validators@[i as int]);
                assert(active_of(post, self.min_stake) == if is_active_spec(
                    self.validators@[i as int],
                    self.min_stake,
                ) {
                    active_of(pre, self.min_stake).push(self.validators@[i as int])
                } else {
                    active_of(pre, self.min_stake)
                });
            }
            if v.is_active && v.staked_amount >= self.min_stake {
                out.push(v);
            }
            i = i + 1;
        }
        proof {
            assert(self.validators@.subrange(0, n as int) =~= self.validators@);
        }
        out
    }

    /// Whether the address holds an active, sufficiently staked validator.
    pub fn is_active_validator(&self, address: &Address) -> (r: bool)
        requires
            self.wf(),
        ensures
            r == match find_validator(self.validators@, *address) {
                Some(v) => is_active_spec(v, self.min_stake),
                None => false,
            },
    {
        let n = self.validators.len();
        let mut i: usize = 0;
        while i < n
            invariant
                n == self.validators@.len(),
                0 <= i <= n,
                forall|j: int| 0 <= j < i ==> self.validators@[j].address.as_nat()
                    != address.as_nat(),
            decreases n - i,
        {
            let v = self.validators[i];
            if v.address == *address {
                proof {
                    lemma_find_validator_skip(self.validators@, *address, i as int);
                    assert(self.validators@.skip(i as int)[0] == self.validators@[i as int]);
                }
                return v.is_active && v.staked_amount >= self.min_stake;
            }
            proof {
                if self.validators@[i as int].address.as_nat() == address.as_nat() {
                    crate::address::Address::lemma_as_nat_inj(
                        self.validators@[i as int].address,
                        *address,
                    );
                }
            }
            i = i + 1;
        }
        proof {
            lemma_find_validator_skip(self.validators@, *address, n as int);
        }
        false
    }
}

/// Skipping past entries that do not match leaves the lookup unchanged.
proof fn lemma_find_validator_skip(s: Seq<Validator>, a: Address, i: int)
    requires
        0 <= i <= s.len(),
        forall|j: int| 0 <= j < i ==> s[j].address.as_nat() != a.as_nat(),
    ensures
        find_validator(s, a) == find_validator(s.skip(i), a),
    decreases i,
{
    if i > 0 {
        lemma_find_validator_skip(s.skip(1), a, i - 1);
        assert(s.skip(1).skip(i - 1) =~= s.skip(i));
    } else {
        assert(s.skip(0) =~= s);
    }
}

/// A stored entry is what the lookup returns for its address.
proof fn lemma_find_validator_present(s: Seq<Validator>, i: int)
    requires
        0 <= i < s.len(),
        forall|j: int| 0 <= j < i ==> s[j].address.as_nat() != s[i].address.as_nat(),
    ensures
        find_validator(s, s[i].address) is Some,
{
    lemma_find_validator_skip(s, s[i].address, i);
    assert(s.skip(i)[0] == s[i]);
}

/// Inserting a validator at its sorted position changes only its own lookup.
proof fn lemma_find_validator_insert(s: Seq<Validator>, i: int, v: Validator, x: Address)
    requires
        0 <= i <= s.len(),
        forall|j: int| 0 <= j < i ==> s[j].address.as_nat() < v.address.as_nat(),
        forall|j: int| i <= j < s.len() ==> s[j].address.as_nat() > v.address.as_nat(),
    ensures
        find_validator(s.insert(i, v), x) == if x.as_nat() == v.address.as_nat() {
            Some(v)
        } else {
            find_validator(s, x)
        },
    decreases i,
{
    let t = s.insert(i, v);
    if i == 0 {
        assert(t[0] == v);
        assert(t.skip(1) =~= s);
    } else {
        assert(t[0] == s[0]);
        assert(t.skip(1) =~= s.skip(1).insert(i - 1, v));
        lemma_find_validator_insert(s.skip(1), i - 1, v, x);
    }
}

/// Inserting adds exactly the new stake to the total.
proof fn lemma_total_stake_insert(s: Seq<Validator>, i: int, v: Validator)
    requires
        0 <= i <= s.len(),
    ensures
        total_stake_of(s.insert(i, v)) == total_stake_of(s) + v.staked_amount as nat,
    decreases s.len(),
{
    let t = s.insert(i, v);
    if i == s.len() {
        assert(t.drop_last() =~= s);
        assert(t.last() == v);
    } else {
        assert(t.drop_last() =~= s.drop_last().insert(i, v));
        assert(t.last() == s.last());
        lemma_total_stake_insert(s.drop_last(), i, v);
    }
}

} // verus!
