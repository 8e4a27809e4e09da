//! The pending-transaction pool: bounded, keyed by transaction hash, with at
//! most one entry per sender and nonce. A newcomer that shares a sender and
//! nonce with a stored entry replaces it only by bidding a strictly higher
//! gas price.

use vstd::prelude::*;
use crate::transaction::Transaction;
use crate::u256::U256;

verus! {

#[derive(Clone, Copy, Debug, PartialEq, Eq, Structural)]
pub enum MempoolError {
    InvalidSignature,
    InvalidTransaction,
    DuplicateNonce,
    MempoolFull,
}

/// At most one entry per sender and nonce.
pub open spec fn unique_sender_nonce(s: Seq<Transaction>) -> bool {
    forall|i: int, j: int|
        0 <= i < j < s.len() ==> !(s[i].from.as_nat() == s[j].from.as_nat() && s[i].nonce
            == s[j].nonce)
}

/// Whether some entry carries this sender and nonce.
pub open spec fn has_sender_nonce(s: Seq<Transaction>, t: Transaction) -> bool {
    exists|i: int|
        0 <= i < s.len() && s[i].from.as_nat() == t.from.as_nat() && s[i].nonce == t.nonce
}

/// The static admission checks: distinct endpoints, nonzero endpoints, and a
/// signature that recovers to the sender.
pub open spec fn statically_valid(t: Transaction) -> bool {
    t.signature_valid() && t.from.as_nat() != t.to.as_nat() && t.from.as_nat() != 0
        && t.to.as_nat() != 0
}

/// Replacing the one matching entry keeps senders and nonces unique, and
/// every kept entry comes from the old pool.
proof fn lemma_replace_unique(before: Seq<Transaction>, i: int, tx: Transaction)
    requires
        unique_sender_nonce(before),
        0 <= i < before.len(),
        before[i].from.as_nat() == tx.from.as_nat(),
        before[i].nonce == tx.nonce,
    ensures
        unique_sender_nonce(before.remove(i).push(tx)),
{
    assert forall|a: int, b: int|
        #![trigger before.remove(i).push(tx)[a], before.remove(i).push(tx)[b]]
        0 <= a < b < before.remove(i).push(tx).len() implies !(before.remove(i).push(
        tx,
    )[a].from.as_nat() == before.remove(i).push(tx)[b].from.as_nat() && before.remove(i).push(
        tx,
    )[a].nonce == before.remove(i).push(tx)[b].nonce) by {
        let now = before.remove(i).push(tx);
        let pa = if a < i { a } else { a + 1 };
        assert(now[a] == before[pa]);
        if b < now.len() - 1 {
            let pb = if b < i { b } else { b + 1 };
            assert(now[b] == before[pb]);
        } else {
            assert(now[b] == tx);
            assert(!(before[pa].from.as_nat() == before[i].from.as_nat() && before[pa].nonce
                == before[i].nonce));
        }
    }
}

/// Appending an entry with a fresh sender and nonce keeps them unique.
proof fn lemma_append_unique(before: Seq<Transaction>, tx: Transaction)
    requires
        unique_sender_nonce(before),
        forall|j: int| 0 <= j < before.len() ==> !(before[j].from.as_nat() == tx.from.as_nat()
            && before[j].nonce == tx.nonce),
    ensures
        unique_sender_nonce(before.push(tx)),
{
    assert forall|a: int, b: int|
        #![trigger before.push(tx)[a], before.push(tx)[b]]
        0 <= a < b < before.push(tx).len() implies !(before.push(tx)[a].from.as_nat()
        == before.push(tx)[b].from.as_nat() && before.push(tx)[a].nonce == before.push(
        tx,
    )[b].nonce) by {
        assert(before.push(tx)[a] == before[a]);
        if b < before.push(tx).len() - 1 {
            assert(before.push(tx)[b] == before[b]);
        }
    }
}

pub struct Mempool {
    pub transactions: Vec<Transaction>,
    pub max_size: usize,
}

impl Mempool {
    /// One entry per sender and nonce, never over capacity.
    pub open spec fn wf(self) -> bool {
        unique_sender_nonce(self.transactions@) && self.transactions@.len() <= self.max_size
    }

    pub fn new(max_size: usize) -> (r: Mempool)
        ensures
            r.wf(),
            r.transactions@.len() == 0,
            r.max_size == max_size,
    {
        Mempool { transactions: Vec::new(), max_size }
    }

    /// How many transfers are pending.
    pub fn len(&self) -> (r: usize)
        ensures
            r == self.transactions@.len(),
    {
        self.transactions.len()
    }

    pub fn has_transactions(&self) -> (r: bool)
        ensures
            r == (self.transactions@.len() > 0),
    {
        self.transactions.len() > 0
    }

    /// A snapshot of every pending transfer, in storage order.
    pub fn get_all_transactions(&self) -> (r: Vec<Transaction>)
        ensures
            r@ == self.transactions@,
    {
        let mut out: Vec<Transaction> = Vec::new();
        let n = self.transactions.len();
        let mut i: usize = 0;
        while i < n
            invariant
                n == self.transactions@.len(),
                0 <= i <= n,
                out@ == self.transactions@.subrange(0, i as int),
            decreases n - i,
        {
            out.push(self.transactions[i]);
            proof {
                assert(out@ =~= self.transactions@.subrange(0, i as int + 1));
            }
            i = i + 1;
        }
        proof {
            assert(self.transactions@.subrange(0, n as int) =~= self.transactions@);
        }
        out
    }

    pub fn clear_all_transactions(&mut self)
        ensures
            final(self).wf(),
            final(self).transactions@.len() == 0,
            final(self).max_size == old(self).max_size,
    {
        self.transactions.clear();
    }

    /// Stores a transfer that already passed the static checks: a stored
    /// entry with the same sender and nonce must be outbid strictly, and the
    /// pool must have room.
    #[verifier::rlimit(100)]
    fn insert_priced(&mut self, transaction: &Transaction) -> (r: Result<U256, MempoolError>)
        requires
            old(self).wf(),
        ensures
            final(self).wf(),
            final(self).max_size == old(self).max_size,
            r is Err ==> final(self).transactions@ == old(self).transactions@,
            r is Err ==> (r matches Err(e) && (e is DuplicateNonce || e is MempoolFull)),
            (r matches Err(e) && e is DuplicateNonce) <==> exists|i: int|
                0 <= i < old(self).transactions@.len() && old(
                    self,
                ).transactions@[i].from.as_nat() == transaction.from.as_nat() && old(
                    self,
                ).transactions@[i].nonce == transaction.nonce && old(
                    self,
                ).transactions@[i].gas_price.as_nat() >= transaction.gas_price.as_nat(),
            (r matches Err(e) && e is MempoolFull) <==> (!has_sender_nonce(
                old(self).transactions@,
                *transaction,
            ) && old(self).transactions@.len() >= old(self).max_size),
            r matches Ok(h) ==> h == transaction.hash,
            r is Ok ==> final(self).transactions@.last() == *transaction,
            ((r is Ok) && !has_sender_nonce(old(self).transactions@, *transaction))
                ==> final(self).transactions@ == old(self).transactions@.push(*transaction),
            ((r is Ok) && has_sender_nonce(old(self).transactions@, *transaction)) ==> exists|i: int|
                0 <= i < old(self).transactions@.len() && old(
                    self,
                ).transactions@[i].from.as_nat() == transaction.from.as_nat() && old(
                    self,
                ).transactions@[i].nonce == transaction.nonce && final(self).transactions@ == old(
                    self,
                ).transactions@.remove(i).push(*transaction),
            r is Ok ==> forall|i: int|
                #![trigger old(self).transactions@[i]]
                0 <= i < old(self).transactions@.len() && old(
                    self,
                ).transactions@[i].from.as_nat() == transaction.from.as_nat() && old(
                    self,
                ).transactions@[i].nonce == transaction.nonce
                    ==> transaction.gas_price.as_nat() > old(
                    self,
                ).transactions@[i].gas_price.as_nat(),
    {
        let n = self.transactions.len();
        let mut i: usize = 0;
        while i < n
            invariant
                old(self).wf(),
                self.transactions@ == old(self).transactions@,
                self.max_size == old(self).max_size,
                unique_sender_nonce(self.transactions@),
                n == self.transactions@.len(),
                0 <= i <= n,
                forall|j: int| 0 <= j < i ==> !(self.transactions@[j].from.as_nat()
                    == transaction.from.as_nat() && self.transactions@[j].nonce
                    == transaction.nonce),
            decreases n - i,
        {
            let cand = self.transactions[i];
            if cand.from == transaction.from && cand.nonce == transaction.nonce {
                if transaction.gas_price.le(&cand.gas_price) {
                    return Err(MempoolError::DuplicateNonce);
                }
                proof {
                    assert forall|k: int|
                        0 <= k < self.transactions@.len() && self.transactions@[k].from.as_nat()
                            == transaction.from.as_nat() && self.transactions@[k].nonce
                            == transaction.nonce implies k == i as int by {
                        if k != i as int {
                            assert(false);
                        }
                    }
                }
                let ghost before = self.transactions@;
                let _evicted = self.transactions.remove(i);
                self.transactions.push(*transaction);
                proof {
                    lemma_replace_unique(before, i as int, *transaction);
                    assert(self.transactions@ == before.remove(i as int).push(*transaction));
                    assert(unique_sender_nonce(self.transactions@));
                }
                return Ok(transaction.hash);
            }
            proof {
                if self.transactions@[i as int].from.as_nat() == transaction.from.as_nat()
                    && self.transactions@[i as int].nonce == transaction.nonce {
                    crate::address::Address::lemma_as_nat_inj(
                        self.transactions@[i as int].from,
                        transaction.from,
                    );
                }
            }
            i = i + 1;
        }
        if self.transactions.len() >= self.max_size {
            return Err(MempoolError::MempoolFull);
        }
        let ghost before = self.transactions@;
        self.transactions.push(*transaction);
        proof {
            lemma_append_unique(before, *transaction);
            assert(self.transactions@ == before.push(*transaction));
            assert(unique_sender_nonce(self.transactions@));
        }
        Ok(transaction.hash)
    }

    /// Admits a signed transfer: the signature must recover to the sender,
    /// the endpoints must be distinct and nonzero, a stored entry with the
    /// same sender and nonce must be outbid strictly, and the pool must have
    /// room. On success exactly the superseded entry, if any, is gone and
    /// the newcomer is present, with a strictly higher gas price than
    /// whatever it replaced.
    #[verifier::rlimit(100)]
    pub fn add_transaction(&mut self, transaction: &Transaction) -> (r: Result<
        U256,
        MempoolError,
    >)
        requires
            old(self).wf(),
        ensures
            final(self).wf(),
            final(self).max_size == old(self).max_size,
            r is Err ==> final(self).transactions@ == old(self).transactions@,
            (r matches Err(e) && e is InvalidSignature) <==> !transaction.signature_valid(),
            (r matches Err(e) && e is InvalidTransaction) <==> (transaction.signature_valid() && !(
            transaction.from.as_nat() != transaction.to.as_nat() && transaction.from.as_nat() != 0
                && transaction.to.as_nat() != 0)),
            r is Ok ==> statically_valid(*transaction),
            r matches Ok(h) ==> h == transaction.hash,
            r is Ok ==> final(self).transactions@.last() == *transaction,
            ((r is Ok) && !has_sender_nonce(old(self).transactions@, *transaction))
                ==> final(self).transactions@ == old(self).transactions@.push(*transaction),
            ((r is Ok) && has_sender_nonce(old(self).transactions@, *transaction)) ==> exists|i: int|
                0 <= i < old(self).transactions@.len() && old(
                    self,
                ).transactions@[i].from.as_nat() == transaction.from.as_nat() && old(
                    self,
                ).transactions@[i].nonce == transaction.nonce && final(self).transactions@ == old(
                    self,
                ).transactions@.remove(i).push(*transaction),
            r is Ok ==> forall|i: int|
                #![trigger old(self).transactions@[i]]
                0 <= i < old(self).transactions@.len() && old(
                    self,
                ).transactions@[i].from.as_nat() == transaction.from.as_nat() && old(
                    self,
                ).transactions@[i].nonce == transaction.nonce
                    ==> transaction.gas_price.as_nat() > old(
                    self,
                ).transactions@[i].gas_price.as_nat(),
            (r matches Err(e) && e is DuplicateNonce) <==> (statically_valid(*transaction)
                && exists|i: int|
                0 <= i < old(self).transactions@.len() && old(
                    self,
                ).transactions@[i].from.as_nat() == transaction.from.as_nat() && old(
                    self,
                ).transactions@[i].nonce == transaction.nonce && old(
                    self,
                ).transactions@[i].gas_price.as_nat() >= transaction.gas_price.as_nat()),
            (r matches Err(e) && e is MempoolFull) <==> (statically_valid(*transaction)
                && !has_sender_nonce(old(self).transactions@, *transaction) && old(
                self,
            ).transactions@.len() >= old(self).max_size),
    {
        if !transaction.is_signature_valid() {
            return Err(MempoolError::InvalidSignature);
        }
        if transaction.from == transaction.to || transaction.from.is_zero()
            || transaction.to.is_zero() {
            proof {
                if transaction.from.as_nat() == transaction.to.as_nat() {
                    crate::address::Address::lemma_as_nat_inj(transaction.from, transaction.to);
                }
            }
            return Err(MempoolError::InvalidTransaction);
        }
        proof {
            if transaction.from.as_nat() == transaction.to.as_nat() {
                crate::address::Address::lemma_as_nat_inj(transaction.from, transaction.to);
            }
        }
        self.insert_priced(transaction)
    }
}

/// After an admission, the pool still holds at most one entry per sender and
/// nonce; and an entry that replaced another by fee carries the strictly
/// higher gas price of the two, since a tie or a lower bid is turned away.
pub proof fn lemma_mempool_unique(p: Mempool)
    requires
        p.wf(),
    ensures
        unique_sender_nonce(p.transactions@),
{
}

} // verus!
