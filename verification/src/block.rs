//! Block headers and blocks. The header hash covers every consensus field
//! and leaves the validator signature out, since the signature is taken over
//! that very hash; the transactions root hashes the transaction digests in
//! ascending order, so it does not depend on insertion order.

use vstd::prelude::*;
use vstd::seq_lib::lemma_sorted_unique;
use vstd::relations::{sorted_by, total_ordering};
use crate::address::Address;
use crate::bytes::u64_be_seq;
use crate::crypto::{ecdsa_recover_spec, ecdsa_sign_spec, keccak256, keccak_spec, recover_signer, KeyPair,
    Signature, SignatureError};
use crate::state::zero_root;
use crate::transaction::Transaction;
use crate::u256::U256;

verus! {

#[derive(Clone, Copy, Debug, PartialEq, Eq, Structural)]
pub struct BlockHeader {
    pub index: u64,
    pub parent_hash: U256,
    pub slot: u64,
    pub timestamp: u64,
    pub proposer: Address,
    pub transactions_root: U256,
    pub state_root: U256,
    pub validator_signature: Option<Signature>,
}

/// The digest a header hashes to: its consensus fields in order, with the
/// validator signature left out.
pub open spec fn header_hash_spec(h: BlockHeader) -> Seq<u8> {
    keccak_spec(h.hash_preimage_seq())
}

impl BlockHeader {
    pub fn new(
        index: u64,
        slot: u64,
        proposer: Address,
        parent_hash: U256,
        transactions_root: U256,
        state_root: U256,
        timestamp: u64,
    ) -> (r: BlockHeader)
        ensures
            r.index == index && r.slot == slot && r.proposer == proposer && r.parent_hash
                == parent_hash && r.transactions_root == transactions_root && r.state_root
                == state_root && r.timestamp == timestamp && r.validator_signature is None,
    {
        BlockHeader {
            index,
            parent_hash,
            slot,
            timestamp,
            proposer,
            transactions_root,
            state_root,
            validator_signature: None,
        }
    }

    /// The all-zero header the chain starts from.
    pub fn genesis() -> (r: BlockHeader)
        ensures
            r.index == 0 && r.slot == 0 && r.timestamp == 0,
            r.parent_hash.as_nat() == 0 && r.transactions_root.as_nat() == 0
                && r.state_root.as_nat() == 0,
            r.proposer.as_nat() == 0,
            r.validator_signature is None,
    {
        BlockHeader::new(0, 0, Address::zero(), U256::zero(), U256::zero(), U256::zero(), 0)
    }

    /// The bytes the header hash is taken over; the validator signature is
    /// no part of them.
    pub open spec fn hash_preimage_seq(self) -> Seq<u8> {
        u64_be_seq(self.index) + self.parent_hash.be_seq() + u64_be_seq(self.slot) + u64_be_seq(
            self.timestamp,
        ) + self.proposer.be_seq() + self.transactions_root.be_seq() + self.state_root.be_seq()
    }

    /// The keccak-256 digest of the consensus fields.
    pub fn hash(&self) -> (r: U256)
        ensures
            r.be_seq() == header_hash_spec(*self),
    {
        let mut data: Vec<u8> = Vec::new();
        crate::bytes::push_u64_be(&mut data, self.index);
        self.parent_hash.push_be_bytes(&mut data);
        crate::bytes::push_u64_be(&mut data, self.slot);
        crate::bytes::push_u64_be(&mut data, self.timestamp);
        self.proposer.push_be_bytes(&mut data);
        self.transactions_root.push_be_bytes(&mut data);
        self.state_root.push_be_bytes(&mut data);
        proof {
            assert(data@ =~= self.hash_preimage_seq());
        }
        keccak256(&data)
    }

    /// An attached signature that recovers to the proposer over the header
    /// hash.
    pub open spec fn signature_valid(self) -> bool {
        match self.validator_signature {
            Some(sig) => ecdsa_recover_spec(sig.be_seq(), header_hash_spec(self)) == Some(
                self.proposer.be_seq(),
            ),
            None => false,
        }
    }

    /// Signs the header hash and attaches the signature, which always lands
    /// and recovers to the signing key's address; signing with the
    /// proposer's own key leaves a header whose signature verifies.
    pub fn sign(&mut self, kp: &KeyPair)
        requires
            kp.wf(),
        ensures
            final(self).hash_preimage_seq() == old(self).hash_preimage_seq(),
            final(self).index == old(self).index && final(self).parent_hash == old(
                self,
            ).parent_hash && final(self).slot == old(self).slot && final(self).timestamp == old(
                self,
            ).timestamp && final(self).proposer == old(self).proposer
                && final(self).transactions_root == old(self).transactions_root
                && final(self).state_root == old(self).state_root,
            final(self).validator_signature matches Some(s) && s.be_seq() == ecdsa_sign_spec(
                kp.secret@,
                header_hash_spec(*final(self)),
            ) && ecdsa_recover_spec(s.be_seq(), header_hash_spec(*final(self))) == Some(
                kp.address.be_seq(),
            ),
            kp.address == old(self).proposer ==> final(self).signature_valid(),
    {
        let h = self.hash();
        let sig_bytes = kp.sign_prehash(&h);
        self.validator_signature = Some(Signature::from_bytes(&sig_bytes));
    }

    /// Checks the attached signature against the proposer.
    #[verifier::rlimit(100)]
    pub fn verify_signature(&self) -> (r: Result<(), SignatureError>)
        ensures
            r is Ok <==> self.signature_valid(),
    {
        let sig = match self.validator_signature {
            Some(s) => s,
            None => {
                return Err(SignatureError::InvalidSignature);
            }
        };
        let h = self.hash();
        let sig_bytes = sig.to_bytes();
        match recover_signer(&sig_bytes, &h) {
            Some(recovered) => {
                proof {
                    if recovered.be_seq() == self.proposer.be_seq() {
                        crate::address::Address::lemma_be_seq_inj(recovered, self.proposer);
                    }
                }
                if recovered == self.proposer {
                    Ok(())
                } else {
                    Err(SignatureError::SignatureVerificationFailed)
                }
            }
            None => Err(SignatureError::InvalidSignature),
        }
    }
}

/// The header hash reads nothing from the validator signature: two headers
/// equal in every consensus field hash alike, whatever signatures they carry.
pub proof fn lemma_header_hash_ignores_signature(a: BlockHeader, b: BlockHeader)
    requires
        a.index == b.index,
        a.parent_hash == b.parent_hash,
        a.slot == b.slot,
        a.timestamp == b.timestamp,
        a.proposer == b.proposer,
        a.transactions_root == b.transactions_root,
        a.state_root == b.state_root,
    ensures
        header_hash_spec(a) == header_hash_spec(b),
{
}

#[derive(Clone, Debug)]
pub struct Block {
    pub header: BlockHeader,
    pub transactions: Vec<Transaction>,
}

/// Ascending numeric order on 256-bit digests.
pub open spec fn hash_leq() -> spec_fn(U256, U256) -> bool {
    |a: U256, b: U256| a.as_nat() <= b.as_nat()
}

/// Numeric order on digests is a total order.
pub proof fn lemma_hash_leq_total()
    ensures
        total_ordering(hash_leq()),
{
    let leq = hash_leq();
    assert forall|a: U256, b: U256| #[trigger] leq(a, b) && #[trigger] leq(b, a) implies a
        == b by {
        U256::lemma_as_nat_inj(a, b);
    }
}

/// The digests of a batch of transactions, in batch order.
pub open spec fn hashes_of(txs: Seq<Transaction>) -> Seq<U256> {
    txs.map_values(|t: Transaction| t.hash)
}

/// Concatenated big-endian digests.
pub open spec fn concat_hashes(hs: Seq<U256>) -> Seq<u8>
    decreases hs.len(),
{
    if hs.len() == 0 {
        Seq::empty()
    } else {
        concat_hashes(hs.drop_last()) + hs.last().be_seq()
    }
}

/// The transactions root: the digest of the transaction hashes in ascending
/// order, or all zeros for an empty batch.
pub open spec fn tx_root_spec(txs: Seq<Transaction>) -> Seq<u8> {
    if txs.len() == 0 {
        zero_root()
    } else {
        keccak_spec(concat_hashes(hashes_of(txs).sort_by(hash_leq())))
    }
}

/// Inserting anywhere adds the element to the sequence's multiset.
proof fn lemma_insert_to_multiset(s: Seq<U256>, i: int, v: U256)
    requires
        0 <= i <= s.len(),
    ensures
        s.insert(i, v).to_multiset() == s.to_multiset().insert(v),
{
    broadcast use vstd::seq_lib::group_to_multiset_ensures;
    broadcast use vstd::multiset::group_multiset_axioms;

    let t = s.insert(i, v);
    assert(t.remove(i) =~= s);
    assert(t[i] == v);
    assert(t.remove(i).to_multiset() =~= t.to_multiset().remove(v));
    assert(t.contains(v));
    assert(t.to_multiset().count(v) > 0);
    assert(t.to_multiset() =~= s.to_multiset().insert(v)) by {
        assert forall|x: U256| t.to_multiset().count(x) == s.to_multiset().insert(v).count(
            x,
        ) by {
            assert(s.to_multiset().count(x) == t.to_multiset().remove(v).count(x));
        }
    }
}

impl Block {
    pub fn new(header: BlockHeader, transactions: Vec<Transaction>) -> (r: Block)
        ensures
            r.header == header,
            r.transactions@ == transactions@,
    {
        Block { header, transactions }
    }

    /// The empty block under the all-zero header.
    pub fn genesis() -> (r: Block)
        ensures
            r.header == BlockHeader::genesis_spec(),
            r.transactions@.len() == 0,
    {
        Block { header: BlockHeader::genesis(), transactions: Vec::new() }
    }

    /// The root over the batch's transaction digests, taken in ascending
    /// digest order so that it does not depend on the order given.
    #[verifier::rlimit(100)]
    #[verifier::spinoff_prover]
    pub fn calculate_transactions_root(transactions: &Vec<Transaction>) -> (r: U256)
        ensures
            r.be_seq() == tx_root_spec(transactions@),
    {
        if transactions.len() == 0 {
            let root = U256::zero();
            proof {
                assert(root.be_seq() =~= zero_root());
            }
            return root;
        }
        let n = transactions.len();
        let mut sorted: Vec<U256> = Vec::new();
        let mut i: usize = 0;
        proof {
            broadcast use vstd::seq_lib::group_to_multiset_ensures;

            assert(hashes_of(transactions@).subrange(0, 0) =~= Seq::<U256>::empty());
            assert(sorted@.to_multiset() =~= Seq::<U256>::empty().to_multiset());
        }
        while i < n
            invariant
                n == transactions@.len(),
                0 <= i <= n,
                sorted_by(sorted@, hash_leq()),
                sorted@.to_multiset() == hashes_of(transactions@).subrange(
                    0,
                    i as int,
                ).to_multiset(),
            decreases n - i,
        {
            let h = transactions[i].hash;
            let m = sorted.len();
            let mut pos: usize = 0;
            while pos < m && sorted[pos].le(&h)
                invariant
                    m == sorted@.len(),
                    0 <= pos <= m,
                    forall|j: int| 0 <= j < pos ==> sorted@[j].as_nat() <= h.as_nat(),
                decreases m - pos,
            {
                pos = pos + 1;
            }
            let ghost before = sorted@;
            sorted.insert(pos, h);
            proof {
                broadcast use vstd::seq_lib::group_to_multiset_ensures;

                assert(sorted_by(before, hash_leq()));
                assert forall|a: int, b: int| 0 <= a < b < sorted@.len() implies (hash_leq())(
                    sorted@[a],
                    sorted@[b],
                ) by {
                    if b < pos {
                        assert((hash_leq())(before[a], before[b]));
                    } else if a > pos {
                        assert((hash_leq())(before[a - 1], before[b - 1]));
                    } else if a == pos && b > pos {
                        assert(sorted@[b] == before[b - 1]);
                        if pos < before.len() {
                            assert((hash_leq())(before[pos as int], before[b - 1]) || b - 1 == pos);
                        }
                    } else if b == pos {
                        assert(sorted@[a] == before[a]);
                    } else if a < pos && b > pos {
                        assert((hash_leq())(before[a], before[b - 1]) || a == b - 1);
                    }
                }
                lemma_insert_to_multiset(before, pos as int, h);
                let pre = hashes_of(transactions@).subrange(0, i as int);
                let post = hashes_of(transactions@).subrange(0, i as int + 1);
                assert(post.drop_last() =~= pre);
                assert(post.last() == transactions@[i as int].hash);
                assert(post =~= pre.push(transactions@[i as int].hash));
            }
            i = i + 1;
        }
        proof {
            broadcast use vstd::seq_lib::group_to_multiset_ensures;

            assert(hashes_of(transactions@).subrange(0, n as int) =~= hashes_of(transactions@));
            hashes_of(transactions@).lemma_sort_by_ensures(hash_leq());
            lemma_hash_leq_total();
            lemma_sorted_unique(sorted@, hashes_of(transactions@).sort_by(hash_leq()), hash_leq());
            assert(sorted@.to_multiset().len() == sorted@.len());
            assert(sorted@.len() == hashes_of(transactions@).len());
        }
        let mut data: Vec<u8> = Vec::new();
        let mut k: usize = 0;
        proof {
            assert(data@ =~= concat_hashes(sorted@.subrange(0, 0)));
        }
        while k < n
            invariant
                n == sorted@.len(),
                0 <= k <= n,
                data@ == concat_hashes(sorted@.subrange(0, k as int)),
                sorted@ == hashes_of(transactions@).sort_by(hash_leq()),
                transactions@.len() == n,
            decreases n - k,
        {
            let h = sorted[k];
            h.push_be_bytes(&mut data);
            proof {
                let pre = sorted@.subrange(0, k as int);
                let post = sorted@.subrange(0, k as int + 1);
                assert(post.drop_last() =~= pre);
                assert(post.last() == sorted@[k as int]);
            }
            k = k + 1;
        }
        proof {
            assert(sorted@.subrange(0, n as int) =~= sorted@);
        }
        keccak256(&data)
    }
}

impl Block {
    /// The canonical byte encoding of a block: the header's consensus
    /// fields, the optional proposer signature behind a presence byte, and
    /// the transaction records each as preimage, signature and stored hash.
    pub open spec fn encoding_spec(self) -> Seq<u8> {
        self.header.hash_preimage_seq() + (match self.header.validator_signature {
            Some(sig) => seq![1u8] + sig.be_seq(),
            None => seq![0u8],
        }) + u64_be_seq(self.transactions@.len() as u64) + tx_records_spec(self.transactions@)
    }

    /// The canonical bytes of this block.
    #[verifier::rlimit(100)]
    #[verifier::spinoff_prover]
    pub fn encode(&self) -> (r: Vec<u8>)
        requires
            self.transactions@.len() <= u64::MAX,
        ensures
            r@ == self.encoding_spec(),
    {
        let mut out: Vec<u8> = Vec::new();
        crate::bytes::push_u64_be(&mut out, self.header.index);
        self.header.parent_hash.push_be_bytes(&mut out);
        crate::bytes::push_u64_be(&mut out, self.header.slot);
        crate::bytes::push_u64_be(&mut out, self.header.timestamp);
        self.header.proposer.push_be_bytes(&mut out);
        self.header.transactions_root.push_be_bytes(&mut out);
        self.header.state_root.push_be_bytes(&mut out);
        match self.header.validator_signature {
            Some(sig) => {
                out.push(1);
                sig.r.push_be_bytes(&mut out);
                sig.s.push_be_bytes(&mut out);
                out.push(sig.v);
            }
            None => {
                out.push(0);
            }
        }
        let n = self.transactions.len();
        crate::bytes::push_u64_be(&mut out, n as u64);
        let ghost head = out@;
        let mut i: usize = 0;
        proof {
            assert(head =~= self.header.hash_preimage_seq() + (match self
                .header
                .validator_signature {
                Some(sig) => seq![1u8] + sig.be_seq(),
                None => seq![0u8],
            }) + u64_be_seq(n as u64));
            assert(out@ =~= head + tx_records_spec(self.transactions@.subrange(0, 0)));
        }
        while i < n
            invariant
                n == self.transactions@.len(),
                0 <= i <= n,
                out@ == head + tx_records_spec(self.transactions@.subrange(0, i as int)),
            decreases n - i,
        {
            let t = self.transactions[i];
            let pre = t.preimage();
            let mut k: usize = 0;
            let m = pre.len();
            while k < m
                invariant
                    m == pre@.len(),
                    0 <= k <= m,
                    out@ == head + tx_records_spec(self.transactions@.subrange(0, i as int))
                        + pre@.subrange(0, k as int),
                    i < n,
                    n == self.transactions@.len(),
                decreases m - k,
            {
                out.push(pre[k]);
                proof {
                    assert(out@ =~= head + tx_records_spec(
                        self.transactions@.subrange(0, i as int),
                    ) + pre@.subrange(0, k as int + 1));
                }
                k = k + 1;
            }
            proof {
                assert(pre@.subrange(0, m as int) =~= pre@);
            }
            t.signature.r.push_be_bytes(&mut out);
            t.signature.s.push_be_bytes(&mut out);
            out.push(t.signature.v);
            t.hash.push_be_bytes(&mut out);
            proof {
                let prefix = self.transactions@.subrange(0, i as int);
                let next = self.transactions@.subrange(0, i as int + 1);
                assert(next.drop_last() =~= prefix);
                assert(next.last() == self.transactions@[i as int]);
                assert(out@ =~= head + tx_records_spec(next));
            }
            i = i + 1;
        }
        proof {
            assert(self.transactions@.subrange(0, n as int) =~= self.transactions@);
            assert(out@ =~= self.encoding_spec());
        }
        out
    }
}

/// The concatenated records of a batch, in batch order: each transfer's
/// canonical preimage, its signature, and its stored hash.
pub open spec fn tx_records_spec(txs: Seq<Transaction>) -> Seq<u8>
    decreases txs.len(),
{
    if txs.len() == 0 {
        Seq::empty()
    } else {
        tx_records_spec(txs.drop_last()) + txs.last().preimage_seq()
            + txs.last().signature.be_seq() + txs.last().hash.be_seq()
    }
}

impl BlockHeader {
    /// The genesis header as a value, for stating what `genesis` builds.
    pub open spec fn genesis_spec() -> BlockHeader {
        BlockHeader {
            index: 0,
            parent_hash: U256 { limb0: 0, limb1: 0, limb2: 0, limb3: 0 },
            slot: 0,
            timestamp: 0,
            proposer: Address { hi: 0, mid: 0, lo: 0 },
            transactions_root: U256 { limb0: 0, limb1: 0, limb2: 0, limb3: 0 },
            state_root: U256 { limb0: 0, limb1: 0, limb2: 0, limb3: 0 },
            validator_signature: None,
        }
    }
}

/// The transactions root depends only on which digests the batch holds, not
/// on the order they came in.
#[verifier::rlimit(100)]
#[verifier::spinoff_prover]
pub proof fn lemma_tx_root_permutation(a: Seq<Transaction>, b: Seq<Transaction>)
    requires
        hashes_of(a).to_multiset() == hashes_of(b).to_multiset(),
    ensures
        tx_root_spec(a) == tx_root_spec(b),
{
    broadcast use vstd::seq_lib::group_to_multiset_ensures;

    if a.len() == 0 || b.len() == 0 {
        assert(hashes_of(a).len() == a.len());
        assert(hashes_of(b).len() == b.len());
        assert(hashes_of(a).to_multiset().len() == hashes_of(a).len());
        assert(hashes_of(b).to_multiset().len() == hashes_of(b).len());
        assert(a.len() == b.len());
    } else {
        hashes_of(a).lemma_sort_by_ensures(hash_leq());
        hashes_of(b).lemma_sort_by_ensures(hash_leq());
        lemma_hash_leq_total();
        lemma_sorted_unique(
            hashes_of(a).sort_by(hash_leq()),
            hashes_of(b).sort_by(hash_leq()),
            hash_leq(),
        );
    }
}

} // verus!
