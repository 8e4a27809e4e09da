//! A signed value transfer. The canonical preimage — sender, receiver,
//! amount, gas limit, gas price, timestamp, nonce, all big endian — is what
//! gets hashed and signed; the signature bytes are never part of it.

use vstd::prelude::*;
use crate::address::Address;
use crate::bytes::u64_be_seq;
use crate::crypto::{ecdsa_recover_spec, ecdsa_sign_spec, keccak256, keccak_spec, recover_signer,
    KeyPair, Signature, SignatureError};
use crate::u256::{pow256, U256};

verus! {

#[derive(Clone, Copy, Debug, PartialEq, Eq, Structural)]
pub struct Transaction {
    pub from: Address,
    pub to: Address,
    pub amount: U256,
    pub timestamp: u64,
    pub nonce: u64,
    pub gas_limit: U256,
    pub gas_price: U256,
    pub signature: Signature,
    pub hash: U256,
}

/// The digest the canonical preimage hashes to.
pub open spec fn tx_hash_spec(t: Transaction) -> Seq<u8> {
    keccak_spec(t.preimage_seq())
}

impl Transaction {
    /// An unsigned transfer; the signature and hash are attached by `sign`.
    pub fn new(
        from: Address,
        to: Address,
        amount: U256,
        gas_limit: U256,
        gas_price: U256,
        timestamp: u64,
        nonce: u64,
    ) -> (r: Transaction)
        ensures
            r.from == from && r.to == to && r.amount == amount && r.gas_limit == gas_limit
                && r.gas_price == gas_price && r.timestamp == timestamp && r.nonce == nonce,
    {
        Transaction {
            from,
            to,
            amount,
            timestamp,
            nonce,
            gas_limit,
            gas_price,
            signature: Signature::zeroed(),
            hash: U256::zero(),
        }
    }

    /// The canonical bytes that are hashed and signed; the signature and the
    /// stored hash are no part of them.
    pub open spec fn preimage_seq(self) -> Seq<u8> {
        self.from.be_seq() + self.to.be_seq() + self.amount.be_seq() + self.gas_limit.be_seq()
            + self.gas_price.be_seq() + u64_be_seq(self.timestamp) + u64_be_seq(self.nonce)
    }

    /// The canonical preimage as bytes.
    pub fn preimage(&self) -> (r: Vec<u8>)
        ensures
            r@ == self.preimage_seq(),
    {
        let mut out: Vec<u8> = Vec::new();
        self.from.push_be_bytes(&mut out);
        self.to.push_be_bytes(&mut out);
        self.amount.push_be_bytes(&mut out);
        self.gas_limit.push_be_bytes(&mut out);
        self.gas_price.push_be_bytes(&mut out);
        crate::bytes::push_u64_be(&mut out, self.timestamp);
        crate::bytes::push_u64_be(&mut out, self.nonce);
        proof {
            assert(out@ =~= self.preimage_seq());
        }
        out
    }

    /// The keccak-256 digest of the canonical preimage: a function of those
    /// bytes and nothing else.
    pub fn calculate_hash(&self) -> (r: U256)
        ensures
            r.be_seq() == tx_hash_spec(*self),
    {
        let data = self.preimage();
        keccak256(&data)
    }

    /// The stored hash is the preimage digest, and the signature recovers to
    /// the sender.
    pub open spec fn signature_valid(self) -> bool {
        self.hash.be_seq() == tx_hash_spec(self) && ecdsa_recover_spec(
            self.signature.be_seq(),
            self.hash.be_seq(),
        ) == Some(self.from.be_seq())
    }

    /// Recovers the signer, after checking that the stored hash matches the
    /// recomputed one.
    pub fn verify_signature(&self) -> (r: Result<Address, SignatureError>)
        ensures
            match r {
                Ok(a) => self.hash.be_seq() == tx_hash_spec(*self) && ecdsa_recover_spec(
                    self.signature.be_seq(),
                    self.hash.be_seq(),
                ) == Some(a.be_seq()),
                Err(e) => (e == SignatureError::HashMismatch || e
                    == SignatureError::InvalidSignature) && (e == SignatureError::HashMismatch
                    <==> self.hash.be_seq() != tx_hash_spec(*self)) && (e
                    == SignatureError::InvalidSignature ==> ecdsa_recover_spec(
                    self.signature.be_seq(),
                    self.hash.be_seq(),
                ) is None),
            },
    {
        let computed = self.calculate_hash();
        if !(computed == self.hash) {
            proof {
                if self.hash.be_seq() == tx_hash_spec(*self) {
                    U256::lemma_be_seq_inj(computed, self.hash);
                }
            }
            return Err(SignatureError::HashMismatch);
        }
        let sig_bytes = self.signature.to_bytes();
        match recover_signer(&sig_bytes, &self.hash) {
            Some(a) => Ok(a),
            None => Err(SignatureError::InvalidSignature),
        }
    }

    /// Whether the attached signature is the sender's over the stored hash.
    #[verifier::rlimit(100)]
    pub fn is_signature_valid(&self) -> (r: bool)
        ensures
            r == self.signature_valid(),
    {
        let computed = self.calculate_hash();
        if !(computed == self.hash) {
            proof {
                if self.hash.be_seq() == tx_hash_spec(*self) {
                    U256::lemma_be_seq_inj(computed, self.hash);
                }
            }
            return false;
        }
        let sig_bytes = self.signature.to_bytes();
        match recover_signer(&sig_bytes, &self.hash) {
            Some(recovered) => {
                proof {
                    if recovered.be_seq() == self.from.be_seq() {
                        crate::address::Address::lemma_be_seq_inj(recovered, self.from);
                    }
                }
                recovered == self.from
            }
            None => false,
        }
    }

    /// Computes the hash and attaches the key's signature over it. The
    /// signature always lands and recovers to the signing key's address;
    /// signing with the sender's own key yields a transaction whose
    /// signature verifies.
    pub fn sign(&mut self, kp: &KeyPair)
        requires
            kp.wf(),
        ensures
            final(self).preimage_seq() == old(self).preimage_seq(),
            final(self).from == old(self).from && final(self).to == old(self).to
                && final(self).amount == old(self).amount && final(self).gas_limit == old(
                self,
            ).gas_limit && final(self).gas_price == old(self).gas_price && final(self).timestamp
                == old(self).timestamp && final(self).nonce == old(self).nonce,
            final(self).hash.be_seq() == tx_hash_spec(*final(self)),
            ecdsa_recover_spec(final(self).signature.be_seq(), final(self).hash.be_seq()) == Some(
                kp.address.be_seq(),
            ),
            kp.address == old(self).from ==> final(self).signature_valid(),
    {
        let h = self.calculate_hash();
        let sig_bytes = kp.sign_prehash(&h);
        self.signature = Signature::from_bytes(&sig_bytes);
        self.hash = h;
    }

    /// The most the sender can owe: the amount plus the full gas reserve.
    pub open spec fn max_cost_nat(self) -> nat {
        self.amount.as_nat() + self.gas_limit.as_nat() * self.gas_price.as_nat()
    }

    /// The amount plus gas limit times gas price, or `None` past 2^256.
    pub fn max_transaction_cost(&self) -> (r: Option<U256>)
        ensures
            match r {
                Some(c) => c.as_nat() == self.max_cost_nat(),
                None => self.max_cost_nat() >= pow256(),
            },
    {
        match self.gas_limit.checked_mul(&self.gas_price) {
            Some(gas) => self.amount.checked_add(&gas),
            None => {
                proof {
                    assert(self.max_cost_nat() >= pow256());
                }
                None
            }
        }
    }
}

/// The transaction hash is a deterministic function of the canonical
/// preimage bytes alone: equal preimages give equal hashes, whatever else
/// differs.
pub proof fn lemma_tx_hash_deterministic(a: Transaction, b: Transaction)
    requires
        a.preimage_seq() == b.preimage_seq(),
    ensures
        tx_hash_spec(a) == tx_hash_spec(b),
{
}

} // verus!
