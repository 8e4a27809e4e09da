//! Cryptographic primitives: the keccak-256 digest, secp256k1 key pairs, and
//! recoverable signatures over 32-byte prehashes. The outside calls stand
//! behind trusted wrappers; everything downstream works on plain bytes and
//! the library's own types.

use vstd::prelude::*;
use alloy_signer::SignerSync;
use crate::address::Address;
use crate::u256::U256;

verus! {

/// What keccak-256 returns on the given bytes: 32 bytes that depend on the
/// input alone.
pub uninterp spec fn keccak_spec(data: Seq<u8>) -> Seq<u8>;

/// What the deterministic ECDSA signer returns for a secret key and a
/// 32-byte prehash: 65 bytes, r then s then the recovery parity.
pub uninterp spec fn ecdsa_sign_spec(secret: Seq<u8>, prehash: Seq<u8>) -> Seq<u8>;

/// What ECDSA public-key recovery returns for a 65-byte signature and a
/// 32-byte prehash: the signer's 20-byte address, or nothing when the
/// signature does not parse or recovery fails.
pub uninterp spec fn ecdsa_recover_spec(sig: Seq<u8>, prehash: Seq<u8>) -> Option<Seq<u8>>;

/// The 20-byte address derived from a 32-byte secret key.
pub uninterp spec fn secret_address_spec(secret: Seq<u8>) -> Seq<u8>;

/// Relies on alloy_primitives::keccak256: the digest is 32 bytes and depends
/// on the input bytes alone.
#[verifier::external_body]
fn keccak256_raw(data: &Vec<u8>) -> (r: Vec<u8>)
    ensures
        r@ == keccak_spec(data@),
        r@.len() == 32,
{
    alloy_primitives::keccak256(data.as_slice()).to_vec()
}

/// The keccak-256 digest of `data`, as a 256-bit value whose big-endian
/// bytes are the raw digest.
pub fn keccak256(data: &Vec<u8>) -> (r: U256)
    ensures
        r.be_seq() == keccak_spec(data@),
{
    let raw = keccak256_raw(data);
    U256::from_be_bytes(&raw)
}

/// A 65-byte recoverable signature: r, then s, then the recovery parity.
#[derive(Clone, Copy, Debug, PartialEq, Eq, Structural)]
pub struct Signature {
    pub r: U256,
    pub s: U256,
    pub v: u8,
}

impl Signature {
    /// The 65-byte wire form.
    pub open spec fn be_seq(self) -> Seq<u8> {
        self.r.be_seq() + self.s.be_seq() + seq![self.v]
    }

    pub fn zeroed() -> (r: Signature)
        ensures
            r.r.as_nat() == 0 && r.s.as_nat() == 0 && r.v == 0,
    {
        Signature { r: U256::zero(), s: U256::zero(), v: 0 }
    }

    pub fn to_bytes(&self) -> (out: Vec<u8>)
        ensures
            out@ == self.be_seq(),
            out@.len() == 65,
    {
        let mut out = self.r.to_be_bytes();
        self.s.push_be_bytes(&mut out);
        out.push(self.v);
        proof {
            assert(out@ =~= self.be_seq());
        }
        out
    }

    /// Reads a signature back from its 65 bytes; the encoding is one to one.
    pub fn from_bytes(bytes: &Vec<u8>) -> (r: Signature)
        requires
            bytes@.len() == 65,
        ensures
            r.be_seq() == bytes@,
    {
        let mut rpart: Vec<u8> = Vec::new();
        let mut spart: Vec<u8> = Vec::new();
        let mut i: usize = 0;
        while i < 32
            invariant
                0 <= i <= 32,
                bytes@.len() == 65,
                rpart@ == bytes@.subrange(0, i as int),
            decreases 32 - i,
        {
            rpart.push(bytes[i]);
            proof {
                assert(rpart@ =~= bytes@.subrange(0, i as int + 1));
            }
            i = i + 1;
        }
        let mut j: usize = 32;
        while j < 64
            invariant
                32 <= j <= 64,
                bytes@.len() == 65,
                spart@ == bytes@.subrange(32, j as int),
            decreases 64 - j,
        {
            spart.push(bytes[j]);
            proof {
                assert(spart@ =~= bytes@.subrange(32, j as int + 1));
            }
            j = j + 1;
        }
        let rv = U256::from_be_bytes(&rpart);
        let sv = U256::from_be_bytes(&spart);
        let out = Signature { r: rv, s: sv, v: bytes[64] };
        proof {
            assert(out.be_seq() =~= bytes@);
        }
        out
    }
}

/// Why a signature check failed.
#[derive(Clone, Copy, Debug, PartialEq, Eq, Structural)]
pub enum SignatureError {
    SigningFailed,
    InvalidSignature,
    SignatureVerificationFailed,
    HashMismatch,
}

/// A secp256k1 key pair: the raw 32-byte secret and the address derived
/// from it.
pub struct KeyPair {
    pub secret: Vec<u8>,
    pub address: Address,
}

impl KeyPair {
    /// The address field is the one a signer derives from the secret.
    pub open spec fn wf(self) -> bool {
        self.secret@.len() == 32 && self.address.be_seq() == secret_address_spec(self.secret@)
    }

    /// Relies on alloy_signer_local::PrivateKeySigner::from_bytes and
    /// LocalSigner::address: a valid 32-byte scalar yields a signer whose
    /// address is a deterministic function of the secret.
    #[verifier::external_body]
    pub fn from_secret(secret: &Vec<u8>) -> (r: Option<KeyPair>)
        requires
            secret@.len() == 32,
        ensures
            match r {
                Some(kp) => kp.secret@ == secret@ && kp.wf(),
                None => true,
            },
    {
        let b = alloy_primitives::B256::from_slice(secret.as_slice());
        match alloy_signer_local::PrivateKeySigner::from_bytes(&b) {
            Ok(signer) => {
                let addr_bytes: Vec<u8> = signer.address().to_vec();
                let address = Address::from_be_bytes(&addr_bytes);
                Some(KeyPair { secret: secret.clone(), address })
            }
            Err(_) => None,
        }
    }

    /// Relies on alloy_signer_local::PrivateKeySigner::from_bytes and
    /// alloy_signer::SignerSync::sign_hash_sync: RFC 6979 makes the 65-byte
    /// signature a function of the secret and the prehash alone, recovering
    /// from it yields the signer's address, and a well-formed key signing a
    /// 32-byte prehash cannot fail.
    #[verifier::external_body]
    fn sign_prehash_raw(&self, prehash: &Vec<u8>) -> (r: Vec<u8>)
        requires
            self.wf(),
            prehash@.len() == 32,
        ensures
            r@ == ecdsa_sign_spec(self.secret@, prehash@),
            r@.len() == 65,
            ecdsa_recover_spec(r@, prehash@) == Some(secret_address_spec(self.secret@)),
    {
        let b = alloy_primitives::B256::from_slice(self.secret.as_slice());
        let signer = alloy_signer_local::PrivateKeySigner::from_bytes(&b).unwrap();
        let h = alloy_primitives::B256::from_slice(prehash.as_slice());
        let sig = signer.sign_hash_sync(&h).unwrap();
        sig.as_rsy().to_vec()
    }

    /// Signs a 32-byte prehash given as a 256-bit value.
    pub fn sign_prehash(&self, prehash: &U256) -> (r: Vec<u8>)
        requires
            self.wf(),
        ensures
            r@ == ecdsa_sign_spec(self.secret@, prehash.be_seq()),
            r@.len() == 65,
            ecdsa_recover_spec(r@, prehash.be_seq()) == Some(self.address.be_seq()),
    {
        let bytes = prehash.to_be_bytes();
        self.sign_prehash_raw(&bytes)
    }
}

/// Relies on alloy_primitives::Signature::from_raw and
/// Signature::recover_address_from_prehash: both are deterministic in the
/// signature bytes and the prehash.
#[verifier::external_body]
fn recover_address_raw(sig: &Vec<u8>, prehash: &Vec<u8>) -> (r: Option<Vec<u8>>)
    requires
        sig@.len() == 65,
        prehash@.len() == 32,
    ensures
        match r {
            Some(a) => ecdsa_recover_spec(sig@, prehash@) == Some(a@) && a@.len() == 20,
            None => ecdsa_recover_spec(sig@, prehash@) is None,
        },
{
    let h = alloy_primitives::B256::from_slice(prehash.as_slice());
    match alloy_primitives::Signature::from_raw(sig.as_slice()) {
        Ok(s) => match s.recover_address_from_prehash(&h) {
            Ok(addr) => Some(addr.to_vec()),
            Err(_) => None,
        },
        Err(_) => None,
    }
}

/// Recovers the signing address from a 65-byte signature over a 32-byte
/// prehash given as a 256-bit value.
pub fn recover_signer(sig: &Vec<u8>, prehash: &U256) -> (r: Option<Address>)
    requires
        sig@.len() == 65,
    ensures
        match r {
            Some(a) => ecdsa_recover_spec(sig@, prehash.be_seq()) == Some(a.be_seq()),
            None => ecdsa_recover_spec(sig@, prehash.be_seq()) is None,
        },
{
    let bytes = prehash.to_be_bytes();
    match recover_address_raw(sig, &bytes) {
        Some(a) => Some(Address::from_be_bytes(&a)),
        None => None,
    }
}

} // verus!
