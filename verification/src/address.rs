//! A 20-byte account identifier, the last twenty bytes of the keccak-256
//! digest of the holder's uncompressed public key. Stored as three machine
//! words, most significant first, so that comparisons and the canonical
//! big-endian encoding are plain arithmetic.

use vstd::prelude::*;
use crate::bytes::{u32_be_seq, u64_be_seq, push_u32_be, push_u64_be, u32_from_be, u64_from_be,
    lemma_u32_be_seq_inj, lemma_u64_be_seq_inj};

verus! {

#[derive(Clone, Copy, Debug, PartialEq, Eq, Structural)]
pub struct Address {
    pub hi: u32,
    pub mid: u64,
    pub lo: u64,
}

impl Address {
    /// The number the 20 bytes denote, big endian.
    pub open spec fn as_nat(self) -> nat {
        self.hi as nat * 0x1_0000_0000_0000_0000_0000_0000_0000_0000nat + self.mid as nat
            * 0x1_0000_0000_0000_0000 + self.lo as nat
    }

    /// Equal numbers are the same address.
    pub proof fn lemma_as_nat_inj(a: Address, b: Address)
        ensures
            a.as_nat() == b.as_nat() ==> a == b,
    {
        if a.as_nat() == b.as_nat() {
            let ta: int = a.mid + a.hi * 0x1_0000_0000_0000_0000;
            let tb: int = b.mid + b.hi * 0x1_0000_0000_0000_0000;
            assert(a.as_nat() == a.lo + ta * 0x1_0000_0000_0000_0000);
            assert(b.as_nat() == b.lo + tb * 0x1_0000_0000_0000_0000);
            assert(a.lo == b.lo && ta == tb);
            assert(a.mid == b.mid && a.hi == b.hi);
        }
    }

    pub fn zero() -> (r: Address)
        ensures
            r.as_nat() == 0,
    {
        Address { hi: 0, mid: 0, lo: 0 }
    }

    pub fn is_zero(&self) -> (r: bool)
        ensures
            r == (self.as_nat() == 0),
    {
        self.hi == 0 && self.mid == 0 && self.lo == 0
    }

    /// Strict numeric order, which is also the byte-lexicographic order of
    /// the big-endian encoding.
    pub fn lt(&self, other: &Address) -> (r: bool)
        ensures
            r == (self.as_nat() < other.as_nat()),
    {
        if self.hi != other.hi {
            self.hi < other.hi
        } else if self.mid != other.mid {
            self.mid < other.mid
        } else {
            self.lo < other.lo
        }
    }

    /// The canonical 20-byte big-endian encoding.
    pub open spec fn be_seq(self) -> Seq<u8> {
        u32_be_seq(self.hi) + u64_be_seq(self.mid) + u64_be_seq(self.lo)
    }

    /// Appends the 20 big-endian bytes of this address to `out`.
    pub fn push_be_bytes(&self, out: &mut Vec<u8>)
        ensures
            final(out)@ == old(out)@ + self.be_seq(),
            self.be_seq().len() == 20,
    {
        push_u32_be(out, self.hi);
        push_u64_be(out, self.mid);
        push_u64_be(out, self.lo);
        proof {
            assert(final(out)@ =~= old(out)@ + self.be_seq());
        }
    }

    pub fn to_be_bytes(&self) -> (r: Vec<u8>)
        ensures
            r@ == self.be_seq(),
            r@.len() == 20,
    {
        let mut out: Vec<u8> = Vec::new();
        self.push_be_bytes(&mut out);
        proof {
            assert(out@ =~= self.be_seq());
        }
        out
    }

    /// Equal encodings mean equal addresses.
    pub proof fn lemma_be_seq_inj(x: Address, y: Address)
        requires
            x.be_seq() == y.be_seq(),
        ensures
            x == y,
    {
        lemma_address_seq_parts(x, x.be_seq());
        lemma_address_seq_parts(y, y.be_seq());
        lemma_u32_be_seq_inj(x.hi, y.hi);
        lemma_u64_be_seq_inj(x.mid, y.mid);
        lemma_u64_be_seq_inj(x.lo, y.lo);
    }

    /// Reads an address back from 20 big-endian bytes; the encoding is one
    /// to one.
    pub fn from_be_bytes(s: &Vec<u8>) -> (r: Address)
        requires
            s@.len() == 20,
        ensures
            r.be_seq() == s@,
            forall|x: Address| x.be_seq() == s@ ==> x == r,
    {
        let hi = u32_from_be(s, 0);
        let mid = u64_from_be(s, 4);
        let lo = u64_from_be(s, 12);
        let r = Address { hi, mid, lo };
        proof {
            assert(r.be_seq() =~= s@);
            assert forall|x: Address| x.be_seq() == s@ implies x == r by {
                lemma_address_seq_parts(x, s@);
                lemma_address_seq_parts(r, s@);
                lemma_u32_be_seq_inj(x.hi, r.hi);
                lemma_u64_be_seq_inj(x.mid, r.mid);
                lemma_u64_be_seq_inj(x.lo, r.lo);
            }
        }
        r
    }
}

/// The three word groups of a 20-byte encoding.
proof fn lemma_address_seq_parts(x: Address, s: Seq<u8>)
    requires
        x.be_seq() == s,
        s.len() == 20,
    ensures
        u32_be_seq(x.hi) == s.subrange(0, 4),
        u64_be_seq(x.mid) == s.subrange(4, 12),
        u64_be_seq(x.lo) == s.subrange(12, 20),
{
    assert(u32_be_seq(x.hi) =~= s.subrange(0, 4));
    assert(u64_be_seq(x.mid) =~= s.subrange(4, 12));
    assert(u64_be_seq(x.lo) =~= s.subrange(12, 20));
}

} // verus!
