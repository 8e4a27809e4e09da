//! A 256-bit unsigned integer with checked arithmetic, stored as four 64-bit
//! limbs (least significant first). Balances, amounts, gas values and 32-byte
//! digests are all carried in this type; its mathematical value is `as_nat`.

use vstd::prelude::*;
use crate::bytes::{u64_be_seq, push_u64_be, u64_from_be, lemma_u64_be_seq_inj};
use vstd::arithmetic::mul::{lemma_mul_is_distributive_add_other_way, lemma_mul_is_associative};

verus! {

/// 2^64, the limb radix.
#[verifier::inline]
pub open spec fn pow64() -> nat {
    0x1_0000_0000_0000_0000
}

/// 2^128.
#[verifier::inline]
pub open spec fn pow128() -> nat {
    0x1_0000_0000_0000_0000_0000_0000_0000_0000nat
}

/// 2^192.
#[verifier::inline]
pub open spec fn pow192() -> nat {
    0x1_0000_0000_0000_0000_0000_0000_0000_0000_0000_0000_0000_0000nat
}

/// 2^256, one past the largest representable value.
#[verifier::inline]
pub open spec fn pow256() -> nat {
    0x1_0000_0000_0000_0000_0000_0000_0000_0000_0000_0000_0000_0000_0000_0000_0000_0000nat
}

/// 2^320.
#[verifier::inline]
pub open spec fn pow320() -> nat {
    0x1_0000_0000_0000_0000_0000_0000_0000_0000_0000_0000_0000_0000_0000_0000_0000_0000_0000_0000nat
}

/// 2^384.
#[verifier::inline]
pub open spec fn pow384() -> nat {
    0x1_0000_0000_0000_0000_0000_0000_0000_0000_0000_0000_0000_0000_0000_0000_0000_0000_0000_0000_0000_0000nat
}

/// 2^448.
#[verifier::inline]
pub open spec fn pow448() -> nat {
    0x1_0000_0000_0000_0000_0000_0000_0000_0000_0000_0000_0000_0000_0000_0000_0000_0000_0000_0000_0000_0000_0000_0000nat
}

#[derive(Clone, Copy, Debug, PartialEq, Eq, Structural)]
pub struct U256 {
    pub limb0: u64,
    pub limb1: u64,
    pub limb2: u64,
    pub limb3: u64,
}

impl U256 {
    /// The number this value denotes.
    pub open spec fn as_nat(self) -> nat {
        self.limb0 as nat + self.limb1 as nat * pow64() + self.limb2 as nat * pow128()
            + self.limb3 as nat * pow192()
    }

    /// Every value lies below 2^256, and equal numbers are the same value.
    #[verifier::rlimit(100)]
    pub proof fn lemma_as_nat_inj(a: U256, b: U256)
        ensures
            a.as_nat() < pow256(),
            a.as_nat() == b.as_nat() ==> a == b,
    {
        if a.as_nat() == b.as_nat() {
            let ta: int = a.limb1 + a.limb2 * pow64() + a.limb3 * pow128();
            let tb: int = b.limb1 + b.limb2 * pow64() + b.limb3 * pow128();
            assert(a.limb0 + ta * pow64() == b.limb0 + tb * pow64());
            assert(a.limb0 - b.limb0 == (tb - ta) * pow64());
            assert(a.limb0 == b.limb0 && ta == tb);
            let ua: int = a.limb2 + a.limb3 * pow64();
            let ub: int = b.limb2 + b.limb3 * pow64();
            assert(a.limb1 + ua * pow64() == b.limb1 + ub * pow64());
            assert(a.limb1 - b.limb1 == (ub - ua) * pow64());
            assert(a.limb1 == b.limb1 && ua == ub);
            assert(a.limb2 - b.limb2 == (b.limb3 - a.limb3) * pow64());
            assert(a.limb2 == b.limb2 && a.limb3 == b.limb3);
        }
    }

    pub fn zero() -> (r: U256)
        ensures
            r.as_nat() == 0,
    {
        U256 { limb0: 0, limb1: 0, limb2: 0, limb3: 0 }
    }

    pub fn from_u64(x: u64) -> (r: U256)
        ensures
            r.as_nat() == x,
    {
        U256 { limb0: x, limb1: 0, limb2: 0, limb3: 0 }
    }

    pub fn from_u128(x: u128) -> (r: U256)
        ensures
            r.as_nat() == x,
    {
        U256 {
            limb0: (x % 0x1_0000_0000_0000_0000) as u64,
            limb1: (x / 0x1_0000_0000_0000_0000) as u64,
            limb2: 0,
            limb3: 0,
        }
    }

    pub fn is_zero(&self) -> (r: bool)
        ensures
            r == (self.as_nat() == 0),
    {
        self.limb0 == 0 && self.limb1 == 0 && self.limb2 == 0 && self.limb3 == 0
    }

    /// Strict numeric order.
    pub fn lt(&self, other: &U256) -> (r: bool)
        ensures
            r == (self.as_nat() < other.as_nat()),
    {
        if self.limb3 != other.limb3 {
            self.limb3 < other.limb3
        } else if self.limb2 != other.limb2 {
            self.limb2 < other.limb2
        } else if self.limb1 != other.limb1 {
            self.limb1 < other.limb1
        } else {
            self.limb0 < other.limb0
        }
    }

    pub fn le(&self, other: &U256) -> (r: bool)
        ensures
            r == (self.as_nat() <= other.as_nat()),
    {
        !other.lt(self)
    }

    /// Sum, or `None` past 2^256.
    pub fn checked_add(&self, other: &U256) -> (r: Option<U256>)
        ensures
            match r {
                Some(s) => s.as_nat() == self.as_nat() + other.as_nat(),
                None => self.as_nat() + other.as_nat() >= pow256(),
            },
    {
        let s0: u128 = self.limb0 as u128 + other.limb0 as u128;
        let r0: u64 = (s0 % 0x1_0000_0000_0000_0000) as u64;
        let c0: u128 = s0 / 0x1_0000_0000_0000_0000;
        let s1: u128 = self.limb1 as u128 + other.limb1 as u128 + c0;
        let r1: u64 = (s1 % 0x1_0000_0000_0000_0000) as u64;
        let c1: u128 = s1 / 0x1_0000_0000_0000_0000;
        let s2: u128 = self.limb2 as u128 + other.limb2 as u128 + c1;
        let r2: u64 = (s2 % 0x1_0000_0000_0000_0000) as u64;
        let c2: u128 = s2 / 0x1_0000_0000_0000_0000;
        let s3: u128 = self.limb3 as u128 + other.limb3 as u128 + c2;
        let r3: u64 = (s3 % 0x1_0000_0000_0000_0000) as u64;
        let c3: u128 = s3 / 0x1_0000_0000_0000_0000;
        if c3 == 0 {
            Some(U256 { limb0: r0, limb1: r1, limb2: r2, limb3: r3 })
        } else {
            None
        }
    }

    /// Difference; the caller must know the subtrahend is no larger.
    pub fn sub(&self, other: &U256) -> (r: U256)
        requires
            other.as_nat() <= self.as_nat(),
        ensures
            r.as_nat() == self.as_nat() - other.as_nat(),
    {
        let d0: u128 = 0x1_0000_0000_0000_0000u128 + self.limb0 as u128 - other.limb0 as u128;
        let r0: u64 = (d0 % 0x1_0000_0000_0000_0000) as u64;
        let b0: u128 = 1 - d0 / 0x1_0000_0000_0000_0000;
        let d1: u128 = 0x1_0000_0000_0000_0000u128 + self.limb1 as u128 - other.limb1 as u128
            - b0;
        let r1: u64 = (d1 % 0x1_0000_0000_0000_0000) as u64;
        let b1: u128 = 1 - d1 / 0x1_0000_0000_0000_0000;
        let d2: u128 = 0x1_0000_0000_0000_0000u128 + self.limb2 as u128 - other.limb2 as u128
            - b1;
        let r2: u64 = (d2 % 0x1_0000_0000_0000_0000) as u64;
        let b2: u128 = 1 - d2 / 0x1_0000_0000_0000_0000;
        let d3: u128 = 0x1_0000_0000_0000_0000u128 + self.limb3 as u128 - other.limb3 as u128
            - b2;
        let r3: u64 = (d3 % 0x1_0000_0000_0000_0000) as u64;
        let b3: u128 = 1 - d3 / 0x1_0000_0000_0000_0000;
        let r = U256 { limb0: r0, limb1: r1, limb2: r2, limb3: r3 };
        proof {
            assert(b3 == 0);
        }
        r
    }

    /// Difference, or `None` when the subtrahend is larger.
    pub fn checked_sub(&self, other: &U256) -> (r: Option<U256>)
        ensures
            match r {
                Some(d) => other.as_nat() <= self.as_nat() && d.as_nat() == self.as_nat()
                    - other.as_nat(),
                None => self.as_nat() < other.as_nat(),
            },
    {
        if other.le(self) {
            Some(self.sub(other))
        } else {
            None
        }
    }

    /// Product, or `None` past 2^256.
    #[verifier::rlimit(100)]
    pub fn checked_mul(&self, other: &U256) -> (r: Option<U256>)
        ensures
            match r {
                Some(p) => p.as_nat() == self.as_nat() * other.as_nat(),
                None => self.as_nat() * other.as_nat() >= pow256(),
            },
    {
        let (q0, s1, s2, s3, s4) = mac_row(self.limb0, other, 0, 0, 0, 0);
        let (q1, u2, u3, u4, u5) = mac_row(self.limb1, other, s1, s2, s3, s4);
        let (q2, v3, v4, v5, v6) = mac_row(self.limb2, other, u2, u3, u4, u5);
        let (q3, h4, h5, h6, h7) = mac_row(self.limb3, other, v3, v4, v5, v6);
        proof {
            lemma_combine(
                q0 as nat, q1 as nat, q2 as nat, q3 as nat,
                s1 as nat, s2 as nat, s3 as nat, s4 as nat,
                u2 as nat, u3 as nat, u4 as nat, u5 as nat,
                v3 as nat, v4 as nat, v5 as nat, v6 as nat,
                h4 as nat, h5 as nat, h6 as nat, h7 as nat,
                self.limb0 as nat * other.as_nat(),
                self.limb1 as nat * other.as_nat(),
                self.limb2 as nat * other.as_nat(),
                self.limb3 as nat * other.as_nat(),
            );
            lemma_left_expand(*self, *other);
            assert(q0 as nat + q1 as nat * pow64() + q2 as nat * pow128() + q3 as nat * pow192()
                + (h4 as nat + h5 as nat * pow64() + h6 as nat * pow128() + h7 as nat * pow192())
                * pow256() == self.as_nat() * other.as_nat());
        }
        if h4 == 0 && h5 == 0 && h6 == 0 && h7 == 0 {
            let p = U256 { limb0: q0, limb1: q1, limb2: q2, limb3: q3 };
            proof {
                assert((h4 as nat + h5 as nat * pow64() + h6 as nat * pow128() + h7 as nat
                    * pow192()) * pow256() == 0);
            }
            Some(p)
        } else {
            proof {
                let hv: nat = h4 as nat + h5 as nat * pow64() + h6 as nat * pow128() + h7 as nat
                    * pow192();
                assert(hv >= 1);
                assert(hv * pow256() >= pow256());
            }
            None
        }
    }

    /// The canonical 32-byte big-endian encoding.
    pub open spec fn be_seq(self) -> Seq<u8> {
        u64_be_seq(self.limb3) + u64_be_seq(self.limb2) + u64_be_seq(self.limb1)
            + u64_be_seq(self.limb0)
    }

    /// Appends the 32 big-endian bytes of this value to `out`.
    pub fn push_be_bytes(&self, out: &mut Vec<u8>)
        ensures
            final(out)@ == old(out)@ + self.be_seq(),
            self.be_seq().len() == 32,
    {
        push_u64_be(out, self.limb3);
        push_u64_be(out, self.limb2);
        push_u64_be(out, self.limb1);
        push_u64_be(out, self.limb0);
        proof {
            assert(final(out)@ =~= old(out)@ + self.be_seq());
        }
    }

    pub fn to_be_bytes(&self) -> (r: Vec<u8>)
        ensures
            r@ == self.be_seq(),
            r@.len() == 32,
    {
        let mut out: Vec<u8> = Vec::new();
        self.push_be_bytes(&mut out);
        proof {
            assert(out@ =~= self.be_seq());
        }
        out
    }

    /// Equal encodings mean equal values.
    #[verifier::rlimit(100)]
    #[verifier::spinoff_prover]
    pub proof fn lemma_be_seq_inj(x: U256, y: U256)
        requires
            x.be_seq() == y.be_seq(),
        ensures
            x == y,
    {
        lemma_be_seq_parts(x, x.be_seq());
        lemma_be_seq_parts(y, y.be_seq());
        lemma_u64_be_seq_inj(x.limb3, y.limb3);
        lemma_u64_be_seq_inj(x.limb2, y.limb2);
        lemma_u64_be_seq_inj(x.limb1, y.limb1);
        lemma_u64_be_seq_inj(x.limb0, y.limb0);
    }

    /// Reads a value back from 32 big-endian bytes; the encoding is one to
    /// one.
    pub fn from_be_bytes(s: &Vec<u8>) -> (r: U256)
        requires
            s@.len() == 32,
        ensures
            r.be_seq() == s@,
            forall|x: U256| x.be_seq() == s@ ==> x == r,
    {
        let l3 = u64_from_be(s, 0);
        let l2 = u64_from_be(s, 8);
        let l1 = u64_from_be(s, 16);
        let l0 = u64_from_be(s, 24);
        let r = U256 { limb0: l0, limb1: l1, limb2: l2, limb3: l3 };
        proof {
            assert(r.be_seq() =~= s@);
            assert forall|x: U256| x.be_seq() == s@ implies x == r by {
                lemma_be_seq_parts(x, s@);
                lemma_be_seq_parts(r, s@);
                lemma_u64_be_seq_inj(x.limb3, r.limb3);
                lemma_u64_be_seq_inj(x.limb2, r.limb2);
                lemma_u64_be_seq_inj(x.limb1, r.limb1);
                lemma_u64_be_seq_inj(x.limb0, r.limb0);
            }
        }
        r
    }
}

/// One multiply-accumulate row of the schoolbook product: adds `l` times
/// `y` onto a four-limb window and returns the five result limbs, lowest
/// first.
#[verifier::rlimit(100)]
fn mac_row(l: u64, y: &U256, t0: u64, t1: u64, t2: u64, t3: u64) -> (r: (u64, u64, u64, u64, u64))
    ensures
        r.0 as nat + r.1 as nat * pow64() + r.2 as nat * pow128() + r.3 as nat * pow192()
            + r.4 as nat * pow256() == t0 as nat + t1 as nat * pow64() + t2 as nat * pow128()
            + t3 as nat * pow192() + l as nat * y.as_nat(),
{
    proof {
        lemma_limb_product_bound(l, y.limb0);
        lemma_limb_product_bound(l, y.limb1);
        lemma_limb_product_bound(l, y.limb2);
        lemma_limb_product_bound(l, y.limb3);
    }
    let ln = l as u128;
    let m0: u128 = ln * (y.limb0 as u128) + t0 as u128;
    let r0: u64 = (m0 % 0x1_0000_0000_0000_0000) as u64;
    let c0: u128 = m0 / 0x1_0000_0000_0000_0000;
    let m1: u128 = ln * (y.limb1 as u128) + t1 as u128 + c0;
    let r1: u64 = (m1 % 0x1_0000_0000_0000_0000) as u64;
    let c1: u128 = m1 / 0x1_0000_0000_0000_0000;
    let m2: u128 = ln * (y.limb2 as u128) + t2 as u128 + c1;
    let r2: u64 = (m2 % 0x1_0000_0000_0000_0000) as u64;
    let c2: u128 = m2 / 0x1_0000_0000_0000_0000;
    let m3: u128 = ln * (y.limb3 as u128) + t3 as u128 + c2;
    let r3: u64 = (m3 % 0x1_0000_0000_0000_0000) as u64;
    let r4: u64 = (m3 / 0x1_0000_0000_0000_0000) as u64;
    proof {
        lemma_row_expand(l, *y);
    }
    (r0, r1, r2, r3, r4)
}

/// Four shifted row sums assemble into a low half plus a high half carried
/// at 2^256.
#[verifier::rlimit(100)]
proof fn lemma_combine(
    q0: nat, q1: nat, q2: nat, q3: nat,
    s1: nat, s2: nat, s3: nat, s4: nat,
    u2: nat, u3: nat, u4: nat, u5: nat,
    v3: nat, v4: nat, v5: nat, v6: nat,
    h4: nat, h5: nat, h6: nat, h7: nat,
    p0: nat, p1: nat, p2: nat, p3: nat,
)
    requires
        q0 + s1 * pow64() + s2 * pow128() + s3 * pow192() + s4 * pow256() == p0,
        q1 + u2 * pow64() + u3 * pow128() + u4 * pow192() + u5 * pow256() == s1 + s2 * pow64()
            + s3 * pow128() + s4 * pow192() + p1,
        q2 + v3 * pow64() + v4 * pow128() + v5 * pow192() + v6 * pow256() == u2 + u3 * pow64()
            + u4 * pow128() + u5 * pow192() + p2,
        q3 + h4 * pow64() + h5 * pow128() + h6 * pow192() + h7 * pow256() == v3 + v4 * pow64()
            + v5 * pow128() + v6 * pow192() + p3,
    ensures
        q0 + q1 * pow64() + q2 * pow128() + q3 * pow192() + (h4 + h5 * pow64() + h6 * pow128()
            + h7 * pow192()) * pow256() == p0 + p1 * pow64() + p2 * pow128() + p3 * pow192(),
{
    let gv: int = h4 + h5 * 0x1_0000_0000_0000_0000 + h6 * 0x1_0000_0000_0000_0000_0000_0000_0000_0000int + h7 * 0x1_0000_0000_0000_0000_0000_0000_0000_0000_0000_0000_0000_0000int;
    let w3: int = q3 + gv * 0x1_0000_0000_0000_0000;
    let w2: int = q2 + w3 * 0x1_0000_0000_0000_0000;
    let w1: int = q1 + w2 * 0x1_0000_0000_0000_0000;
    let w0: int = q0 + w1 * 0x1_0000_0000_0000_0000;
    // walk the rows downward, one radix step at a time
    assert(gv * 0x1_0000_0000_0000_0000 == h4 * 0x1_0000_0000_0000_0000 + h5 * 0x1_0000_0000_0000_0000_0000_0000_0000_0000int + h6 * 0x1_0000_0000_0000_0000_0000_0000_0000_0000_0000_0000_0000_0000int + h7 * 0x1_0000_0000_0000_0000_0000_0000_0000_0000_0000_0000_0000_0000_0000_0000_0000_0000int);
    assert(w3 == v3 + v4 * 0x1_0000_0000_0000_0000 + v5 * 0x1_0000_0000_0000_0000_0000_0000_0000_0000int + v6 * 0x1_0000_0000_0000_0000_0000_0000_0000_0000_0000_0000_0000_0000int + p3);
    assert(w3 * 0x1_0000_0000_0000_0000 == v3 * 0x1_0000_0000_0000_0000 + v4 * 0x1_0000_0000_0000_0000_0000_0000_0000_0000int + v5 * 0x1_0000_0000_0000_0000_0000_0000_0000_0000_0000_0000_0000_0000int + v6 * 0x1_0000_0000_0000_0000_0000_0000_0000_0000_0000_0000_0000_0000_0000_0000_0000_0000int + p3 * 0x1_0000_0000_0000_0000);
    assert(w2 == u2 + u3 * 0x1_0000_0000_0000_0000 + u4 * 0x1_0000_0000_0000_0000_0000_0000_0000_0000int + u5 * 0x1_0000_0000_0000_0000_0000_0000_0000_0000_0000_0000_0000_0000int + p2 + p3 * 0x1_0000_0000_0000_0000);
    assert(w2 * 0x1_0000_0000_0000_0000 == u2 * 0x1_0000_0000_0000_0000 + u3 * 0x1_0000_0000_0000_0000_0000_0000_0000_0000int + u4 * 0x1_0000_0000_0000_0000_0000_0000_0000_0000_0000_0000_0000_0000int + u5 * 0x1_0000_0000_0000_0000_0000_0000_0000_0000_0000_0000_0000_0000_0000_0000_0000_0000int + p2 * 0x1_0000_0000_0000_0000 + p3 * 0x1_0000_0000_0000_0000_0000_0000_0000_0000int);
    assert(w1 == s1 + s2 * 0x1_0000_0000_0000_0000 + s3 * 0x1_0000_0000_0000_0000_0000_0000_0000_0000int + s4 * 0x1_0000_0000_0000_0000_0000_0000_0000_0000_0000_0000_0000_0000int + p1 + p2 * 0x1_0000_0000_0000_0000 + p3 * 0x1_0000_0000_0000_0000_0000_0000_0000_0000int);
    assert(w1 * 0x1_0000_0000_0000_0000 == s1 * 0x1_0000_0000_0000_0000 + s2 * 0x1_0000_0000_0000_0000_0000_0000_0000_0000int + s3 * 0x1_0000_0000_0000_0000_0000_0000_0000_0000_0000_0000_0000_0000int + s4 * 0x1_0000_0000_0000_0000_0000_0000_0000_0000_0000_0000_0000_0000_0000_0000_0000_0000int + p1 * 0x1_0000_0000_0000_0000 + p2 * 0x1_0000_0000_0000_0000_0000_0000_0000_0000int
        + p3 * 0x1_0000_0000_0000_0000_0000_0000_0000_0000_0000_0000_0000_0000int);
    assert(w0 == p0 + p1 * 0x1_0000_0000_0000_0000 + p2 * 0x1_0000_0000_0000_0000_0000_0000_0000_0000int + p3 * 0x1_0000_0000_0000_0000_0000_0000_0000_0000_0000_0000_0000_0000int);
    // regroup the same value upward at one limb per step
    assert(w1 * 0x1_0000_0000_0000_0000 == q1 * 0x1_0000_0000_0000_0000 + w2 * 0x1_0000_0000_0000_0000_0000_0000_0000_0000int);
    assert(w2 * 0x1_0000_0000_0000_0000_0000_0000_0000_0000int == q2 * 0x1_0000_0000_0000_0000_0000_0000_0000_0000int + w3 * 0x1_0000_0000_0000_0000_0000_0000_0000_0000_0000_0000_0000_0000int);
    assert(w3 * 0x1_0000_0000_0000_0000_0000_0000_0000_0000_0000_0000_0000_0000int == q3 * 0x1_0000_0000_0000_0000_0000_0000_0000_0000_0000_0000_0000_0000int + gv * 0x1_0000_0000_0000_0000_0000_0000_0000_0000_0000_0000_0000_0000_0000_0000_0000_0000int);
    assert(w0 == q0 + q1 * 0x1_0000_0000_0000_0000 + q2 * 0x1_0000_0000_0000_0000_0000_0000_0000_0000int + q3 * 0x1_0000_0000_0000_0000_0000_0000_0000_0000_0000_0000_0000_0000int + gv * 0x1_0000_0000_0000_0000_0000_0000_0000_0000_0000_0000_0000_0000_0000_0000_0000_0000int);
}

/// The product of two limbs stays within a 128-bit word.
proof fn lemma_limb_product_bound(x: u64, y: u64)
    ensures
        x as nat * y as nat <= 0xffff_ffff_ffff_ffff * 0xffff_ffff_ffff_ffff,
{
    assert(x as nat * y as nat <= 0xffff_ffff_ffff_ffff * 0xffff_ffff_ffff_ffff)
        by (nonlinear_arith)
        requires
            x <= 0xffff_ffff_ffff_ffffu64,
            y <= 0xffff_ffff_ffff_ffffu64,
    ;
}

/// One limb distributed over the four limbs of the other factor.
proof fn lemma_row_expand(l: u64, y: U256)
    ensures
        l as nat * y.as_nat() == l as nat * (y.limb0 as nat) + (l as nat * (y.limb1 as nat))
            * pow64() + (l as nat * (y.limb2 as nat)) * pow128() + (l as nat * (y.limb3 as nat))
            * pow192(),
{
    let ln = l as nat;
    let y0 = y.limb0 as nat;
    let y1 = y.limb1 as nat;
    let y2 = y.limb2 as nat;
    let y3 = y.limb3 as nat;
    assert(ln * (y0 + y1 * pow64() + y2 * pow128() + y3 * pow192()) == ln * y0 + (ln * y1)
        * pow64() + (ln * y2) * pow128() + (ln * y3) * pow192()) by (nonlinear_arith);
}

/// The full product distributed over the four limbs of the left factor.
proof fn lemma_left_expand(x: U256, y: U256)
    ensures
        x.as_nat() * y.as_nat() == x.limb0 as nat * y.as_nat() + (x.limb1 as nat * y.as_nat())
            * pow64() + (x.limb2 as nat * y.as_nat()) * pow128() + (x.limb3 as nat * y.as_nat())
            * pow192(),
{
    let x0 = x.limb0 as nat;
    let x1 = x.limb1 as nat;
    let x2 = x.limb2 as nat;
    let x3 = x.limb3 as nat;
    let yn = y.as_nat();
    assert((x0 + x1 * pow64() + x2 * pow128() + x3 * pow192()) * yn == x0 * yn + (x1 * yn)
        * pow64() + (x2 * yn) * pow128() + (x3 * yn) * pow192()) by (nonlinear_arith);
}

/// The four 8-byte groups of a 32-byte encoding.
proof fn lemma_be_seq_parts(x: U256, s: Seq<u8>)
    requires
        x.be_seq() == s,
        s.len() == 32,
    ensures
        u64_be_seq(x.limb3) == s.subrange(0, 8),
        u64_be_seq(x.limb2) == s.subrange(8, 16),
        u64_be_seq(x.limb1) == s.subrange(16, 24),
        u64_be_seq(x.limb0) == s.subrange(24, 32),
{
    assert(u64_be_seq(x.limb3) =~= s.subrange(0, 8));
    assert(u64_be_seq(x.limb2) =~= s.subrange(8, 16));
    assert(u64_be_seq(x.limb1) =~= s.subrange(16, 24));
    assert(u64_be_seq(x.limb0) =~= s.subrange(24, 32));
}

} // verus!

