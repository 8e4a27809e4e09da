//! Fixed-width byte encodings of machine integers, big and little endian,
//! used by the canonical hash preimages and the storage key layout.

use vstd::prelude::*;

verus! {

/// Big-endian bytes of a `u64`.
pub open spec fn u64_be_seq(x: u64) -> Seq<u8> {
    seq![
        ((x / 0x100_0000_0000_0000) % 0x100) as u8,
        ((x / 0x1_0000_0000_0000) % 0x100) as u8,
        ((x / 0x100_0000_0000) % 0x100) as u8,
        ((x / 0x1_0000_0000) % 0x100) as u8,
        ((x / 0x100_0000) % 0x100) as u8,
        ((x / 0x1_0000) % 0x100) as u8,
        ((x / 0x100) % 0x100) as u8,
        (x % 0x100) as u8,
    ]
}

/// Little-endian bytes of a `u64`.
pub open spec fn u64_le_seq(x: u64) -> Seq<u8> {
    seq![
        (x % 0x100) as u8,
        ((x / 0x100) % 0x100) as u8,
        ((x / 0x1_0000) % 0x100) as u8,
        ((x / 0x100_0000) % 0x100) as u8,
        ((x / 0x1_0000_0000) % 0x100) as u8,
        ((x / 0x100_0000_0000) % 0x100) as u8,
        ((x / 0x1_0000_0000_0000) % 0x100) as u8,
        ((x / 0x100_0000_0000_0000) % 0x100) as u8,
    ]
}

/// Big-endian bytes of a `u32`.
pub open spec fn u32_be_seq(x: u32) -> Seq<u8> {
    seq![
        ((x / 0x100_0000) % 0x100) as u8,
        ((x / 0x1_0000) % 0x100) as u8,
        ((x / 0x100) % 0x100) as u8,
        (x % 0x100) as u8,
    ]
}

/// Appends the big-endian bytes of `x` to `out`.
pub fn push_u64_be(out: &mut Vec<u8>, x: u64)
    ensures
        final(out)@ == old(out)@ + u64_be_seq(x),
{
    out.push(((x / 0x100_0000_0000_0000) % 0x100) as u8);
    out.push(((x / 0x1_0000_0000_0000) % 0x100) as u8);
    out.push(((x / 0x100_0000_0000) % 0x100) as u8);
    out.push(((x / 0x1_0000_0000) % 0x100) as u8);
    out.push(((x / 0x100_0000) % 0x100) as u8);
    out.push(((x / 0x1_0000) % 0x100) as u8);
    out.push(((x / 0x100) % 0x100) as u8);
    out.push((x % 0x100) as u8);
    proof {
        assert(final(out)@ =~= old(out)@ + u64_be_seq(x));
    }
}

/// Appends the little-endian bytes of `x` to `out`.
pub fn push_u64_le(out: &mut Vec<u8>, x: u64)
    ensures
        final(out)@ == old(out)@ + u64_le_seq(x),
{
    out.push((x % 0x100) as u8);
    out.push(((x / 0x100) % 0x100) as u8);
    out.push(((x / 0x1_0000) % 0x100) as u8);
    out.push(((x / 0x100_0000) % 0x100) as u8);
    out.push(((x / 0x1_0000_0000) % 0x100) as u8);
    out.push(((x / 0x100_0000_0000) % 0x100) as u8);
    out.push(((x / 0x1_0000_0000_0000) % 0x100) as u8);
    out.push(((x / 0x100_0000_0000_0000) % 0x100) as u8);
    proof {
        assert(final(out)@ =~= old(out)@ + u64_le_seq(x));
    }
}

/// Appends the big-endian bytes of `x` to `out`.
pub fn push_u32_be(out: &mut Vec<u8>, x: u32)
    ensures
        final(out)@ == old(out)@ + u32_be_seq(x),
{
    out.push(((x / 0x100_0000) % 0x100) as u8);
    out.push(((x / 0x1_0000) % 0x100) as u8);
    out.push(((x / 0x100) % 0x100) as u8);
    out.push((x % 0x100) as u8);
    proof {
        assert(final(out)@ =~= old(out)@ + u32_be_seq(x));
    }
}

/// A `u64` assembled from eight byte values is taken apart into the same
/// bytes, most significant first.
pub proof fn lemma_u64_be_recompose(x: u64, x0: u64, x1: u64, x2: u64, x3: u64, x4: u64, x5: u64, x6: u64, x7: u64)
    requires
        x0 < 0x100,
        x1 < 0x100,
        x2 < 0x100,
        x3 < 0x100,
        x4 < 0x100,
        x5 < 0x100,
        x6 < 0x100,
        x7 < 0x100,
        x == x0 * 0x100_0000_0000_0000 + x1 * 0x1_0000_0000_0000 + x2 * 0x100_0000_0000 + x3
            * 0x1_0000_0000 + x4 * 0x100_0000 + x5 * 0x1_0000 + x6 * 0x100 + x7,
    ensures
        (x / 0x100_0000_0000_0000) % 0x100 == x0,
        (x / 0x1_0000_0000_0000) % 0x100 == x1,
        (x / 0x100_0000_0000) % 0x100 == x2,
        (x / 0x1_0000_0000) % 0x100 == x3,
        (x / 0x100_0000) % 0x100 == x4,
        (x / 0x1_0000) % 0x100 == x5,
        (x / 0x100) % 0x100 == x6,
        x % 0x100 == x7,
{
    assert((x / 0x100_0000_0000_0000) % 0x100 == x0 && (x / 0x1_0000_0000_0000) % 0x100 == x1
        && (x / 0x100_0000_0000) % 0x100 == x2 && (x / 0x1_0000_0000) % 0x100 == x3 && (x
        / 0x100_0000) % 0x100 == x4 && (x / 0x1_0000) % 0x100 == x5 && (x / 0x100) % 0x100 == x6
        && x % 0x100 == x7) by (bit_vector)
        requires
            x0 < 0x100,
            x1 < 0x100,
            x2 < 0x100,
            x3 < 0x100,
            x4 < 0x100,
            x5 < 0x100,
            x6 < 0x100,
            x7 < 0x100,
            x == x0 * 0x100_0000_0000_0000 + x1 * 0x1_0000_0000_0000 + x2 * 0x100_0000_0000 + x3
                * 0x1_0000_0000 + x4 * 0x100_0000 + x5 * 0x1_0000 + x6 * 0x100 + x7,
    ;
}

/// Two numbers with the same big-endian bytes are the same number.
pub proof fn lemma_u64_be_seq_inj(x: u64, y: u64)
    requires
        u64_be_seq(x) == u64_be_seq(y),
    ensures
        x == y,
{
    assert(u64_be_seq(x)[0] == u64_be_seq(y)[0]);
    assert(u64_be_seq(x)[1] == u64_be_seq(y)[1]);
    assert(u64_be_seq(x)[2] == u64_be_seq(y)[2]);
    assert(u64_be_seq(x)[3] == u64_be_seq(y)[3]);
    assert(u64_be_seq(x)[4] == u64_be_seq(y)[4]);
    assert(u64_be_seq(x)[5] == u64_be_seq(y)[5]);
    assert(u64_be_seq(x)[6] == u64_be_seq(y)[6]);
    assert(u64_be_seq(x)[7] == u64_be_seq(y)[7]);
    assert(x == y) by (bit_vector)
        requires
            (x / 0x100_0000_0000_0000) % 0x100 == (y / 0x100_0000_0000_0000) % 0x100,
            (x / 0x1_0000_0000_0000) % 0x100 == (y / 0x1_0000_0000_0000) % 0x100,
            (x / 0x100_0000_0000) % 0x100 == (y / 0x100_0000_0000) % 0x100,
            (x / 0x1_0000_0000) % 0x100 == (y / 0x1_0000_0000) % 0x100,
            (x / 0x100_0000) % 0x100 == (y / 0x100_0000) % 0x100,
            (x / 0x1_0000) % 0x100 == (y / 0x1_0000) % 0x100,
            (x / 0x100) % 0x100 == (y / 0x100) % 0x100,
            x % 0x100 == y % 0x100,
    ;
}

/// Two numbers with the same little-endian bytes are the same number.
pub proof fn lemma_u64_le_seq_inj(x: u64, y: u64)
    requires
        u64_le_seq(x) == u64_le_seq(y),
    ensures
        x == y,
{
    assert(u64_le_seq(x)[0] == u64_le_seq(y)[0]);
    assert(u64_le_seq(x)[1] == u64_le_seq(y)[1]);
    assert(u64_le_seq(x)[2] == u64_le_seq(y)[2]);
    assert(u64_le_seq(x)[3] == u64_le_seq(y)[3]);
    assert(u64_le_seq(x)[4] == u64_le_seq(y)[4]);
    assert(u64_le_seq(x)[5] == u64_le_seq(y)[5]);
    assert(u64_le_seq(x)[6] == u64_le_seq(y)[6]);
    assert(u64_le_seq(x)[7] == u64_le_seq(y)[7]);
    assert(x == y) by (bit_vector)
        requires
            (x / 0x100_0000_0000_0000) % 0x100 == (y / 0x100_0000_0000_0000) % 0x100,
            (x / 0x1_0000_0000_0000) % 0x100 == (y / 0x1_0000_0000_0000) % 0x100,
            (x / 0x100_0000_0000) % 0x100 == (y / 0x100_0000_0000) % 0x100,
            (x / 0x1_0000_0000) % 0x100 == (y / 0x1_0000_0000) % 0x100,
            (x / 0x100_0000) % 0x100 == (y / 0x100_0000) % 0x100,
            (x / 0x1_0000) % 0x100 == (y / 0x1_0000) % 0x100,
            (x / 0x100) % 0x100 == (y / 0x100) % 0x100,
            x % 0x100 == y % 0x100,
    ;
}

/// Two numbers with the same big-endian bytes are the same number.
pub proof fn lemma_u32_be_seq_inj(x: u32, y: u32)
    requires
        u32_be_seq(x) == u32_be_seq(y),
    ensures
        x == y,
{
    assert(u32_be_seq(x)[0] == u32_be_seq(y)[0]);
    assert(u32_be_seq(x)[1] == u32_be_seq(y)[1]);
    assert(u32_be_seq(x)[2] == u32_be_seq(y)[2]);
    assert(u32_be_seq(x)[3] == u32_be_seq(y)[3]);
    assert(x == y) by (bit_vector)
        requires
            (x / 0x100_0000) % 0x100 == (y / 0x100_0000) % 0x100,
            (x / 0x1_0000) % 0x100 == (y / 0x1_0000) % 0x100,
            (x / 0x100) % 0x100 == (y / 0x100) % 0x100,
            x % 0x100 == y % 0x100,
    ;
}

/// A `u32` assembled from four byte values is taken apart into the same
/// bytes, most significant first.
pub proof fn lemma_u32_be_recompose(x: u32, x0: u32, x1: u32, x2: u32, x3: u32)
    requires
        x0 < 0x100,
        x1 < 0x100,
        x2 < 0x100,
        x3 < 0x100,
        x == x0 * 0x100_0000 + x1 * 0x1_0000 + x2 * 0x100 + x3,
    ensures
        (x / 0x100_0000) % 0x100 == x0,
        (x / 0x1_0000) % 0x100 == x1,
        (x / 0x100) % 0x100 == x2,
        x % 0x100 == x3,
{
    assert((x / 0x100_0000) % 0x100 == x0 && (x / 0x1_0000) % 0x100 == x1 && (x / 0x100) % 0x100
        == x2 && x % 0x100 == x3) by (bit_vector)
        requires
            x0 < 0x100,
            x1 < 0x100,
            x2 < 0x100,
            x3 < 0x100,
            x == x0 * 0x100_0000 + x1 * 0x1_0000 + x2 * 0x100 + x3,
    ;
}

/// Reads a `u64` back from its big-endian bytes.
pub fn u64_from_be(s: &Vec<u8>, start: usize) -> (r: u64)
    requires
        start + 8 <= s@.len(),
    ensures
        u64_be_seq(r) == s@.subrange(start as int, start as int + 8),
{
    let n: usize = s.len();
    let r: u64 = s[start] as u64 * 0x100_0000_0000_0000 + s[start + 1] as u64 * 0x1_0000_0000_0000
        + s[start + 2] as u64 * 0x100_0000_0000 + s[start + 3] as u64 * 0x1_0000_0000 + s[start
        + 4] as u64 * 0x100_0000 + s[start + 5] as u64 * 0x1_0000 + s[start + 6] as u64 * 0x100
        + s[start + 7] as u64;
    proof {
        lemma_u64_be_recompose(
            r,
            s@[start as int] as u64,
            s@[start as int + 1] as u64,
            s@[start as int + 2] as u64,
            s@[start as int + 3] as u64,
            s@[start as int + 4] as u64,
            s@[start as int + 5] as u64,
            s@[start as int + 6] as u64,
            s@[start as int + 7] as u64,
        );
        assert(u64_be_seq(r) =~= s@.subrange(start as int, start as int + 8));
    }
    r
}

/// Reads a `u64` back from its little-endian bytes.
pub fn u64_from_le(s: &Vec<u8>) -> (r: u64)
    requires
        s@.len() == 8,
    ensures
        u64_le_seq(r) == s@,
        forall|x: u64| u64_le_seq(x) == s@ ==> x == r,
{
    let r: u64 = s[0] as u64 + s[1] as u64 * 0x100 + s[2] as u64 * 0x1_0000 + s[3] as u64
        * 0x100_0000 + s[4] as u64 * 0x1_0000_0000 + s[5] as u64 * 0x100_0000_0000 + s[6] as u64
        * 0x1_0000_0000_0000 + s[7] as u64 * 0x100_0000_0000_0000;
    proof {
        lemma_u64_be_recompose(
            r,
            s@[7] as u64,
            s@[6] as u64,
            s@[5] as u64,
            s@[4] as u64,
            s@[3] as u64,
            s@[2] as u64,
            s@[1] as u64,
            s@[0] as u64,
        );
        assert(u64_le_seq(r) =~= s@);
        assert forall|x: u64| u64_le_seq(x) == s@ implies x == r by {
            lemma_u64_le_seq_inj(x, r);
        }
    }
    r
}

/// Reads a `u32` back from its big-endian bytes.
pub fn u32_from_be(s: &Vec<u8>, start: usize) -> (r: u32)
    requires
        start + 4 <= s@.len(),
    ensures
        u32_be_seq(r) == s@.subrange(start as int, start as int + 4),
{
    let n: usize = s.len();
    let r: u32 = s[start] as u32 * 0x100_0000 + s[start + 1] as u32 * 0x1_0000 + s[start
        + 2] as u32 * 0x100 + s[start + 3] as u32;
    proof {
        lemma_u32_be_recompose(
            r,
            s@[start as int] as u32,
            s@[start as int + 1] as u32,
            s@[start as int + 2] as u32,
            s@[start as int + 3] as u32,
        );
        assert(u32_be_seq(r) =~= s@.subrange(start as int, start as int + 4));
    }
    r
}

} // verus!
