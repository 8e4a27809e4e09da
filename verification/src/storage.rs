//! The persistent block index, modelled as an append-only key-value log
//! where the newest record under a key wins. Three keyspaces share the log:
//! the 32-byte header hash maps to the encoded block, the 8-byte
//! little-endian height maps to the header hash, and a fixed 10-byte marker
//! key holds the latest height; the three key lengths differ, so the
//! keyspaces cannot collide. Block bodies are stored in the block's
//! canonical binary encoding rather than a textual one: the binary form is
//! deterministic and is what the contracts prove reloads byte for byte.

use vstd::prelude::*;
use crate::block::{header_hash_spec, Block};
use crate::bytes::{push_u64_le, u64_from_le, u64_le_seq};
use crate::u256::U256;

verus! {

/// The newest value stored under a key, if any.
pub open spec fn kv_find(s: Seq<(Vec<u8>, Vec<u8>)>, k: Seq<u8>) -> Option<Seq<u8>>
    decreases s.len(),
{
    if s.len() == 0 {
        None
    } else if s.last().0@ == k {
        Some(s.last().1@)
    } else {
        kv_find(s.drop_last(), k)
    }
}

/// Whether two byte vectors hold the same bytes.
fn bytes_eq(a: &Vec<u8>, b: &Vec<u8>) -> (r: bool)
    ensures
        r == (a@ == b@),
{
    if a.len() != b.len() {
        proof {
            assert(a@ != b@);
        }
        return false;
    }
    let n = a.len();
    let mut i: usize = 0;
    while i < n
        invariant
            n == a@.len(),
            n == b@.len(),
            0 <= i <= n,
            forall|j: int| 0 <= j < i ==> a@[j] == b@[j],
        decreases n - i,
    {
        if a[i] != b[i] {
            return false;
        }
        i = i + 1;
    }
    proof {
        assert(a@ =~= b@);
    }
    true
}

/// Dropping newest records whose keys differ leaves the lookup unchanged.
proof fn lemma_kv_find_take(s: Seq<(Vec<u8>, Vec<u8>)>, k: Seq<u8>, i: int)
    requires
        0 <= i <= s.len(),
        forall|j: int| i <= j < s.len() ==> s[j].0@ != k,
    ensures
        kv_find(s, k) == kv_find(s.subrange(0, i), k),
    decreases s.len() - i,
{
    if i < s.len() {
        lemma_kv_find_take(s.drop_last(), k, i);
        assert(s.drop_last().subrange(0, i) =~= s.subrange(0, i));
    } else {
        assert(s.subrange(0, i) =~= s);
    }
}

/// The durable block index.
pub struct Storage {
    pub entries: Vec<(Vec<u8>, Vec<u8>)>,
}

impl Storage {
    /// The bytes stored under a key.
    pub open spec fn spec_get(self, k: Seq<u8>) -> Option<Seq<u8>> {
        kv_find(self.entries@, k)
    }

    pub fn new() -> (r: Storage)
        ensures
            r.entries@.len() == 0,
    {
        Storage { entries: Vec::new() }
    }

    /// Stores `value` under `key`; the newest record wins on reads.
    pub fn put(&mut self, key: Vec<u8>, value: Vec<u8>)
        ensures
            final(self).spec_get(key@) == Some(value@),
            forall|k: Seq<u8>| k != key@ ==> final(self).spec_get(k) == old(self).spec_get(k),
    {
        let ghost s0 = self.entries@;
        let ghost kk = key@;
        let ghost vv = value@;
        self.entries.push((key, value));
        proof {
            assert(self.entries@.last().0@ == kk);
            assert(self.entries@.last().1@ == vv);
            assert(self.entries@.drop_last() =~= s0);
        }
    }

    /// The newest bytes stored under `key`, if any.
    pub fn get(&self, key: &Vec<u8>) -> (r: Option<Vec<u8>>)
        ensures
            match r {
                Some(v) => self.spec_get(key@) == Some(v@),
                None => self.spec_get(key@) is None,
            },
    {
        let n = self.entries.len();
        let mut i: usize = n;
        while i > 0
            invariant
                n == self.entries@.len(),
                0 <= i <= n,
                forall|j: int| i <= j < n ==> self.entries@[j].0@ != key@,
            decreases i,
        {
            i = i - 1;
            let hit = bytes_eq(&self.entries[i].0, key);
            if hit {
                proof {
                    lemma_kv_find_take(self.entries@, key@, i as int + 1);
                    assert(self.entries@.subrange(0, i as int + 1).last() == self.entries@[
                        i as int]);
                    assert(self.entries@.subrange(0, i as int + 1).len() == i as int + 1);
                }
                let mut out: Vec<u8> = Vec::new();
                let m = self.entries[i].1.len();
                let mut j: usize = 0;
                while j < m
                    invariant
                        i < self.entries@.len(),
                        m == self.entries@[i as int].1@.len(),
                        0 <= j <= m,
                        out@ == self.entries@[i as int].1@.subrange(0, j as int),
                    decreases m - j,
                {
                    out.push(self.entries[i].1[j]);
                    proof {
                        assert(out@ =~= self.entries@[i as int].1@.subrange(0, j as int + 1));
                    }
                    j = j + 1;
                }
                proof {
                    assert(self.entries@[i as int].1@.subrange(0, m as int) =~= self.entries@[
                        i as int].1@);
                }
                return Some(out);
            }
        }
        proof {
            lemma_kv_find_take(self.entries@, key@, 0);
            assert(self.entries@.subrange(0, 0) =~= Seq::<(Vec<u8>, Vec<u8>)>::empty());
        }
        None
    }

    /// Writes the three records of a committed block: body under its header
    /// hash, header hash under its height, and the height under the marker.
    #[verifier::rlimit(100)]
    #[verifier::spinoff_prover]
    pub fn store_block(&mut self, block: &Block, encoded: Vec<u8>) -> (hash: U256)
        ensures
            hash.be_seq() == header_hash_spec(block.header),
            final(self).spec_get(hash.be_seq()) == Some(encoded@),
            final(self).spec_get(u64_le_seq(block.header.index)) == Some(hash.be_seq()),
            final(self).spec_get(last_index_key_spec()) == Some(u64_le_seq(block.header.index)),
            forall|k: Seq<u8>| k != hash.be_seq() && k != u64_le_seq(block.header.index) && k
                != last_index_key_spec() ==> final(self).spec_get(k) == old(self).spec_get(k),
    {
        let hash = block.header.hash();
        let hash_bytes = hash.to_be_bytes();
        let mut height_key: Vec<u8> = Vec::new();
        push_u64_le(&mut height_key, block.header.index);
        let mut height_val: Vec<u8> = Vec::new();
        push_u64_le(&mut height_val, block.header.index);
        self.put(hash_bytes, encoded);
        let hv = hash.to_be_bytes();
        self.put(height_key, hv);
        self.put(last_index_key(), height_val);
        proof {
            assert(last_index_key_spec().len() == 10);
            assert(u64_le_seq(block.header.index).len() == 8);
            assert(hash.be_seq().len() == 32);
        }
        hash
    }

    /// The header hash stored for a height, if any.
    pub fn get_block_hash_from_index(&self, index: u64) -> (r: Option<U256>)
        ensures
            match r {
                Some(h) => self.spec_get(u64_le_seq(index)) == Some(h.be_seq()),
                None => self.spec_get(u64_le_seq(index)) is None || (self.spec_get(
                    u64_le_seq(index),
                ) matches Some(v) && v.len() != 32),
            },
    {
        let mut key: Vec<u8> = Vec::new();
        push_u64_le(&mut key, index);
        match self.get(&key) {
            Some(v) => {
                if v.len() == 32 {
                    Some(U256::from_be_bytes(&v))
                } else {
                    None
                }
            }
            None => None,
        }
    }

    /// The stored encoding of the block under a header hash, if any.
    pub fn get_block_from_block_hash(&self, hash: &U256) -> (r: Option<Vec<u8>>)
        ensures
            match r {
                Some(v) => self.spec_get(hash.be_seq()) == Some(v@),
                None => self.spec_get(hash.be_seq()) is None,
            },
    {
        let key = hash.to_be_bytes();
        self.get(&key)
    }

    /// The latest stored height, if any.
    pub fn get_last_index(&self) -> (r: Option<u64>)
        ensures
            match r {
                Some(h) => self.spec_get(last_index_key_spec()) == Some(u64_le_seq(h)),
                None => self.spec_get(last_index_key_spec()) is None || (self.spec_get(
                    last_index_key_spec(),
                ) matches Some(v) && v.len() != 8),
            },
    {
        let key = last_index_key();
        match self.get(&key) {
            Some(v) => {
                if v.len() == 8 {
                    Some(u64_from_le(&v))
                } else {
                    None
                }
            }
            None => None,
        }
    }
}

/// The marker key that holds the latest height: ten fixed bytes, a length no
/// other keyspace uses.
pub fn last_index_key() -> (r: Vec<u8>)
    ensures
        r@ == last_index_key_spec(),
{
    let mut k: Vec<u8> = Vec::new();
    k.push(108);
    k.push(97);
    k.push(115);
    k.push(116);
    k.push(95);
    k.push(105);
    k.push(110);
    k.push(100);
    k.push(101);
    k.push(120);
    proof {
        assert(k@ =~= last_index_key_spec());
    }
    k
}

/// The bytes of the marker key, the ASCII letters of its name.
pub open spec fn last_index_key_spec() -> Seq<u8> {
    seq![108u8, 97u8, 115u8, 116u8, 95u8, 105u8, 110u8, 100u8, 101u8, 120u8]
}

} // verus!
