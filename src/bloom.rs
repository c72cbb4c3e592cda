//! A bloom filter over byte strings: a key that was inserted is always
//! reported; a key that was not may be reported too.
use vstd::prelude::*;

use crate::bitset::{bit_of, lemma_set_bit, set_bit};
use crate::checksum::{crc32, crc32_of};

verus! {

/// The number of bits each key sets.
pub const BLOOM_HASHES: u8 = 3;

/// The position of the `i`-th bit of `key` in a filter of `m` bits.
pub open spec fn probe(key: Seq<u8>, i: u8, m: nat) -> int {
    (crc32(seq![i] + key) as nat % m) as int
}

/// Whether the filter with bits `bits` reports `key`. A filter without bits
/// reports every key.
pub open spec fn reports(bits: Seq<u8>, key: Seq<u8>) -> bool {
    bits.len() == 0 || forall|i: u8| i < BLOOM_HASHES ==> #[trigger] bit_of(bits, probe(key, i, 8 * bits.len()))
}

/// Whether every bit set in `a` is set in `b`, both of one length.
pub open spec fn bits_within(a: Seq<u8>, b: Seq<u8>) -> bool {
    a.len() == b.len() && forall|j: int| 0 <= j < 8 * a.len() && #[trigger] bit_of(a, j) ==> bit_of(b, j)
}

/// A filter reports every key that a filter with fewer set bits reports.
pub proof fn lemma_reports_grow(a: Seq<u8>, b: Seq<u8>, key: Seq<u8>)
    requires
        bits_within(a, b),
        reports(a, key),
    ensures
        reports(b, key),
{
    if b.len() > 0 {
        assert forall|i: u8| i < BLOOM_HASHES implies #[trigger] bit_of(b, probe(key, i, 8 * b.len())) by {
            let p = probe(key, i, 8 * a.len());
            assert(bit_of(a, p));
        }
    }
}

/// The bits of a bloom filter.
#[derive(Debug)]
pub struct BloomFilter {
    bits: Vec<u8>,
}

impl BloomFilter {
    pub closed spec fn spec_bits(&self) -> Seq<u8> {
        self.bits@
    }

    /// Whether the filter reports `key`.
    pub open spec fn spec_reports(&self, key: Seq<u8>) -> bool {
        reports(self.spec_bits(), key)
    }

    /// An empty filter of at least `bit_len` bits.
    pub fn new(bit_len: u64) -> (r: Self)
        ensures
            8 * r.spec_bits().len() >= bit_len,
            8 * r.spec_bits().len() < bit_len + 8,
            forall|j: int| 0 <= j < r.spec_bits().len() ==> r.spec_bits()[j] == 0,
    {
        let n = bit_len / 8 + (if bit_len % 8 == 0 { 0 } else { 1 });
        let mut bits: Vec<u8> = Vec::new();
        let mut k: u64 = 0;
        while k < n
            invariant
                k <= n,
                bits@.len() == k,
                forall|j: int| 0 <= j < k ==> bits@[j] == 0,
            decreases n - k,
        {
            bits.push(0u8);
            k += 1;
        }
        BloomFilter { bits }
    }

    /// The filter whose bits are `data`.
    pub fn with_data(data: &[u8]) -> (r: Self)
        ensures
            r.spec_bits() == data@,
    {
        let mut bits: Vec<u8> = Vec::new();
        bits.extend_from_slice(data);
        BloomFilter { bits }
    }

    pub fn bytes(&self) -> (r: &[u8])
        ensures
            r@ == self.spec_bits(),
    {
        self.bits.as_slice()
    }

    /// Inserts `key`: sets the key's bits and no other. Afterwards the key is
    /// reported, and so is every key that was.
    pub fn insert(&mut self, key: &[u8])
        requires
            old(self).spec_bits().len() * 8 <= usize::MAX,
        ensures
            final(self).spec_reports(key@),
            bits_within(old(self).spec_bits(), final(self).spec_bits()),
            forall|j: int|
                0 <= j < 8 * old(self).spec_bits().len() ==> #[trigger] bit_of(final(self).spec_bits(), j)
                    == (bit_of(old(self).spec_bits(), j) || exists|h: u8|
                    h < BLOOM_HASHES && j == #[trigger] probe(key@, h, 8 * old(self).spec_bits().len())),
    {
        let m = self.bits.len() * 8;
        if m == 0 {
            return;
        }
        let ghost start = self.bits@;
        let mut i: u8 = 0;
        while i < BLOOM_HASHES
            invariant
                m == 8 * self.bits@.len(),
                m > 0,
                i <= BLOOM_HASHES,
                bits_within(start, self.bits@),
                forall|h: u8| h < i ==> #[trigger] bit_of(self.bits@, probe(key@, h, m as nat)),
                forall|j: int|
                    0 <= j < m ==> #[trigger] bit_of(self.bits@, j) == (bit_of(start, j) || exists|h: u8|
                        h < i && j == #[trigger] probe(key@, h, m as nat)),
            decreases BLOOM_HASHES - i,
        {
            let p = self.position(key, i);
            let ghost before = self.bits@;
            set_bit(&mut self.bits, p);
            proof {
                assert forall|j: int| 0 <= j < 8 * start.len() && #[trigger] bit_of(start, j) implies bit_of(self.bits@, j) by {
                    assert(bit_of(before, j));
                }
                assert forall|j: int| 0 <= j < m implies #[trigger] bit_of(self.bits@, j) == (bit_of(start, j) || exists|h: u8|
                    h < i + 1 && j == #[trigger] probe(key@, h, m as nat)) by {
                    if j == p {
                        assert(j == probe(key@, i, m as nat));
                    } else {
                        if exists|h: u8| h < i + 1 && j == #[trigger] probe(key@, h, m as nat) {
                            let h = choose|h: u8| h < i + 1 && j == #[trigger] probe(key@, h, m as nat);
                            assert(h != i);
                        }
                    }
                }
            }
            i += 1;
        }
    }

    /// Whether `key` may have been inserted.
    pub fn maybe_contains(&self, key: &[u8]) -> (r: bool)
        requires
            self.spec_bits().len() * 8 <= usize::MAX,
        ensures
            r == self.spec_reports(key@),
    {
        let m = self.bits.len() * 8;
        if m == 0 {
            return true;
        }
        let mut i: u8 = 0;
        while i < BLOOM_HASHES
            invariant
                m == 8 * self.bits@.len(),
                m > 0,
                i <= BLOOM_HASHES,
                forall|h: u8| h < i ==> #[trigger] bit_of(self.bits@, probe(key@, h, m as nat)),
            decreases BLOOM_HASHES - i,
        {
            let p = self.position(key, i);
            if !crate::bitset::get_bit(self.bits.as_slice(), p) {
                return false;
            }
            i += 1;
        }
        true
    }

    fn position(&self, key: &[u8], i: u8) -> (r: usize)
        requires
            self.bits@.len() > 0,
            self.bits@.len() * 8 <= usize::MAX,
        ensures
            r as int == probe(key@, i, 8 * self.bits@.len()),
            r / 8 < self.bits@.len(),
    {
        let mut salted: Vec<u8> = Vec::new();
        salted.push(i);
        salted.extend_from_slice(key);
        proof {
            assert(salted@ =~= seq![i] + key@);
        }
        let h = crc32_of(salted.as_slice());
        let m = self.bits.len() * 8;
        let p = h as usize % m;
        assert(p / 8 < self.bits@.len()) by (nonlinear_arith)
            requires
                p < m,
                m == 8 * self.bits@.len(),
        ;
        p
    }
}

/// Every key inserted into a filter stays reported after any later inserts.
pub proof fn lemma_no_false_negatives(steps: Seq<Seq<u8>>, key: Seq<u8>)
    requires
        steps.len() >= 1,
        reports(steps[0], key),
        forall|k: int| 0 <= k < steps.len() - 1 ==> bits_within(#[trigger] steps[k], steps[k + 1]),
    ensures
        reports(steps[steps.len() - 1], key),
    decreases steps.len(),
{
    if steps.len() > 1 {
        let init = steps.drop_last();
        assert forall|k: int| 0 <= k < init.len() - 1 implies bits_within(#[trigger] init[k], init[k + 1]) by {
            assert(init[k] == steps[k] && init[k + 1] == steps[k + 1]);
        }
        lemma_no_false_negatives(init, key);
        assert(bits_within(steps[steps.len() - 2], steps[steps.len() - 1]));
        lemma_reports_grow(steps[steps.len() - 2], steps[steps.len() - 1], key);
    }
}

} // verus!
