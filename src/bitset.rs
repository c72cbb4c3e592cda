//! A compact null mask: bit `i` of the mask says whether row `i` holds a value.
use vstd::prelude::*;

verus! {

/// Bit `i` of a byte string, bits numbered from the least significant bit of byte 0.
pub open spec fn bit_of(bytes: Seq<u8>, i: int) -> bool {
    (bytes[i / 8] >> ((i % 8) as u8)) & 1u8 == 1u8
}

/// The number of bytes that hold `n` bits.
pub open spec fn bytes_for_bits(n: nat) -> nat {
    (n + 7) / 8
}

/// The number of `true` entries of `s`.
pub open spec fn count_true(s: Seq<bool>) -> nat
    decreases s.len(),
{
    if s.len() == 0 {
        0
    } else {
        count_true(s.drop_last()) + if s.last() { 1nat } else { 0nat }
    }
}

pub proof fn lemma_set_bit(b: u8, k: u8, m: u8)
    requires
        k < 8,
        m < 8,
    ensures
        ((b | (1u8 << k)) >> m) & 1u8 == (if m == k { 1u8 } else { (b >> m) & 1u8 }),
{
    assert(((b | (1u8 << k)) >> m) & 1u8 == (if m == k { 1u8 } else { (b >> m) & 1u8 }))
        by (bit_vector)
        requires
            k < 8,
            m < 8,
    ;
}

pub proof fn lemma_zero_bits(m: u8)
    requires
        m < 8,
    ensures
        (0u8 >> m) & 1u8 == 0u8,
{
    assert((0u8 >> m) & 1u8 == 0u8) by (bit_vector);
}

/// Reads bit `i` of `bytes`.
pub fn get_bit(bytes: &[u8], i: usize) -> (r: bool)
    requires
        i / 8 < bytes@.len(),
    ensures
        r == bit_of(bytes@, i as int),
{
    (bytes[i / 8] >> ((i % 8) as u8)) & 1u8 == 1u8
}

/// Sets bit `i` of `bytes`, leaving every other bit as it was.
pub fn set_bit(bytes: &mut Vec<u8>, i: usize)
    requires
        i / 8 < old(bytes)@.len(),
    ensures
        final(bytes)@.len() == old(bytes)@.len(),
        forall|j: int|
            0 <= j < 8 * old(bytes)@.len() ==> #[trigger] bit_of(final(bytes)@, j) == (j == i
                || bit_of(old(bytes)@, j)),
{
    let byte = bytes[i / 8];
    bytes.set(i / 8, byte | (1u8 << ((i % 8) as u8)));
    assert forall|j: int| 0 <= j < 8 * old(bytes)@.len() implies #[trigger] bit_of(
        final(bytes)@,
        j,
    ) == (j == i || bit_of(old(bytes)@, j)) by {
        if j / 8 == i / 8 {
            lemma_set_bit(byte, (i % 8) as u8, (j % 8) as u8);
        }
    }
}

/// A bit mask of a fixed length.
#[derive(Debug)]
pub struct BitSet {
    len: usize,
    buffer: Vec<u8>,
}

impl View for BitSet {
    type V = Seq<bool>;

    closed spec fn view(&self) -> Seq<bool> {
        Seq::new(self.len as nat, |i: int| bit_of(self.buffer@, i))
    }
}

impl BitSet {
    pub closed spec fn wf(&self) -> bool {
        self.buffer@.len() == bytes_for_bits(self.len as nat)
    }

    pub closed spec fn spec_bytes(&self) -> Seq<u8> {
        self.buffer@
    }

    /// An empty mask.
    pub fn new() -> (r: Self)
        ensures
            r.wf(),
            r@.len() == 0,
    {
        BitSet { len: 0, buffer: Vec::new() }
    }

    /// A mask of `len` bits, none of them set.
    pub fn with_len(len: usize) -> (r: Self)
        ensures
            r.wf(),
            r@.len() == len,
            forall|i: int| 0 <= i < len ==> !#[trigger] r@[i],
    {
        let n = len / 8 + (if len % 8 == 0 { 0 } else { 1 });
        let mut buffer: Vec<u8> = Vec::new();
        let mut k: usize = 0;
        while k < n
            invariant
                k <= n,
                buffer@.len() == k,
                forall|j: int| 0 <= j < k ==> buffer@[j] == 0u8,
            decreases n - k,
        {
            buffer.push(0u8);
            k += 1;
        }
        let r = BitSet { len, buffer };
        assert forall|i: int| 0 <= i < len implies !#[trigger] r@[i] by {
            lemma_zero_bits((i % 8) as u8);
        }
        r
    }

    /// A mask over the bits of `buffer`, `len` of them.
    pub fn from_bytes(len: usize, buffer: Vec<u8>) -> (r: Option<Self>)
        ensures
            r is Some <==> buffer@.len() == bytes_for_bits(len as nat),
            r matches Some(b) ==> b.wf() && b.spec_bytes() == buffer@ && b@.len() == len
                && forall|i: int| 0 <= i < len ==> #[trigger] b@[i] == bit_of(buffer@, i),
    {
        if len / 8 + (if len % 8 == 0 { 0 } else { 1 }) == buffer.len() {
            Some(BitSet { len, buffer })
        } else {
            None
        }
    }

    pub fn len(&self) -> (r: usize)
        ensures
            r == self@.len(),
    {
        self.len
    }

    pub fn is_empty(&self) -> (r: bool)
        ensures
            r == (self@.len() == 0),
    {
        self.len == 0
    }

    /// The number of bytes that hold the mask.
    pub fn byte_len(&self) -> (r: usize)
        requires
            self.wf(),
        ensures
            r == bytes_for_bits(self@.len()),
    {
        self.buffer.len()
    }

    pub fn bytes(&self) -> (r: &[u8])
        ensures
            r@ == self.spec_bytes(),
            self.wf() ==> r@.len() == bytes_for_bits(self@.len()),
            forall|i: int| 0 <= i < self@.len() ==> #[trigger] self@[i] == bit_of(r@, i),
    {
        self.buffer.as_slice()
    }

    pub fn get(&self, i: usize) -> (r: bool)
        requires
            self.wf(),
            i < self@.len(),
        ensures
            r == self@[i as int],
    {
        get_bit(self.buffer.as_slice(), i)
    }

    /// Sets bit `i`.
    pub fn set(&mut self, i: usize)
        requires
            old(self).wf(),
            i < old(self)@.len(),
        ensures
            final(self).wf(),
            final(self)@ == old(self)@.update(i as int, true),
    {
        set_bit(&mut self.buffer, i);
        assert(self@ =~= old(self)@.update(i as int, true));
    }

    /// The number of set bits.
    pub fn count_ones(&self) -> (r: usize)
        requires
            self.wf(),
        ensures
            r == count_true(self@),
    {
        let mut c: usize = 0;
        let mut i: usize = 0;
        while i < self.len
            invariant
                self.wf(),
                i <= self.len,
                c == count_true(self@.subrange(0, i as int)),
                c <= i,
            decreases self.len - i,
        {
            let b = get_bit(self.buffer.as_slice(), i);
            proof {
                assert(self@.subrange(0, i + 1).drop_last() =~= self@.subrange(0, i as int));
            }
            if b {
                c += 1;
            }
            i += 1;
        }
        assert(self@.subrange(0, self.len as int) =~= self@);
        c
    }
}

} // verus!
