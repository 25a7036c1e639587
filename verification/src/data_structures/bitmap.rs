//! A bitmap that owns its storage: `BLOCKS` bytes of 8 bits each.
use vstd::prelude::*;
use crate::data_structures::bits::{bit_at, bits_of, byte_bit, lemma_bit_pos, lemma_bits_after_byte_write, lemma_read_bit, lemma_write_bit, lemma_zero_bits, with_bit};

verus! {

/// A bitmap with `BLOCKS` blocks of 8 bits (1 block --> 8 bits).
///
/// This owns the bitmap itself.
pub struct Bitmap<const BLOCKS: usize> {
    data: Vec<u8>,
    bit_len: usize,
}

impl<const BLOCKS: usize> View for Bitmap<BLOCKS> {
    type V = Seq<bool>;

    /// The bits in use, in order.
    closed spec fn view(&self) -> Seq<bool> {
        bits_of(self.data@, self.bit_len as nat)
    }
}

/// The textual form of a bit string: one `'1'` or `'0'` per bit.
pub open spec fn bit_chars(bytes: Seq<u8>, n: nat) -> Seq<char> {
    Seq::new(n, |i: int| if bit_at(bytes, i) { '1' } else { '0' })
}

impl<const BLOCKS: usize> Bitmap<BLOCKS> {
    #[verifier::type_invariant]
    spec fn inv(self) -> bool {
        &&& self.data@.len() == BLOCKS
        &&& self.bit_len <= BLOCKS * 8
    }

    /// The raw bytes of the bitmap.
    pub closed spec fn bytes(&self) -> Seq<u8> {
        self.data@
    }

    /// Creates a new **Bitmap** that holds a maximum of `BLOCKS` * 8 bits.
    /// This bitmap will be zeroed out.
    ///
    /// `bit_len` is an optional parameter that specifies how many of the bits from `BLOCKS` * 8 will actually be used.
    /// In case this parameter is **None**, all the bits available will be used.
    pub fn new(bit_len: Option<usize>) -> (r: Self)
        requires
            BLOCKS * 8 <= usize::MAX,
            bit_len matches Some(l) ==> l <= BLOCKS * 8,
    ensures
            r@ == Seq::new(
                (match bit_len {
                    Some(l) => l as nat,
                    None => (BLOCKS * 8) as nat,
                }),
                |i: int| false,
            ),
            r.bytes() == Seq::new(BLOCKS as nat, |i: int| 0u8),
    {
        let bit_len = match bit_len {
            Some(len) => len,
            None => BLOCKS * 8,
        };
        let mut data: Vec<u8> = Vec::new();
        let mut i: usize = 0;
        while i < BLOCKS
            invariant
                i <= BLOCKS,
                data@ == Seq::new(i as nat, |k: int| 0u8),
            decreases BLOCKS - i,
        {
            data.push(0u8);
            i = i + 1;
        }
        proof {
            lemma_zero_bits(data@, bit_len as nat);
        }
        Bitmap { data, bit_len }
    }

    /// Get the value (true/false) in the position `bit` that works as an index in the array of bits.
    pub fn get(&self, bit: usize) -> (r: Option<bool>)
        ensures
            r == (if bit < self@.len() { Some(self@[bit as int]) } else { None::<bool> }),
            self@ == bits_of(self.bytes(), self@.len()),
            self@.len() <= 8 * self.bytes().len(),
    {
        proof {
            use_type_invariant(self);
        }
        if bit >= self.bit_len {
            return None;
        }
        let (byte, offset) = self.bit_pos(bit);
        let b = self.data[byte];
        let v = (b & (1u8 << offset)) >> offset;
        proof {
            lemma_read_bit(b, offset);
        }
        if v == 0 {
            Some(false)
        } else {
            Some(true)
        }
    }

    /// Set bit at position `bit` to `value`.
    pub fn set(&mut self, bit: usize, value: bool)
        requires
            bit < old(self)@.len(),
        ensures
            final(self)@ == old(self)@.update(bit as int, value),
            final(self).bytes() == old(self).bytes().update(
                bit as int / 8,
                with_bit(old(self).bytes()[bit as int / 8], (bit % 8) as u8, value),
            ),
            final(self).bytes().len() == old(self).bytes().len(),
            old(self)@ == bits_of(old(self).bytes(), old(self)@.len()),
            final(self)@ == bits_of(final(self).bytes(), final(self)@.len()),
            old(self)@.len() <= 8 * old(self).bytes().len(),
    {
        proof {
            use_type_invariant(&*self);
        }
        let (byte, offset) = self.bit_pos(bit);
        let b = self.data[byte];
        let v: u8 = if value { 1 } else { 0 };
        let nb = (b & !(1u8 << offset)) | (v << offset);
        proof {
            lemma_write_bit(b, offset, v);
            lemma_bits_after_byte_write(self.data@, byte as int, nb, self.bit_len as nat);
        }
        let ghost old_bytes = self.data@;
        self.data[byte] = nb;
        proof {
            assert forall|j: int| 0 <= j < self.bit_len implies #[trigger] bit_at(self.data@, j) == old(
                self,
            )@.update(bit as int, value)[j] by {
                if j / 8 == byte as int {
                    if j != bit as int {
                        assert(byte_bit(nb, (j % 8) as u8) == byte_bit(b, (j % 8) as u8));
                    }
                }
            }
            assert(self@ =~= old(self)@.update(bit as int, value));
        }
    }

    /// No bit in use is set.
    pub fn zeroed(&self) -> (r: bool)
        ensures
            r == (forall|i: int| 0 <= i < self@.len() ==> !self@[i]),
    {
        let mut i: usize = 0;
        while i < self.bit_len
            invariant
                i <= self@.len(),
                self.bit_len == self@.len(),
                forall|j: int| 0 <= j < i ==> !self@[j],
            decreases self@.len() - i,
        {
            if self.get(i) == Some(true) {
                return false;
            }
            i = i + 1;
        }
        true
    }

    /// Get the real bitmap len in bytes.
    pub fn len(&self) -> (r: usize)
        ensures
            r == BLOCKS,
            r == self.bytes().len(),
    {
        proof {
            use_type_invariant(self);
        }
        self.data.len()
    }

    /// Get the bitmap len in bits.
    pub fn bit_len(&self) -> (r: usize)
        ensures
            r == self@.len(),
    {
        self.bit_len
    }

    /// Get the bytes that hold the bits.
    pub fn data_ptr(&self) -> (r: &[u8])
        ensures
            r@ == self.bytes(),
    {
        self.data.as_slice()
    }

    /// An iterator over the bits in use, starting at bit 0.
    pub fn iter(&self) -> (r: BitmapIter<'_, BLOCKS>)
        ensures
            r.index() == 0,
            r.bitmap() == *self,
    {
        BitmapIter { curr_bit_idx: 0, bitmap: self }
    }

    /// The byte index and the offset inside that byte of `bit`.
    fn bit_pos(&self, bit: usize) -> (r: (usize, u8))
        ensures
            r.0 == bit / 8,
            r.1 == bit % 8,
            r.1 < 8,
    {
        proof {
            lemma_bit_pos(bit);
        }
        let byte = bit >> 3;
        let offset = bit & 7;
        (byte, offset as u8)
    }

    /// Every byte of the bitmap, bit 0 first, as `'0'` and `'1'` characters.
    pub fn to_string(&self) -> (r: String)
        ensures
            r@ == bit_chars(self.bytes(), (BLOCKS * 8) as nat),
    {
        proof {
            use_type_invariant(self);
            reveal_strlit("0");
            reveal_strlit("1");
        }
        let mut s = String::new();
        let mut i: usize = 0;
        while i < self.data.len()
            invariant
                i <= self.data@.len(),
                self.data@.len() == BLOCKS,
                s@ == bit_chars(self.data@, (i * 8) as nat),
            decreases self.data@.len() - i,
        {
            let byte = self.data[i];
            let mut offset: u8 = 0;
            while offset < 8
                invariant
                    i < self.data@.len(),
                    byte == self.data@[i as int],
                    offset <= 8,
                    s@ == bit_chars(self.data@, (i * 8 + offset) as nat),
                decreases 8 - offset,
            {
                let v = (byte & (1u8 << offset)) >> offset;
                proof {
                    lemma_read_bit(byte, offset);
                    assert((i * 8 + offset) / 8 == i as int);
                    assert((i * 8 + offset) % 8 == offset as int);
                }
                let ghost prev = s@;
                proof {
                    reveal_strlit("0");
                    reveal_strlit("1");
                    assert(bit_at(self.data@, i * 8 + offset) == byte_bit(byte, offset));
                }
                if v == 1 {
                    s.append("1");
                } else {
                    s.append("0");
                }
                assert(s@ =~= bit_chars(self.data@, (i * 8 + offset + 1) as nat)) by {
                    assert(prev =~= bit_chars(self.data@, (i * 8 + offset) as nat));
                    assert(s@.len() == prev.len() + 1);
                }
                offset = offset + 1;
            }
            i = i + 1;
        }
        s
    }
}

/// Walks through the bits of a [Bitmap], one bit per call of [BitmapIter::next].
pub struct BitmapIter<'a, const BLOCKS: usize> {
    curr_bit_idx: usize,
    bitmap: &'a Bitmap<BLOCKS>,
}

impl<'a, const BLOCKS: usize> BitmapIter<'a, BLOCKS> {
    /// The index of the bit that the next call reads.
    pub closed spec fn index(&self) -> usize {
        self.curr_bit_idx
    }

    /// The bitmap being walked.
    pub closed spec fn bitmap(&self) -> Bitmap<BLOCKS> {
        *self.bitmap
    }

    /// The bit at the current index (`None` past the last bit); the index moves on by one.
    pub fn next(&mut self) -> (r: Option<bool>)
        requires
            old(self).index() < usize::MAX,
        ensures
            r == (if old(self).index() < old(self).bitmap()@.len() {
                Some(old(self).bitmap()@[old(self).index() as int])
            } else {
                None::<bool>
            }),
            final(self).index() == old(self).index() + 1,
            final(self).bitmap() == old(self).bitmap(),
    {
        let bit = self.bitmap.get(self.curr_bit_idx);
        self.curr_bit_idx = self.curr_bit_idx + 1;
        bit
    }

    /// The bits from the current index to the last one, in order: the iteration runs to its end,
    /// yielding each bit once, and stops there.
    pub fn collect(self) -> (r: Vec<bool>)
        requires
            self.index() <= self.bitmap()@.len(),
            self.bitmap()@.len() < usize::MAX,
        ensures
            r@ == self.bitmap()@.subrange(self.index() as int, self.bitmap()@.len() as int),
    {
        let ghost bits = self.bitmap()@;
        let ghost start = self.index();
        let mut it = self;
        let mut v: Vec<bool> = Vec::new();
        loop
            invariant_except_break
                it.bitmap()@ == bits,
                start <= it.index() <= bits.len(),
                bits.len() < usize::MAX,
                v@ == bits.subrange(start as int, it.index() as int),
            ensures
                v@ == bits.subrange(start as int, bits.len() as int),
            decreases bits.len() - it.index(),
        {
            match it.next() {
                Some(b) => {
                    v.push(b);
                    assert(v@ =~= bits.subrange(start as int, it.index() as int));
                },
                None => {
                    break;
                },
            }
        }
        v
    }
}

} // verus!
