//! A bitmap over bytes that it borrows mutably.
use vstd::prelude::*;
use crate::data_structures::bits::{bit_at, bits_of, byte_bit, lemma_bit_pos, lemma_bits_after_byte_write, lemma_read_bit, lemma_write_bit, lemma_zero_bits, with_bit};
use crate::data_structures::bitmap::bit_chars;

verus! {

/// A bitmap with a mut ref to the bitmap itself.
pub struct BitmapRefMut<'a> {
    data: &'a mut [u8],
    bit_len: usize,
}

impl<'a> View for BitmapRefMut<'a> {
    type V = Seq<bool>;

    /// The bits in use, in order.
    closed spec fn view(&self) -> Seq<bool> {
        bits_of(self.data@, self.bit_len as nat)
    }
}

impl<'a> BitmapRefMut<'a> {
    #[verifier::type_invariant]
    spec fn inv(self) -> bool {
        self.bit_len <= self.data@.len() * 8
    }

    /// The borrowed bytes.
    pub closed spec fn bytes(&self) -> Seq<u8> {
        self.data@
    }

    /// Creates a new **BitmapRefMut** that points to `data`.
    /// The data pointed to by `data` will be zeroed out.
    ///
    /// `bit_len` is an optional parameter that specifies how many of the bits in `data` will actually be used.
    /// In case this parameter is **None**, all the bits available in `data` will be used.
    pub fn new(data: &'a mut [u8], bit_len: Option<usize>) -> (r: Self)
        requires
            old(data)@.len() * 8 <= usize::MAX,
            bit_len matches Some(l) ==> l <= old(data)@.len() * 8,
        ensures
            r@ == Seq::new(
                (match bit_len {
                    Some(l) => l as nat,
                    None => (old(data)@.len() * 8) as nat,
                }),
                |i: int| false,
            ),
            r.bytes() == Seq::new(old(data)@.len(), |i: int| 0u8),
    {
        let bit_len = match bit_len {
            Some(len) => len,
            None => data.len() * 8,
        };
        let n = data.len();
        let mut i: usize = 0;
        while i < n
            invariant
                i <= n,
                n == data@.len(),
                n == old(data)@.len(),
                forall|k: int| 0 <= k < i ==> data@[k] == 0u8,
            decreases n - i,
        {
            data[i] = 0u8;
            i = i + 1;
        }
        proof {
            lemma_zero_bits(data@, bit_len as nat);
            assert(data@ =~= Seq::new(n as nat, |i: int| 0u8));
        }
        BitmapRefMut { data, bit_len }
    }

    /// Get the value (true/false) in the position `bit` that works as an index in the array of bits.
    pub fn get(&self, bit: usize) -> (r: Option<bool>)
        ensures
            r == (if bit < self@.len() { Some(self@[bit as int]) } else { None::<bool> }),
            self@ == bits_of(self.bytes(), self@.len()),
            self@.len() <= 8 * self.bytes().len(),
    {
        proof {
            use_type_invariant(self);
        }
        if bit >= self.bit_len {
            return None;
        }
        let (byte, offset) = self.bit_pos(bit);
        let b = self.data[byte];
        let v = (b & (1u8 << offset)) >> offset;
        proof {
            lemma_read_bit(b, offset);
        }
        if v == 0 {
            Some(false)
        } else {
            Some(true)
        }
    }

    /// Set bit at position `bit` to `value`.
    pub fn set(&mut self, bit: usize, value: bool)
        requires
            bit < old(self)@.len(),
        ensures
            final(self)@ == old(self)@.update(bit as int, value),
            final(self).bytes() == old(self).bytes().update(
                bit as int / 8,
                with_bit(old(self).bytes()[bit as int / 8], (bit % 8) as u8, value),
            ),
            final(self).bytes().len() == old(self).bytes().len(),
            old(self)@ == bits_of(old(self).bytes(), old(self)@.len()),
            final(self)@ == bits_of(final(self).bytes(), final(self)@.len()),
            old(self)@.len() <= 8 * old(self).bytes().len(),
    {
        proof {
            use_type_invariant(&*self);
        }
        let (byte, offset) = self.bit_pos(bit);
        let b = self.data[byte];
        let v: u8 = if value { 1 } else { 0 };
        let nb = (b & !(1u8 << offset)) | (v << offset);
        proof {
            lemma_write_bit(b, offset, v);
            lemma_bits_after_byte_write(self.data@, byte as int, nb, self.bit_len as nat);
        }
        self.data[byte] = nb;
        proof {
            assert forall|j: int| 0 <= j < self.bit_len implies #[trigger] bit_at(self.data@, j) == old(
                self,
            )@.update(bit as int, value)[j] by {
                if j / 8 == byte as int {
                    if j != bit as int {
                        assert(byte_bit(nb, (j % 8) as u8) == byte_bit(b, (j % 8) as u8));
                    }
                }
            }
            assert(self@ =~= old(self)@.update(bit as int, value));
        }
    }

    /// An iterator over the bits in use, starting at bit 0.
    pub fn iter(&self) -> (r: BitmapRefMutIter<'_>)
        ensures
            r.index() == 0,
            r.bitmap()@ == self@,
    {
        BitmapRefMutIter { curr_bit_idx: 0, bitmap: self }
    }

    /// The byte index and the offset inside that byte of `bit`.
    fn bit_pos(&self, bit: usize) -> (r: (usize, u8))
        ensures
            r.0 == bit / 8,
            r.1 == bit % 8,
            r.1 < 8,
    {
        proof {
            lemma_bit_pos(bit);
        }
        let byte = bit >> 3;
        let offset = bit & 7;
        (byte, offset as u8)
    }

    /// The first `bit_len` bytes, each written bit 0 first as `'0'` and `'1'` characters.
    pub fn to_string(&self) -> (r: String)
        requires
            self@.len() <= self.bytes().len(),
        ensures
            r@ == bit_chars(self.bytes(), (self@.len() * 8) as nat),
    {
        let n = self.bit_len;
        let mut s = String::new();
        let mut i: usize = 0;
        while i < n
            invariant
                i <= n,
                n <= self.data@.len(),
                s@ == bit_chars(self.data@, (i * 8) as nat),
            decreases n - i,
        {
            let byte = self.data[i];
            let mut offset: u8 = 0;
            while offset < 8
                invariant
                    i < self.data@.len(),
                    byte == self.data@[i as int],
                    offset <= 8,
                    s@ == bit_chars(self.data@, (i * 8 + offset) as nat),
                decreases 8 - offset,
            {
                let v = (byte & (1u8 << offset)) >> offset;
                let ghost prev = s@;
                proof {
                    reveal_strlit("0");
                    reveal_strlit("1");
                    lemma_read_bit(byte, offset);
                    assert((i * 8 + offset) / 8 == i as int);
                    assert((i * 8 + offset) % 8 == offset as int);
                    assert(bit_at(self.data@, i * 8 + offset) == byte_bit(byte, offset));
                }
                if v == 1 {
                    s.append("1");
                } else {
                    s.append("0");
                }
                assert(s@ =~= bit_chars(self.data@, (i * 8 + offset + 1) as nat)) by {
                    assert(prev =~= bit_chars(self.data@, (i * 8 + offset) as nat));
                    assert(s@.len() == prev.len() + 1);
                }
                offset = offset + 1;
            }
            i = i + 1;
        }
        s
    }
}

/// Walks through the bits of a [BitmapRefMut], one bit per call of [BitmapRefMutIter::next].
pub struct BitmapRefMutIter<'a> {
    curr_bit_idx: usize,
    bitmap: &'a BitmapRefMut<'a>,
}

impl<'a> BitmapRefMutIter<'a> {
    /// The index of the bit that the next call reads.
    pub closed spec fn index(&self) -> usize {
        self.curr_bit_idx
    }

    /// The bitmap being walked.
    pub closed spec fn bitmap(&self) -> BitmapRefMut<'a> {
        *self.bitmap
    }

    /// The bit at the current index (`None` past the last bit); the index moves on by one.
    pub fn next(&mut self) -> (r: Option<bool>)
        requires
            old(self).index() < usize::MAX,
        ensures
            r == (if old(self).index() < old(self).bitmap()@.len() {
                Some(old(self).bitmap()@[old(self).index() as int])
            } else {
                None::<bool>
            }),
            final(self).index() == old(self).index() + 1,
            final(self).bitmap()@ == old(self).bitmap()@,
    {
        let bit = self.bitmap.get(self.curr_bit_idx);
        self.curr_bit_idx = self.curr_bit_idx + 1;
        bit
    }

    /// The bits from the current index to the last one, in order: the iteration runs to its end,
    /// yielding each bit once, and stops there.
    pub fn collect(self) -> (r: Vec<bool>)
        requires
            self.index() <= self.bitmap()@.len(),
            self.bitmap()@.len() < usize::MAX,
        ensures
            r@ == self.bitmap()@.subrange(self.index() as int, self.bitmap()@.len() as int),
    {
        let ghost bits = self.bitmap()@;
        let ghost start = self.index();
        let mut it = self;
        let mut v: Vec<bool> = Vec::new();
        loop
            invariant_except_break
                it.bitmap()@ == bits,
                start <= it.index() <= bits.len(),
                bits.len() < usize::MAX,
                v@ == bits.subrange(start as int, it.index() as int),
            ensures
                v@ == bits.subrange(start as int, bits.len() as int),
            decreases bits.len() - it.index(),
        {
            match it.next() {
                Some(b) => {
                    v.push(b);
                    assert(v@ =~= bits.subrange(start as int, it.index() as int));
                },
                None => {
                    break;
                },
            }
        }
        v
    }
}

} // verus!
