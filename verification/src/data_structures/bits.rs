//! Bit-level facts shared by the bitmaps: how a bit of a byte is read and written.
use vstd::prelude::*;

verus! {

/// Bit `offset` (0 is the least significant) of the byte `b`.
pub open spec fn byte_bit(b: u8, offset: u8) -> bool {
    (b >> offset) & 1u8 == 1u8
}

/// Bit `i` of a little-endian (within each byte) bit string stored in `bytes`.
pub open spec fn bit_at(bytes: Seq<u8>, i: int) -> bool {
    byte_bit(bytes[i / 8], (i % 8) as u8)
}

/// The first `n` bits stored in `bytes`.
pub open spec fn bits_of(bytes: Seq<u8>, n: nat) -> Seq<bool> {
    Seq::new(n, |i: int| bit_at(bytes, i))
}

/// The byte `b` with bit `offset` set to `value` and its other bits kept.
pub open spec fn with_bit(b: u8, offset: u8, value: bool) -> u8 {
    (b & !(1u8 << offset)) | ((if value { 1u8 } else { 0u8 }) << offset)
}

/// Reading one bit with a mask and a shift gives 0 or 1, as the bit says.
pub proof fn lemma_read_bit(b: u8, offset: u8)
    requires
        offset < 8,
    ensures
        (b & (1u8 << offset)) >> offset == (if byte_bit(b, offset) { 1u8 } else { 0u8 }),
{
    assert((b & (1u8 << offset)) >> offset == (if (b >> offset) & 1u8 == 1u8 { 1u8 } else { 0u8 }))
        by (bit_vector)
        requires
            offset < 8,
    ;
}

/// Clearing a bit and or-ing in the new value sets exactly that bit.
pub proof fn lemma_write_bit(b: u8, offset: u8, v: u8)
    requires
        offset < 8,
        v <= 1,
    ensures
        byte_bit((b & !(1u8 << offset)) | (v << offset), offset) == (v == 1),
        forall|o: u8|
            o < 8 && o != offset ==> byte_bit((b & !(1u8 << offset)) | (v << offset), o)
                == #[trigger] byte_bit(b, o),
{
    let n = (b & !(1u8 << offset)) | (v << offset);
    assert(((n >> offset) & 1u8 == 1u8) == (v == 1)) by (bit_vector)
        requires
            offset < 8,
            v <= 1,
            n == (b & !(1u8 << offset)) | (v << offset),
    ;
    assert forall|o: u8| o < 8 && o != offset implies byte_bit(n, o) == #[trigger] byte_bit(b, o) by {
        assert(((n >> o) & 1u8 == 1u8) == ((b >> o) & 1u8 == 1u8)) by (bit_vector)
            requires
                offset < 8,
                o < 8,
                o != offset,
                v <= 1,
                n == (b & !(1u8 << offset)) | (v << offset),
        ;
    }
}

/// No bit of a zero byte is set.
pub proof fn lemma_zero_byte(o: u8)
    requires
        o < 8,
    ensures
        !byte_bit(0u8, o),
{
    assert((0u8 >> o) & 1u8 == 0u8) by (bit_vector);
}

/// Splitting a bit index into a byte index and an offset.
pub proof fn lemma_bit_pos(bit: usize)
    ensures
        bit >> 3usize == bit / 8,
        bit & 7usize == bit % 8,
{
    assert(bit >> 3usize == bit / 8) by (bit_vector);
    assert(bit & 7usize == bit % 8) by (bit_vector);
}

/// Writing one byte changes only the bits of that byte.
pub proof fn lemma_bits_after_byte_write(bytes: Seq<u8>, byte: int, nb: u8, n: nat)
    requires
        0 <= byte < bytes.len(),
        n <= bytes.len() * 8,
    ensures
        forall|j: int|
            0 <= j < n && j / 8 != byte ==> #[trigger] bit_at(bytes.update(byte, nb), j)
                == bit_at(bytes, j),
{
}

/// All the bits of zeroed bytes are clear.
pub proof fn lemma_zero_bits(bytes: Seq<u8>, n: nat)
    requires
        n <= bytes.len() * 8,
        forall|k: int| 0 <= k < bytes.len() ==> bytes[k] == 0u8,
    ensures
        bits_of(bytes, n) == Seq::new(n, |i: int| false),
{
    assert forall|i: int| 0 <= i < n implies !bit_at(bytes, i) by {
        lemma_zero_byte((i % 8) as u8);
    }
    assert(bits_of(bytes, n) =~= Seq::new(n, |i: int| false));
}

} // verus!
