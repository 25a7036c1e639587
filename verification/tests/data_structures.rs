use rsos::data_structures::bitmap::Bitmap;
use rsos::data_structures::bitmap_ref_mut::BitmapRefMut;

#[test]
fn bitmap_starts_clear() {
    let b: Bitmap<2> = Bitmap::new(None);
    assert_eq!(b.len(), 2);
    assert_eq!(b.bit_len(), 16);
    assert!(b.zeroed());
    for i in 0..16 {
        assert_eq!(b.get(i), Some(false));
    }
    assert_eq!(b.get(16), None);
}

#[test]
fn bitmap_with_shorter_bit_len() {
    let b: Bitmap<2> = Bitmap::new(Some(10));
    assert_eq!(b.bit_len(), 10);
    assert_eq!(b.get(9), Some(false));
    assert_eq!(b.get(10), None);
}

#[test]
fn bitmap_set_then_get() {
    let mut b: Bitmap<2> = Bitmap::new(None);
    b.set(3, true);
    b.set(9, true);
    assert_eq!(b.get(3), Some(true));
    assert_eq!(b.get(9), Some(true));
    assert_eq!(b.get(4), Some(false));
    assert!(!b.zeroed());
    b.set(3, false);
    assert_eq!(b.get(3), Some(false));
    assert_eq!(b.get(9), Some(true));
}

#[test]
fn bitmap_bytes_hold_bits_low_bit_first() {
    let mut b: Bitmap<2> = Bitmap::new(None);
    b.set(0, true);
    b.set(9, true);
    assert_eq!(b.data_ptr(), &[0b0000_0001u8, 0b0000_0010u8][..]);
}

#[test]
fn bitmap_to_string_lists_bits() {
    let mut b: Bitmap<1> = Bitmap::new(None);
    b.set(0, true);
    b.set(6, true);
    assert_eq!(b.to_string(), "10000010");
}

#[test]
fn bitmap_iter_walks_the_bits() {
    let mut b: Bitmap<1> = Bitmap::new(Some(4));
    b.set(1, true);
    let mut it = b.iter();
    assert_eq!(it.next(), Some(false));
    assert_eq!(it.next(), Some(true));
    assert_eq!(it.next(), Some(false));
    assert_eq!(it.next(), Some(false));
    assert_eq!(it.next(), None);
}

#[test]
fn bitmap_ref_mut_writes_through() {
    let mut data = [0xFFu8; 2];
    {
        let mut b = BitmapRefMut::new(&mut data, None);
        assert_eq!(b.get(0), Some(false));
        b.set(2, true);
        b.set(15, true);
        assert_eq!(b.get(2), Some(true));
        assert_eq!(b.get(15), Some(true));
        assert_eq!(b.get(16), None);
    }
    assert_eq!(data, [0b0000_0100, 0b1000_0000]);
}

#[test]
fn bitmap_ref_mut_iter_and_string() {
    let mut data = [0u8; 1];
    let mut b = BitmapRefMut::new(&mut data, Some(1));
    b.set(0, true);
    let mut it = b.iter();
    assert_eq!(it.next(), Some(true));
    assert_eq!(it.next(), None);
    assert_eq!(b.to_string(), "10000000");
}

#[test]
fn bitmap_iter_collects_every_bit_once() {
    let mut b: Bitmap<2> = Bitmap::new(Some(11));
    b.set(0, true);
    b.set(9, true);
    b.set(10, true);
    let bits = b.iter().collect();
    let expected: Vec<bool> = (0..11).map(|k| b.get(k).unwrap()).collect();
    assert_eq!(bits, expected);
    assert_eq!(bits.len(), 11);
    assert_eq!(bits[9], true);
    assert_eq!(bits[8], false);
}

#[test]
fn bitmap_ref_mut_iter_collects_every_bit_once() {
    let mut data = [0u8; 2];
    let mut b = BitmapRefMut::new(&mut data, Some(12));
    b.set(3, true);
    b.set(11, true);
    let bits = b.iter().collect();
    let mut expected = vec![false; 12];
    expected[3] = true;
    expected[11] = true;
    assert_eq!(bits, expected);
}
