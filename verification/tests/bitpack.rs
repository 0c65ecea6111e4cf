use level::bitpack::PackedBits;
use level::error::Error;

#[test]
fn packed_round_trip() {
    let mut p = PackedBits::<256>::new(5).unwrap();
    for i in 0..256 {
        p.set(i, (i % 32) as u64).unwrap();
    }
    for i in 0..256 {
        assert_eq!(p.get(i), Ok((i % 32) as u64));
    }
    p.change_bits(5).unwrap();
    for i in 0..256 {
        assert_eq!(p.get(i), Ok(0));
    }
    p.change_bits(9).unwrap();
    assert_eq!(p.bits(), 9);
    for i in 0..256 {
        assert_eq!(p.get(i), Ok(0));
    }
}

#[test]
fn packed_set_leaves_other_slots() {
    for bits in 1..=64usize {
        let mut p = PackedBits::<40>::new(bits).unwrap();
        let top = if bits == 64 { u64::MAX } else { (1u64 << bits) - 1 };
        for i in 0..40 {
            p.set(i, top).unwrap();
        }
        p.set(17, 0).unwrap();
        for i in 0..40 {
            assert_eq!(p.get(i), Ok(if i == 17 { 0 } else { top }));
        }
        p.set(17, 1).unwrap();
        assert_eq!(p.get(17), Ok(1));
        assert_eq!(p.get(16), Ok(top));
        assert_eq!(p.get(18), Ok(top));
    }
}

#[test]
fn packed_layout() {
    // 12 entries of 5 bits in each word, the first in the lowest bits
    let mut p = PackedBits::<256>::new(5).unwrap();
    assert_eq!(p.as_words().len(), 22);
    p.set(0, 1).unwrap();
    p.set(1, 2).unwrap();
    p.set(2, 3).unwrap();
    p.set(3, 4).unwrap();
    p.set(11, 31).unwrap();
    p.set(12, 7).unwrap();
    assert_eq!(p.as_words()[0], 1 | (2 << 5) | (3 << 10) | (4 << 15) | (31 << 55));
    assert_eq!(p.as_words()[0], 0xf80_0000_0002_0c41);
    assert_eq!(p.as_words()[1], 7);
    for w in 2..22 {
        assert_eq!(p.as_words()[w], 0);
    }
    let p = PackedBits::<4096>::new(15).unwrap();
    assert_eq!(p.as_words().len(), 1024);
    let p = PackedBits::<64>::new(3).unwrap();
    assert_eq!(p.as_words().len(), 4);
    let p = PackedBits::<64>::new(64).unwrap();
    assert_eq!(p.as_words().len(), 64);
    let p = PackedBits::<0>::new(7).unwrap();
    assert_eq!(p.as_words().len(), 0);
}

#[test]
fn packed_masks_to_width() {
    let mut p = PackedBits::<8>::new(4).unwrap();
    p.set(3, 0x1f5).unwrap();
    assert_eq!(p.get(3), Ok(5));
    assert_eq!(p.get(2), Ok(0));
    assert_eq!(p.get(4), Ok(0));
    assert_eq!(p.as_words()[0], 5 << 12);
}

#[test]
fn packed_zero_width() {
    let mut p = PackedBits::<16>::new(0).unwrap();
    assert_eq!(p.as_words().len(), 0);
    assert_eq!(p.get(3), Ok(0));
    assert_eq!(p.set(3, 9), Ok(()));
    assert_eq!(p.get(3), Ok(0));
    assert_eq!(p.get(16), Err(Error::OutOfBounds));
}

#[test]
fn packed_errors() {
    assert!(matches!(PackedBits::<16>::new(65), Err(Error::PreconditionViolated)));
    let mut p = PackedBits::<16>::new(64).unwrap();
    assert_eq!(p.get(16), Err(Error::OutOfBounds));
    assert_eq!(p.set(16, 1), Err(Error::OutOfBounds));
    p.set(15, 77).unwrap();
    assert_eq!(p.change_bits(65), Err(Error::PreconditionViolated));
    assert_eq!(p.bits(), 64);
    assert_eq!(p.get(15), Ok(77));
}

#[test]
fn packed_take_leaves_empty() {
    let mut p = PackedBits::<16>::new(6).unwrap();
    p.set(2, 33).unwrap();
    let taken = p.take();
    assert_eq!(taken.bits(), 6);
    assert_eq!(taken.get(2), Ok(33));
    assert_eq!(p.bits(), 0);
    assert_eq!(p.as_words().len(), 0);
    assert_eq!(p.get(2), Ok(0));
}

#[test]
fn packed_repack_keeps_entries() {
    let mut p = PackedBits::<100>::new(4).unwrap();
    for i in 0..100 {
        p.set(i, (i % 16) as u64).unwrap();
    }
    p.repack(5);
    assert_eq!(p.bits(), 5);
    assert_eq!(p.as_words().len(), 9);
    for i in 0..100 {
        assert_eq!(p.get(i), Ok((i % 16) as u64));
    }
    p.repack(3);
    for i in 0..100 {
        assert_eq!(p.get(i), Ok((i % 8) as u64));
    }
}

#[test]
fn packed_from_words() {
    let p = PackedBits::<4>::from_words(16, vec![0x0004_0003_0002_0001]).unwrap();
    assert_eq!(p.get(0), Ok(1));
    assert_eq!(p.get(1), Ok(2));
    assert_eq!(p.get(2), Ok(3));
    assert_eq!(p.get(3), Ok(4));
    assert!(matches!(
        PackedBits::<4>::from_words(16, vec![1, 2]),
        Err(Error::DecodeInvalid)
    ));
    assert!(matches!(PackedBits::<4>::from_words(16, vec![]), Err(Error::DecodeInvalid)));
    assert!(matches!(
        PackedBits::<4>::from_words(65, vec![1]),
        Err(Error::PreconditionViolated)
    ));
    assert!(PackedBits::<4>::from_words(0, vec![]).is_ok());
    assert!(matches!(PackedBits::<4>::from_words(0, vec![0]), Err(Error::DecodeInvalid)));
    let mut q = PackedBits::<5>::new(20).unwrap();
    for i in 0..5 {
        q.set(i, 1000 * i as u64 + 1).unwrap();
    }
    let words = q.as_words().clone();
    assert_eq!(words.len(), 2);
    let r = PackedBits::<5>::from_words(20, words).unwrap();
    for i in 0..5 {
        assert_eq!(r.get(i), Ok(1000 * i as u64 + 1));
        assert_eq!(r.get_unchecked(i), q.get_unchecked(i));
    }
}
