use bitset::Bitset;

#[test]
fn test_bit_size() {
    assert_eq!(Bitset::<16, u8>::bit_size(), 8);
    assert_eq!(Bitset::<16, u16>::bit_size(), 16);
    assert_eq!(Bitset::<16, u32>::bit_size(), 32);
    assert_eq!(Bitset::<16, u64>::bit_size(), 64);
}

#[test]
fn test_set() {
    let mut bitset = Bitset::<2, u32>::new();

    bitset.set(0, true);
    assert_eq!(bitset.as_array(), &[1, 0]);
    bitset.set(1, true);
    assert_eq!(bitset.as_array(), &[3, 0]);
    bitset.set(32, true);
    assert_eq!(bitset.as_array(), &[3, 1]);
    bitset.set(0, false);
    assert_eq!(bitset.as_array(), &[2, 1]);

    bitset.reset();
    assert_eq!(bitset.as_array(), &[0, 0]);

    bitset.set(33, true);
    assert_eq!(bitset.as_array(), &[0, 2]);
}

#[test]
fn test_any() {
    let mut bitset = Bitset::<2, u32>::new();

    assert!(!bitset.any());
    bitset.set(0, true);
    assert!(bitset.any());
}

#[test]
fn test_all() {
    let mut bitset = Bitset::<2, u32>::new();

    assert!(!bitset.all());
    bitset.set(0, true);
    assert!(!bitset.all());

    for i in 0..64 {
        bitset.set(i, true);
    }
    assert!(bitset.all());
}

#[test]
fn test_none() {
    let mut bitset = Bitset::<2, u32>::new();

    assert!(bitset.none());
    bitset.set(0, true);
    assert!(!bitset.none());
}

#[test]
fn test_flip() {
    let mut bitset = Bitset::<2, u32>::new();

    bitset.set(0, true);
    assert_eq!(bitset.as_array(), &[1, 0]);

    bitset.flip();
    assert_eq!(bitset.as_array(), &[0xFFFFFFFE, 0xFFFFFFFF]);
}

#[test]
fn test_bit_iter() {
    let mut bitset = Bitset::<2, u32>::new();

    bitset.set(0, true);
    bitset.set(7, true);
    bitset.set(11, true);
    bitset.set(33, true);
    bitset.set(42, true);

    println!("{bitset:?}");

    let mut count: usize = 0;
    let mut i: usize = 0;
    let mut bits = bitset.bits();

    while let Some(bit) = bits.next() {
        match i {
            0 | 7 | 11 | 33 | 42 => assert_eq!(bit, 1, "index: {i}; bit: {bit}"),
            _ => assert_eq!(bit, 0, "index: {i}; bit: {bit}"),
        }

        i += 1;
        count += 1;
    }

    assert_eq!(count, 64);
}

#[test]
fn test_set_then_get() {
    let mut bitset = Bitset::<2, u32>::new();

    bitset.set(40, true);
    assert!(bitset.get(40));
    bitset.set(40, false);
    assert!(!bitset.get(40));

    bitset.set(3, true);
    bitset.set(40, true);
    assert!(bitset.get(40));
    assert!(bitset.get(3));
}

#[test]
fn test_set_preserves_others() {
    let mut bitset = Bitset::<2, u32>::new();

    bitset.set(5, true);
    bitset.set(37, true);

    let mut before: Vec<bool> = Vec::new();
    for pos in 0..64 {
        before.push(bitset.get(pos));
    }

    bitset.set(20, true);
    for pos in 0..64 {
        if pos != 20 {
            assert_eq!(bitset.get(pos), before[pos]);
        }
    }

    bitset.set(5, false);
    assert!(!bitset.get(5));
    for pos in 0..64 {
        if pos != 20 && pos != 5 {
            assert_eq!(bitset.get(pos), before[pos]);
        }
    }
}

#[test]
fn test_reset_aggregates() {
    let mut bitset = Bitset::<3, u16>::new();

    for pos in 0..48 {
        bitset.set(pos, true);
    }
    assert!(bitset.all());

    bitset.reset();
    assert!(bitset.none());
    assert!(!bitset.any());
    assert!(!bitset.all());
    for pos in 0..48 {
        assert!(!bitset.get(pos));
    }
}

#[test]
fn test_flip_involution() {
    let mut bitset = Bitset::<2, u32>::new();

    bitset.set(0, true);
    bitset.set(13, true);
    bitset.set(63, true);

    let mut before: Vec<bool> = Vec::new();
    for pos in 0..64 {
        before.push(bitset.get(pos));
    }

    bitset.flip();
    for pos in 0..64 {
        assert_eq!(bitset.get(pos), !before[pos]);
    }

    bitset.flip();
    for pos in 0..64 {
        assert_eq!(bitset.get(pos), before[pos]);
    }
    assert_eq!(bitset.as_array(), &[0x2001, 0x8000_0000]);
}

#[test]
fn test_aggregates_match_bits() {
    let mut bitset = Bitset::<1, u8>::new();

    assert!(bitset.none());
    assert!(!bitset.any());
    assert!(!bitset.all());

    bitset.set(2, true);
    assert!(!bitset.none());
    assert!(bitset.any());
    assert!(!bitset.all());

    for pos in 0..8 {
        bitset.set(pos, true);
    }
    assert!(!bitset.none());
    assert!(bitset.any());
    assert!(bitset.all());

    bitset.set(7, false);
    assert!(!bitset.all());
    assert!(bitset.any());
}

#[test]
fn test_bool_iter() {
    let mut bitset = Bitset::<1, u16>::new();

    bitset.set(1, true);
    bitset.set(15, true);

    let mut seen: Vec<bool> = Vec::new();
    let mut iter = bitset.iter();
    while let Some(bit) = iter.next() {
        seen.push(bit);
    }

    assert_eq!(seen.len(), 16);
    for (pos, bit) in seen.iter().enumerate() {
        assert_eq!(*bit, pos == 1 || pos == 15);
    }
}

#[test]
fn test_iter_exhausted() {
    let bitset = Bitset::<1, u8>::new();

    let mut bits = bitset.bits();
    for _ in 0..8 {
        assert_eq!(bits.next(), Some(0));
    }
    assert_eq!(bits.next(), None);
    assert_eq!(bits.next(), None);

    let mut iter = bitset.iter();
    for _ in 0..8 {
        assert_eq!(iter.next(), Some(false));
    }
    assert_eq!(iter.next(), None);
    assert_eq!(iter.next(), None);
}

#[test]
fn test_to_bit_vec() {
    let mut bitset = Bitset::<2, u32>::new();

    bitset.set(0, true);
    bitset.set(7, true);
    bitset.set(11, true);
    bitset.set(33, true);
    bitset.set(42, true);

    let bits = bitset.to_bit_vec();
    assert_eq!(bits.len(), 64);
    for (pos, bit) in bits.iter().enumerate() {
        let expected: u8 = match pos {
            0 | 7 | 11 | 33 | 42 => 1,
            _ => 0,
        };
        assert_eq!(*bit, expected);
        assert_eq!(*bit, u8::from(bitset.get(pos)));
    }
}

#[test]
fn test_get_bit() {
    let mut bitset = Bitset::<1, u64>::new();

    bitset.set(0, true);
    bitset.set(63, true);
    assert_eq!(bitset.get_bit(0), 1);
    assert_eq!(bitset.get_bit(1), 0);
    assert_eq!(bitset.get_bit(62), 0);
    assert_eq!(bitset.get_bit(63), 1);
}

#[test]
fn test_word_widths() {
    let mut small = Bitset::<4, u8>::new();
    assert_eq!(small.bit_len(), 32);
    small.set(9, true);
    assert_eq!(small.as_array(), &[0, 2, 0, 0]);
    assert!(small.get(9));

    let mut medium = Bitset::<2, u16>::new();
    assert_eq!(medium.bit_len(), 32);
    medium.set(16, true);
    assert_eq!(medium.as_array(), &[0, 1]);

    let mut large = Bitset::<1, u64>::new();
    assert_eq!(large.bit_len(), 64);
    large.set(40, true);
    assert_eq!(large.as_array(), &[1u64 << 40]);
}

#[test]
fn test_empty() {
    let bitset = Bitset::<0, u32>::new();

    assert_eq!(bitset.len(), 0);
    assert!(bitset.is_empty());
    assert_eq!(bitset.bit_len(), 0);
    assert!(!bitset.any());
    assert!(bitset.none());
    assert!(bitset.all());

    let mut bits = bitset.bits();
    assert_eq!(bits.next(), None);
    assert_eq!(bitset.to_bit_vec().len(), 0);
}

#[test]
fn test_len_and_default() {
    let bitset: Bitset<5, u16> = Default::default();

    assert_eq!(bitset.len(), 5);
    assert!(!bitset.is_empty());
    assert_eq!(bitset.bit_len(), 80);
    assert!(bitset.none());
    assert_eq!(bitset.as_array(), &[0, 0, 0, 0, 0]);
}
