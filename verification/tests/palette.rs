use level::containers::DataContainer;
use level::error::Error;
use level::model::PaletteKind;
use level::palette::{BiomePaletteContainer, StatePaletteContainer};

#[test]
fn state() {
    let mut data = Vec::new();
    for i in 0..512 {
        data.push(i)
    }
    data.reverse();
    let mut container = StatePaletteContainer::<512>::new(0);
    for i in 0..512 {
        container.set(i, data[i]).unwrap();
        assert_eq!(container.get(i), Ok(data[i]));
        for j in 0..=i {
            assert_eq!(container.get(j), Ok(data[j]))
        }
    }
}

#[test]
fn biome() {
    let data = vec![7, 6, 5, 4, 3, 2, 1, 0];
    let mut container = BiomePaletteContainer::<8>::new(0);
    for i in 0..8 {
        container.set(i, data[i]).unwrap();
        assert_eq!(container.get(i), Ok(data[i]));
        for j in 0..=i {
            assert_eq!(container.get(j), Ok(data[j]))
        }
    }
}

#[test]
fn biome_single_value_stays_single_value() {
    let mut c = BiomePaletteContainer::<64>::new(5);
    assert_eq!(c.set(0, 5), Ok(()));
    assert_eq!(c.set(63, 5), Ok(()));
    assert_eq!(c.kind(), PaletteKind::SingleValue);
    assert_eq!(c.bits(), 0);
    for i in 0..64 {
        assert_eq!(c.get(i), Ok(5));
    }
}

#[test]
fn biome_promotes_linear() {
    let mut c = BiomePaletteContainer::<64>::new(0);
    assert_eq!(c.kind(), PaletteKind::SingleValue);
    c.set(0, 1).unwrap();
    assert_eq!((c.kind(), c.bits()), (PaletteKind::Linear, 1));
    c.set(1, 2).unwrap();
    assert_eq!((c.kind(), c.bits()), (PaletteKind::Linear, 2));
    c.set(2, 3).unwrap();
    assert_eq!((c.kind(), c.bits()), (PaletteKind::Linear, 2));
    c.set(3, 4).unwrap();
    assert_eq!((c.kind(), c.bits()), (PaletteKind::Linear, 3));
    assert_eq!(c.get(0), Ok(1));
    assert_eq!(c.get(1), Ok(2));
    assert_eq!(c.get(2), Ok(3));
    assert_eq!(c.get(3), Ok(4));
    for i in 4..64 {
        assert_eq!(c.get(i), Ok(0));
    }
    c.set(4, 5).unwrap();
    c.set(5, 6).unwrap();
    c.set(6, 7).unwrap();
    assert_eq!((c.kind(), c.bits()), (PaletteKind::Linear, 3));
    // eight distinct values are in use: a ninth is refused and nothing changes
    assert_eq!(c.set(7, 8), Err(Error::PaletteOverflow));
    assert_eq!(c.swap(7, 8), Err(Error::PaletteOverflow));
    assert_eq!(c.get(7), Ok(0));
    for i in 0..7 {
        assert_eq!(c.get(i), Ok(i as u64 + 1));
    }
    // a value already in the palette is still taken
    assert_eq!(c.set(7, 3), Ok(()));
    assert_eq!(c.get(7), Ok(3));
}

#[test]
fn biome_keeps_entries_when_widening() {
    let mut c = BiomePaletteContainer::<16>::new(9);
    for i in 0..8 {
        c.set(i, 100 + (i as u64 % 2)).unwrap();
    }
    c.set(8, 200).unwrap();
    c.set(9, 300).unwrap();
    c.set(10, 400).unwrap();
    for i in 0..8 {
        assert_eq!(c.get(i), Ok(100 + (i as u64 % 2)));
    }
    assert_eq!(c.get(8), Ok(200));
    assert_eq!(c.get(9), Ok(300));
    assert_eq!(c.get(10), Ok(400));
    assert_eq!(c.get(11), Ok(9));
    assert_eq!((c.kind(), c.bits()), (PaletteKind::Linear, 3));
}

#[test]
fn biome_with_bits() {
    assert!(matches!(
        BiomePaletteContainer::<64>::with_bits(4, 0),
        Err(Error::PreconditionViolated)
    ));
    let mut c = BiomePaletteContainer::<64>::with_bits(0, 7).unwrap();
    assert_eq!(c.kind(), PaletteKind::SingleValue);
    assert_eq!(c.get(10), Ok(7));
    let mut c = BiomePaletteContainer::<64>::with_bits(3, 7).unwrap();
    assert_eq!((c.kind(), c.bits()), (PaletteKind::Linear, 3));
    for i in 0..64 {
        assert_eq!(c.get(i), Ok(7));
    }
    c.set(1, 8).unwrap();
    assert_eq!((c.kind(), c.bits()), (PaletteKind::Linear, 3));
    assert_eq!(c.get(1), Ok(8));
    assert_eq!(c.get(0), Ok(7));
    let c = BiomePaletteContainer::<64>::with_bits_unchecked(2, 1);
    assert_eq!((c.kind(), c.bits()), (PaletteKind::Linear, 2));
}

#[test]
fn biome_swap_returns_prior_value() {
    let mut c = BiomePaletteContainer::<4>::new(2);
    assert_eq!(c.swap(1, 9), Ok(2));
    assert_eq!(c.swap(1, 4), Ok(9));
    assert_eq!(c.get(1), Ok(4));
    assert_eq!(c.get(0), Ok(2));
    assert_eq!(c.swap_unchecked(0, 4), Ok(2));
    assert_eq!(c.get_unchecked(0), 4);
    assert_eq!(c.set_unchecked(2, 9), Ok(()));
    assert_eq!(c.get_unchecked(2), 9);
}

#[test]
fn biome_out_of_bounds() {
    let mut c = BiomePaletteContainer::<64>::new(1);
    assert_eq!(c.get(64), Err(Error::OutOfBounds));
    assert_eq!(c.set(64, 2), Err(Error::OutOfBounds));
    assert_eq!(c.swap(64, 2), Err(Error::OutOfBounds));
    assert_eq!(c.kind(), PaletteKind::SingleValue);
    for i in 0..64 {
        assert_eq!(c.get(i), Ok(1));
    }
}

#[test]
fn state_full_promotion_chain() {
    let mut c = StatePaletteContainer::<4096>::new(0);
    let mut last = vec![0u64; 4096];
    assert_eq!(c.kind(), PaletteKind::SingleValue);
    for v in 1..5000u64 {
        let i = (v % 4096) as usize;
        c.set(i, v).unwrap();
        last[i] = v;
        assert_eq!(c.get(i), Ok(v));
        // distinct values seen so far: 0 and 1..=v
        let seen = v + 1;
        let expected = if seen <= 16 {
            (PaletteKind::Linear, 4)
        } else if seen <= 32 {
            (PaletteKind::Mapped, 5)
        } else if seen <= 64 {
            (PaletteKind::Mapped, 6)
        } else if seen <= 128 {
            (PaletteKind::Mapped, 7)
        } else if seen <= 256 {
            (PaletteKind::Mapped, 8)
        } else {
            (PaletteKind::Global, 15)
        };
        assert_eq!((c.kind(), c.bits()), expected);
        if v == 16 || v == 32 || v == 64 || v == 128 || v == 256 || v == 257 || v == 4999 {
            for j in 0..4096 {
                assert_eq!(c.get(j), Ok(last[j]));
            }
        }
    }
}

#[test]
fn state_repeated_values_do_not_promote() {
    let mut c = StatePaletteContainer::<64>::new(3);
    for round in 0..10 {
        for i in 0..64 {
            c.set(i, (i as u64 + round) % 16).unwrap();
        }
    }
    assert_eq!((c.kind(), c.bits()), (PaletteKind::Linear, 4));
    for i in 0..64 {
        assert_eq!(c.get(i), Ok((i as u64 + 9) % 16));
    }
    c.set(0, 16).unwrap();
    assert_eq!((c.kind(), c.bits()), (PaletteKind::Mapped, 5));
    assert_eq!(c.get(0), Ok(16));
    for i in 1..64 {
        assert_eq!(c.get(i), Ok((i as u64 + 9) % 16));
    }
}

#[test]
fn state_with_bits_buckets() {
    let mut c = StatePaletteContainer::<16>::with_bits(0, 9);
    assert_eq!((c.kind(), c.bits()), (PaletteKind::SingleValue, 0));
    assert_eq!(c.get(3), Ok(9));
    for bits in 1..=4 {
        let mut c = StatePaletteContainer::<16>::with_bits(bits, 9);
        assert_eq!((c.kind(), c.bits()), (PaletteKind::Linear, 4));
        assert_eq!(c.get(15), Ok(9));
    }
    for bits in 5..=8 {
        let mut c = StatePaletteContainer::<16>::with_bits(bits, 9);
        assert_eq!((c.kind(), c.bits()), (PaletteKind::Mapped, bits));
        assert_eq!(c.get(0), Ok(9));
        c.set(1, 70000).unwrap();
        assert_eq!(c.get(1), Ok(70000));
        assert_eq!(c.get(0), Ok(9));
    }
    // global ids start out as a fresh array: every entry is 0, whatever the value
    for bits in [9usize, 15, 64, 1000] {
        let mut c = StatePaletteContainer::<16>::with_bits(bits, 9);
        assert_eq!((c.kind(), c.bits()), (PaletteKind::Global, 15));
        for i in 0..16 {
            assert_eq!(c.get(i), Ok(0));
        }
        c.set(2, 32767).unwrap();
        assert_eq!(c.get(2), Ok(32767));
        assert_eq!(c.get(1), Ok(0));
    }
}

#[test]
fn state_global_keeps_low_15_bits() {
    let mut c = StatePaletteContainer::<8>::with_bits(15, 0);
    c.set(0, 40000).unwrap();
    assert_eq!(c.get(0), Ok(40000 & 0x7fff));
    assert_eq!(c.get(0), Ok(7232));
    let mut c = StatePaletteContainer::<8>::with_bits(9, 32768 + 5);
    assert_eq!(c.get(7), Ok(0));
    c.set(7, 32768 + 5).unwrap();
    assert_eq!(c.get(7), Ok(5));
    assert_eq!(c.get(6), Ok(0));
}

#[test]
fn state_swap_returns_prior_value() {
    let mut c = StatePaletteContainer::<4>::new(2);
    assert_eq!(c.swap(1, 9), Ok(2));
    assert_eq!(c.swap(1, 4), Ok(9));
    assert_eq!(c.get(1), Ok(4));
    assert_eq!(c.get(0), Ok(2));
    assert_eq!(c.swap_unchecked(0, 4), 2);
    assert_eq!(c.get_unchecked(0), 4);
    c.set_unchecked(3, 11);
    assert_eq!(c.get_unchecked(3), 11);
}

#[test]
fn state_out_of_bounds() {
    let mut c = StatePaletteContainer::<4096>::new(1);
    assert_eq!(c.get(4096), Err(Error::OutOfBounds));
    assert_eq!(c.set(4096, 2), Err(Error::OutOfBounds));
    assert_eq!(c.swap(4096, 2), Err(Error::OutOfBounds));
    assert_eq!(c.kind(), PaletteKind::SingleValue);
    assert_eq!(c.get(4095), Ok(1));
    c.set(0, 7).unwrap();
    assert_eq!(c.set(5000, 8), Err(Error::OutOfBounds));
    assert_eq!((c.kind(), c.bits()), (PaletteKind::Linear, 4));
    assert_eq!(c.get(0), Ok(7));
    assert_eq!(c.get(1), Ok(1));
}

fn write_ramp<const N: usize, C: DataContainer<N>>(container: &mut C, distinct: u64) -> Result<(), Error> {
    for i in 0..N {
        container.set(i, i as u64 % distinct)?;
    }
    for i in 0..N {
        assert_eq!(container.get(i), Ok(i as u64 % distinct));
        assert_eq!(container.get_unchecked(i), i as u64 % distinct);
    }
    assert_eq!(container.swap(0, 1 % distinct), Ok(0));
    assert_eq!(container.swap_unchecked(0, 0), Ok(1 % distinct));
    assert_eq!(container.set_unchecked(0, 0), Ok(()));
    assert_eq!(container.get(N), Err(Error::OutOfBounds));
    assert_eq!(container.set(N, 0), Err(Error::OutOfBounds));
    assert_eq!(container.swap(N, 0), Err(Error::OutOfBounds));
    Ok(())
}

#[test]
fn containers_share_one_capability() {
    let mut biomes = BiomePaletteContainer::<64>::new(0);
    assert_eq!(write_ramp(&mut biomes, 8), Ok(()));
    assert_eq!((biomes.kind(), biomes.bits()), (PaletteKind::Linear, 3));
    let mut biomes = BiomePaletteContainer::<64>::new(0);
    assert_eq!(write_ramp(&mut biomes, 9), Err(Error::PaletteOverflow));
    let mut states = StatePaletteContainer::<4096>::new(0);
    assert_eq!(write_ramp(&mut states, 9), Ok(()));
    assert_eq!((states.kind(), states.bits()), (PaletteKind::Linear, 4));
    let mut states = StatePaletteContainer::<4096>::new(0);
    assert_eq!(write_ramp(&mut states, 300), Ok(()));
    assert_eq!((states.kind(), states.bits()), (PaletteKind::Global, 15));
}
