use level::chunk::{
    bit_at, ChunkColumn, ChunkColumn0, ChunkSection, ChunkSection0, ChunkSection0Decode,
};
use level::codec::{Decode, Encode};
use level::containers::{byte_array_get, byte_array_set, half_byte_array_get, half_byte_array_set};
use level::cursor::Cursor;
use level::error::Error;

#[test]
fn t_bit_at() {
    let bitmask = 0b1010101010101010u16;
    for i in 0u8..16 {
        let bit = bit_at(bitmask, i);
        if i % 2 == 0 && bit {
            panic!("{i}th bit should be 0!")
        }
        if i % 2 == 1 && !bit {
            panic!("bit {i} should be 1!")
        }
    }
}

#[test]
fn pv0() {
    // first we generate the data
    let bitmask = 0b1011001110110011u16;
    let add = 0b1001001010010010u16;
    let sky_light = 0b0010000100100001u16;

    let mut data = Vec::<u8>::new();

    for i in 0u8..16 {
        let exists = bit_at(bitmask, i);
        let add = bit_at(add, i);
        println!("{:b}", add as u8);
        let sky_light = bit_at(bitmask, i);
        if exists {
            for i in 0u16..4096 {
                data.push(i as u8);
                data.push(((i & 0xf0) >> 8) as u8)
            }
        }
        if add {
            for i in 0u16..2048 {
                data.push(i as u8)
            }
        }
        if sky_light {
            for i in 0u16..2048 {
                data.push(i as u8)
            }
        }
        for i in 0u16..2048 {
            data.push(i as u8)
        }
    }

    let mut chunk =
        ChunkColumn0::from_reader(&mut Cursor::new(&data), bitmask, add, sky_light).unwrap();
    chunk.reallocate::<1024>();
}

#[test]
fn bit_at_is_shift_and_mask() {
    for m in [0u16, 1, 0x8000, 0xffff, 0b1011001110110011, 0x1234] {
        for i in 0u8..16 {
            assert_eq!(bit_at(m, i), (m >> i) & 1 == 1);
        }
    }
    assert!(bit_at(0x8000, 15));
    assert!(!bit_at(0x8000, 14));
    assert!(bit_at(1, 0));
}

fn ramp(section: u8, field: u8, k: usize) -> u8 {
    (k as u8).wrapping_mul(3).wrapping_add(section.wrapping_mul(16)).wrapping_add(field)
}

fn ramp_column(bitmask: u16, add: u16, sky_light: u16) -> Vec<u8> {
    let mut data = Vec::new();
    for i in 0u8..16 {
        if !bit_at(bitmask, i) {
            continue;
        }
        for k in 0..4096 {
            data.push((k & 0xff) as u8);
        }
        for k in 0..2048 {
            data.push(ramp(i, 1, k));
        }
        for k in 0..2048 {
            data.push(ramp(i, 2, k));
        }
        if bit_at(sky_light, i) {
            for k in 0..2048 {
                data.push(ramp(i, 3, k));
            }
        }
        if bit_at(add, i) {
            for k in 0..2048 {
                data.push(ramp(i, 4, k));
            }
        }
        for k in 0..2048 {
            data.push(ramp(i, 5, k));
        }
    }
    data
}

fn check_ramp_column(column: &ChunkColumn0, bitmask: u16, add: u16, sky_light: u16) {
    for i in 0u8..16 {
        let section = column.section(i as usize);
        assert_eq!(section.is_some(), bit_at(bitmask, i));
        let Some(section) = section else { continue };
        assert_eq!(section.blocks.len(), 4096);
        assert_eq!(section.metadata.len(), 2048);
        assert_eq!(section.light.len(), 2048);
        assert_eq!(section.biomes.len(), 2048);
        assert_eq!(section.sky_light.is_some(), bit_at(sky_light, i));
        assert_eq!(section.add.is_some(), bit_at(add, i));
        for k in 0..4096 {
            assert_eq!(section.blocks[k], (k & 0xff) as u8);
            assert_eq!(byte_array_get(section.blocks, k), Ok((k & 0xff) as u8));
        }
        for k in 0..2048 {
            assert_eq!(section.metadata[k], ramp(i, 1, k));
            assert_eq!(section.light[k], ramp(i, 2, k));
            assert_eq!(section.biomes[k], ramp(i, 5, k));
            assert_eq!(half_byte_array_get(section.metadata, 2 * k), Ok(ramp(i, 1, k) & 0x0f));
            assert_eq!(half_byte_array_get(section.metadata, 2 * k + 1), Ok(ramp(i, 1, k) >> 4));
            assert_eq!(half_byte_array_get(section.biomes, 2 * k + 1), Ok(ramp(i, 5, k) >> 4));
            if let Some(sky) = section.sky_light {
                assert_eq!(sky[k], ramp(i, 3, k));
            }
            if let Some(more) = section.add {
                assert_eq!(more[k], ramp(i, 4, k));
            }
        }
    }
}

#[test]
fn flat_column_ramp() {
    let bitmask = 0b1011001110110011u16;
    let add = 0b1001001010010010u16;
    let sky_light = 0b0010000100100001u16;
    let mut data = ramp_column(bitmask, add, sky_light);
    assert_eq!(data.len(), 10 * 10240 + 6 * 2048 + 4 * 2048);
    data.extend_from_slice(&[0xaa, 0xbb, 0xcc]);

    let mut cursor = Cursor::new(&data);
    let mut column = ChunkColumn0::from_reader(&mut cursor, bitmask, add, sky_light).unwrap();
    assert_eq!(cursor.position(), 122880);
    assert_eq!(cursor.remaining_len(), 3);
    assert_eq!(column.size(), 122880);
    check_ramp_column(&column, bitmask, add, sky_light);

    let tail = column.reallocate::<1024>();
    assert_eq!(tail.len(), 1024);
    assert!(tail.iter().all(|b| *b == 0));
    tail[0] = 0x55;
    tail[1023] = 0x66;
    assert_eq!(column.size(), 122880 + 1024);
    check_ramp_column(&column, bitmask, add, sky_light);

    let mut out = vec![9u8];
    column.encode(&mut out);
    assert_eq!(out.len(), 1 + 122880);
    assert_eq!(out[0], 9);
    assert_eq!(&out[1..], &data[..122880]);
}

#[test]
fn flat_column_short_input() {
    let bitmask = 0b0000000000000101u16;
    let add = 0b0000000000000100u16;
    let sky_light = 0b0000000000000001u16;
    let data = ramp_column(bitmask, add, sky_light);
    assert_eq!(data.len(), 2 * 12288);
    for cut in [0usize, 1, 4095, 12287, 12288, 2 * 12288 - 1] {
        let mut cursor = Cursor::new(&data[..cut]);
        let r = ChunkColumn0::from_reader(&mut cursor, bitmask, add, sky_light);
        assert!(matches!(r, Err(Error::DecodeShort)));
        assert_eq!(cursor.position(), 0);
    }
    let mut cursor = Cursor::new(&data);
    cursor.take(5).unwrap();
    let r = ChunkColumn0::from_reader(&mut cursor, bitmask, add, sky_light);
    assert!(matches!(r, Err(Error::DecodeShort)));
    assert_eq!(cursor.position(), 5);
    let mut cursor = Cursor::new(&data);
    assert!(ChunkColumn0::from_reader(&mut cursor, bitmask, add, sky_light).is_ok());
    assert_eq!(cursor.position(), 2 * 12288);
}

#[test]
fn flat_column_masks_of_absent_sections_are_ignored() {
    // add and sky light bits of slots without a section stand for nothing
    let data = ramp_column(0b10, 0, 0);
    assert_eq!(data.len(), 10240);
    let mut cursor = Cursor::new(&data);
    let column = ChunkColumn0::from_reader(&mut cursor, 0b10, 0b1101, 0b0101).unwrap();
    assert_eq!(column.size(), 10240);
    assert!(column.section(0).is_none());
    let section = column.section(1).unwrap();
    assert!(section.add.is_none());
    assert!(section.sky_light.is_none());
    assert_eq!(section.biomes[7], ramp(1, 5, 7));
}

#[test]
fn flat_column_new_is_empty() {
    let mut column = ChunkColumn0::new();
    assert_eq!(column.size(), 0);
    for i in 0..16 {
        assert!(column.section(i).is_none());
        assert!(column.section_mut(i).is_none());
    }
    let mut out = Vec::new();
    column.encode(&mut out);
    assert!(out.is_empty());
    let tail = column.reallocate::<8>();
    assert_eq!(tail, &[0u8; 8]);
    assert_eq!(column.size(), 8);
    let mut cursor = Cursor::new(&[]);
    let empty = ChunkColumn0::from_reader(&mut cursor, 0, 0xffff, 0xffff).unwrap();
    assert_eq!(empty.size(), 0);
}

#[test]
fn flat_section_mut_writes_through() {
    let bitmask = 0b1000000000001001u16;
    let add = 0b1000000000000000u16;
    let sky_light = 0b0000000000001000u16;
    let data = ramp_column(bitmask, add, sky_light);
    let mut column =
        ChunkColumn0::from_reader(&mut Cursor::new(&data), bitmask, add, sky_light).unwrap();
    assert!(column.section_mut(1).is_none());
    {
        let section = column.section_mut(3).unwrap();
        assert!(section.add.is_none());
        section.blocks[0] = 200;
        section.blocks[4095] = 201;
        byte_array_set(section.blocks, 17, 99).unwrap();
        half_byte_array_set(section.metadata, 0, 0x0a).unwrap();
        half_byte_array_set(section.metadata, 1, 0x0b).unwrap();
        half_byte_array_set(section.biomes, 4095, 0xfc).unwrap();
        let sky = section.sky_light.unwrap();
        sky[2047] = 77;
    }
    let mut expected = data.clone();
    let base = 10240;
    expected[base] = 200;
    expected[base + 4095] = 201;
    expected[base + 17] = 99;
    expected[base + 4096] = 0xba;
    let last_biome = base + 12288 - 1;
    expected[last_biome] = (expected[last_biome] & 0x0f) | 0xc0;
    expected[base + 8192 + 2047] = 77;
    let mut out = Vec::new();
    column.encode(&mut out);
    assert_eq!(out, expected);
    let section = column.section(3).unwrap();
    assert_eq!(half_byte_array_get(section.metadata, 0), Ok(0x0a));
    assert_eq!(half_byte_array_get(section.metadata, 1), Ok(0x0b));
    assert_eq!(half_byte_array_get(section.biomes, 4095), Ok(0x0c));
    // the sections around it are as they were
    let first = column.section(0).unwrap();
    assert_eq!(first.biomes[2047], ramp(0, 5, 2047));
    let last = column.section(15).unwrap();
    assert_eq!(last.blocks[0], 0);
    assert_eq!(last.add.unwrap()[5], ramp(15, 4, 5));
}

#[test]
fn flat_section_decode_and_encode() {
    let data = ramp_column(1, 1, 1);
    assert_eq!(data.len(), 14336);
    let mut cursor = Cursor::new(&data);
    let section = ChunkSection0Decode::from_reader(&mut cursor, true, true).unwrap();
    assert_eq!(cursor.position(), 14336);
    assert_eq!(section.blocks, &data[..4096]);
    assert_eq!(section.metadata, &data[4096..6144]);
    assert_eq!(section.light, &data[6144..8192]);
    assert_eq!(section.sky_light.unwrap(), &data[8192..10240]);
    assert_eq!(section.add.unwrap(), &data[10240..12288]);
    assert_eq!(section.biomes, &data[12288..]);
    let mut out = Vec::new();
    section.encode(&mut out);
    assert_eq!(out, data);

    // without the optional arrays the same bytes are read as a shorter section
    let mut cursor = Cursor::new(&data);
    let section = ChunkSection0Decode::from_reader(&mut cursor, false, false).unwrap();
    assert_eq!(cursor.position(), 10240);
    assert!(section.sky_light.is_none());
    assert!(section.add.is_none());
    assert_eq!(section.biomes, &data[8192..10240]);
    let mut cursor = Cursor::new(&data);
    let section = ChunkSection0Decode::from_reader(&mut cursor, false, true).unwrap();
    assert_eq!(cursor.position(), 12288);
    assert!(section.sky_light.is_none());
    assert_eq!(section.add.unwrap(), &data[8192..10240]);

    let mut cursor = Cursor::new(&data[..14335]);
    assert!(matches!(
        ChunkSection0Decode::from_reader(&mut cursor, true, true),
        Err(Error::DecodeShort)
    ));
    assert_eq!(cursor.position(), 0);
}

#[test]
fn half_byte_arrays() {
    let mut bytes = [0x21u8, 0x43, 0xff];
    assert_eq!(half_byte_array_get(&bytes, 0), Ok(1));
    assert_eq!(half_byte_array_get(&bytes, 1), Ok(2));
    assert_eq!(half_byte_array_get(&bytes, 2), Ok(3));
    assert_eq!(half_byte_array_get(&bytes, 3), Ok(4));
    assert_eq!(half_byte_array_get(&bytes, 5), Ok(15));
    assert_eq!(half_byte_array_get(&bytes, 6), Err(Error::OutOfBounds));
    assert_eq!(half_byte_array_set(&mut bytes, 6, 1), Err(Error::OutOfBounds));
    assert_eq!(bytes, [0x21, 0x43, 0xff]);
    assert_eq!(half_byte_array_set(&mut bytes, 4, 0), Ok(()));
    assert_eq!(bytes, [0x21, 0x43, 0xf0]);
    assert_eq!(half_byte_array_set(&mut bytes, 1, 0x7e), Ok(()));
    assert_eq!(bytes, [0xe1, 0x43, 0xf0]);
    assert_eq!(byte_array_get(&bytes, 2), Ok(0xf0));
    assert_eq!(byte_array_get(&bytes, 3), Err(Error::OutOfBounds));
    assert_eq!(byte_array_set(&mut bytes, 3, 1), Err(Error::OutOfBounds));
    assert_eq!(byte_array_set(&mut bytes, 0, 1), Ok(()));
    assert_eq!(bytes, [0x01, 0x43, 0xf0]);
}

#[test]
fn cursor_reads() {
    let data = [0x12u8, 0x34, 0x56];
    let mut cursor = Cursor::new(&data);
    assert_eq!(cursor.read_u16(), Ok(0x1234));
    assert_eq!(cursor.position(), 2);
    assert_eq!(cursor.read_u16(), Err(Error::DecodeShort));
    assert_eq!(cursor.position(), 2);
    assert_eq!(cursor.take(2), Err(Error::DecodeShort));
    assert_eq!(cursor.take(1), Ok(&data[2..]));
    assert_eq!(cursor.remaining_len(), 0);
    assert_eq!(cursor.take(0), Ok(&data[3..]));
    assert_eq!(cursor.set_position(4), Err(Error::DecodeShort));
    assert_eq!(cursor.position(), 3);
    assert_eq!(cursor.set_position(1), Ok(()));
    assert_eq!(cursor.read_u16(), Ok(0x3456));
}

#[test]
fn section_round_trip() {
    let section = ChunkSection { block_count: 0x0102u16, states: 0xa0b0u16, biomes: 7u16 };
    let mut out = vec![0xee];
    section.encode(&mut out);
    assert_eq!(out, vec![0xee, 0x01, 0x02, 0xa0, 0xb0, 0x00, 0x07]);
    out.push(0xdd);
    let mut cursor = Cursor::new(&out);
    cursor.take(1).unwrap();
    let back = ChunkSection::<u16, u16>::decode(&mut cursor).unwrap();
    assert_eq!(back.block_count, 0x0102);
    assert_eq!(back.states, 0xa0b0);
    assert_eq!(back.biomes, 7);
    assert_eq!(cursor.position(), 7);
    assert_eq!(cursor.remaining_len(), 1);
    for cut in 1..7 {
        let mut cursor = Cursor::new(&out[..cut]);
        cursor.take(1).unwrap();
        assert!(matches!(
            ChunkSection::<u16, u16>::decode(&mut cursor),
            Err(Error::DecodeShort)
        ));
        assert_eq!(cursor.position(), 1);
    }
}

#[test]
fn section_of_sections_round_trip() {
    let inner = ChunkSection { block_count: 1u16, states: 2u16, biomes: 3u16 };
    let outer = ChunkSection { block_count: 4096u16, states: inner, biomes: 65535u16 };
    let mut out = Vec::new();
    outer.encode(&mut out);
    assert_eq!(out, vec![0x10, 0x00, 0, 1, 0, 2, 0, 3, 0xff, 0xff]);
    let mut cursor = Cursor::new(&out);
    let back = ChunkSection::<ChunkSection<u16, u16>, u16>::decode(&mut cursor).unwrap();
    assert_eq!(back.block_count, 4096);
    assert_eq!(back.states.block_count, 1);
    assert_eq!(back.states.states, 2);
    assert_eq!(back.states.biomes, 3);
    assert_eq!(back.biomes, 65535);
}

#[test]
fn paletted_column_holds_sections() {
    let column: ChunkColumn<3, ChunkSection<u16, u16>> = ChunkColumn {
        sections: [None, Some(ChunkSection { block_count: 5, states: 1, biomes: 2 }), None],
    };
    assert!(column.sections[0].is_none());
    assert_eq!(column.sections[1].as_ref().unwrap().block_count, 5);
    assert!(column.sections[2].is_none());
}

#[test]
fn flat_section_over_bytes() {
    let mut bytes = ramp_column(1, 0, 1);
    assert_eq!(bytes.len(), 12288);
    {
        let section = ChunkSection0::over(&mut bytes, true, false);
        assert_eq!(section.blocks.len(), 4096);
        assert_eq!(section.metadata.len(), 2048);
        assert_eq!(section.light.len(), 2048);
        assert_eq!(section.biomes.len(), 2048);
        assert!(section.add.is_none());
        assert_eq!(section.blocks[300], 44);
        assert_eq!(section.biomes[1], ramp(0, 5, 1));
        let sky = section.sky_light.unwrap();
        assert_eq!(sky[0], ramp(0, 3, 0));
        section.light[0] = 0xab;
        sky[1] = 0xcd;
        section.biomes[2047] = 0xef;
    }
    assert_eq!(bytes[6144], 0xab);
    assert_eq!(bytes[8193], 0xcd);
    assert_eq!(bytes[12287], 0xef);
    assert_eq!(bytes[6145], ramp(0, 2, 1));
}
