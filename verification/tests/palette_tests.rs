use chunk_sync::palette::PalettedContainer;
use chunk_sync::palette::Strategy;
use chunk_sync::buffer::WriteBuffer;
use chunk_sync::CoreError;

#[test]
fn new_container_is_single_and_uniform() {
    let c = PalettedContainer::new(16, 1, 2, 6, 0);
    assert_eq!(c.strategy(), Strategy::Single);
    assert_eq!(c.volume(), 16);
    for i in 0..16 {
        assert_eq!(c.get(i), Ok(0));
    }
}

#[test]
fn set_then_get_returns_written_value() {
    let mut c = PalettedContainer::new(16, 1, 2, 6, 0);
    assert_eq!(c.set(3, 5), Ok(()));
    assert_eq!(c.get(3), Ok(5));
    for i in 0..16 {
        if i != 3 {
            assert_eq!(c.get(i), Ok(0));
        }
    }
}

#[test]
fn round_trip_survives_every_promotion() {
    // min 1 bit, threshold 2 bits, direct 6 bits: the palette can hold at
    // most 4 distinct values before the container must go direct.
    let mut c = PalettedContainer::new(16, 1, 2, 6, 0);
    assert_eq!(c.strategy(), Strategy::Single);

    // second distinct value: single -> indirect at 1 bit
    assert_eq!(c.set(0, 5), Ok(()));
    assert_eq!(c.strategy(), Strategy::Indirect);
    assert_eq!(c.get(0), Ok(5));
    assert_eq!(c.get(1), Ok(0));

    // third distinct value: palette grows, width doubles
    assert_eq!(c.set(1, 6), Ok(()));
    assert_eq!(c.strategy(), Strategy::Indirect);
    // fourth distinct value still fits 2 bits
    assert_eq!(c.set(2, 7), Ok(()));
    assert_eq!(c.strategy(), Strategy::Indirect);

    // fifth distinct value exceeds the threshold: promote to direct
    assert_eq!(c.set(3, 8), Ok(()));
    assert_eq!(c.strategy(), Strategy::Direct);

    // every entry still reads the value last written to it
    assert_eq!(c.get(0), Ok(5));
    assert_eq!(c.get(1), Ok(6));
    assert_eq!(c.get(2), Ok(7));
    assert_eq!(c.get(3), Ok(8));
    for i in 4..16 {
        assert_eq!(c.get(i), Ok(0));
    }
}

#[test]
fn rewriting_same_values_never_demotes_or_overprovisions() {
    let mut c = PalettedContainer::new(16, 1, 2, 6, 0);
    assert_eq!(c.set(0, 1), Ok(()));
    assert_eq!(c.set(0, 0), Ok(()));
    // both values were observed before; the strategy stays indirect and
    // never reaches direct through small-palette writes
    assert_eq!(c.strategy(), Strategy::Indirect);
    for _ in 0..10 {
        assert_eq!(c.set(0, 1), Ok(()));
        assert_eq!(c.set(0, 0), Ok(()));
    }
    assert_eq!(c.strategy(), Strategy::Indirect);
    assert_eq!(c.get(0), Ok(0));
}

#[test]
fn get_out_of_range_fails() {
    let c = PalettedContainer::new(16, 1, 2, 6, 0);
    assert_eq!(c.get(16), Err(CoreError::OutOfRange));
    assert_eq!(c.get(1000), Err(CoreError::OutOfRange));
}

#[test]
fn set_out_of_range_fails_and_changes_nothing() {
    let mut c = PalettedContainer::new(16, 1, 2, 6, 0);
    assert_eq!(c.set(16, 1), Err(CoreError::OutOfRange));
    assert_eq!(c.strategy(), Strategy::Single);
    for i in 0..16 {
        assert_eq!(c.get(i), Ok(0));
    }
}

#[test]
fn set_registry_overflow_fails_and_changes_nothing() {
    let mut c = PalettedContainer::new(16, 1, 2, 6, 0);
    // 64 does not fit the 6-bit direct width
    assert_eq!(c.set(0, 64), Err(CoreError::RegistryOverflow));
    assert_eq!(c.strategy(), Strategy::Single);
    assert_eq!(c.get(0), Ok(0));
    // the range check comes first
    assert_eq!(c.set(99, 64), Err(CoreError::OutOfRange));
}

#[test]
fn values_lists_entries_in_index_order() {
    let mut c = PalettedContainer::new(8, 1, 2, 6, 2);
    c.set(1, 9).unwrap();
    c.set(6, 4).unwrap();
    assert_eq!(c.values(), vec![2, 9, 2, 2, 2, 2, 4, 2]);
}

#[test]
fn serialize_single_value() {
    let c = PalettedContainer::new(4, 1, 2, 6, 9);
    let mut buf = WriteBuffer::new();
    c.serialize_for_wire(&mut buf);
    // tag 0, then the scalar little-endian
    assert_eq!(buf.get_written(), &vec![0u8, 9, 0]);
}

#[test]
fn serialize_indirect_layout() {
    let mut c = PalettedContainer::new(4, 1, 2, 6, 1);
    c.set(2, 3).unwrap();
    let mut buf = WriteBuffer::new();
    c.serialize_for_wire(&mut buf);
    // tag 1, width 1, palette length 2, palette [1, 3], one packed word
    // with index 1 at entry 2 (bit 2)
    let expected: Vec<u8> = vec![
        1, 1, // tag, bits
        2, 0, // palette length
        1, 0, 3, 0, // palette entries
        4, 0, 0, 0, 0, 0, 0, 0, // packed word
    ];
    assert_eq!(buf.get_written(), &expected);
}

#[test]
fn serialize_direct_layout() {
    let mut c = PalettedContainer::new(4, 1, 1, 3, 0);
    // three distinct values exceed a 1-bit threshold palette: direct
    c.set(0, 1).unwrap();
    c.set(1, 2).unwrap();
    assert_eq!(c.strategy(), Strategy::Direct);
    let mut buf = WriteBuffer::new();
    c.serialize_for_wire(&mut buf);
    let written = buf.get_written();
    // tag 2, width 3, then one packed word: 1 at entry 0, 2 at entry 1
    assert_eq!(written[0], 2);
    assert_eq!(written[1], 3);
    let word = u64::from_le_bytes(written[2..10].try_into().unwrap());
    assert_eq!(word & 0b111, 1);
    assert_eq!((word >> 3) & 0b111, 2);
}

#[test]
fn buffer_writes_little_endian() {
    let mut buf = WriteBuffer::new();
    buf.write_u16_le(0x1234);
    buf.write_u32_le(0xA1B2C3D4);
    buf.write_i32_le(-2);
    buf.write_u64_le(0x0102030405060708);
    let expected: Vec<u8> = vec![
        0x34, 0x12, //
        0xD4, 0xC3, 0xB2, 0xA1, //
        0xFE, 0xFF, 0xFF, 0xFF, //
        0x08, 0x07, 0x06, 0x05, 0x04, 0x03, 0x02, 0x01,
    ];
    assert_eq!(buf.get_written(), &expected);
    assert_eq!(buf.len(), expected.len());
}

#[test]
fn entries_pairs_indices_with_values_and_restarts() {
    let mut c = PalettedContainer::new(4, 1, 2, 6, 1);
    c.set(2, 3).unwrap();
    let first = c.entries();
    assert_eq!(first, vec![(0, 1), (1, 1), (2, 3), (3, 1)]);
    // re-invocable without mutating the container
    assert_eq!(c.entries(), first);
    assert_eq!(c.get(2), Ok(3));
}
