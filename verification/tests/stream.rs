use cell_codec::{BitStreamReader, BitStreamWriter, DecodeError};

#[test]
fn writer_packs_across_byte_boundaries() {
    let mut writer = BitStreamWriter::new();
    assert_eq!(writer.write(0b101, 3), Ok(()));
    assert_eq!(writer.write(0x1FF, 9), Ok(()));
    assert_eq!(writer.flush(), vec![0xBF, 0xF0]);
}

#[test]
fn writer_without_writes_gives_no_bytes() {
    let writer = BitStreamWriter::new();
    assert_eq!(writer.flush(), Vec::<u8>::new());
}

#[test]
fn writer_emits_whole_bytes_without_padding() {
    let mut writer = BitStreamWriter::new();
    assert_eq!(writer.write(0xAB, 8), Ok(()));
    assert_eq!(writer.write(0xCDEF, 16), Ok(()));
    assert_eq!(writer.flush(), vec![0xAB, 0xCD, 0xEF]);
}

#[test]
fn writer_keeps_only_the_low_bits() {
    let mut writer = BitStreamWriter::new();
    assert_eq!(writer.write(0xFFFF_FF05, 4), Ok(()));
    assert_eq!(writer.flush(), vec![0x50]);
}

#[test]
fn writer_takes_24_bits_behind_7_pending() {
    let mut writer = BitStreamWriter::new();
    assert_eq!(writer.write(0x7F, 7), Ok(()));
    assert_eq!(writer.write(0xABCDEF, 24), Ok(()));
    assert_eq!(writer.flush(), vec![0xFF, 0x57, 0x9B, 0xDE]);
}

#[test]
fn writer_refuses_width_zero_and_more_than_24() {
    let mut writer = BitStreamWriter::new();
    assert_eq!(writer.write(1, 0), Err(DecodeError::InvalidWidth));
    assert_eq!(writer.write(1, 25), Err(DecodeError::InvalidWidth));
    assert_eq!(writer.write(1, 32), Err(DecodeError::InvalidWidth));
    assert_eq!(writer.write(1, u32::MAX), Err(DecodeError::InvalidWidth));
    assert_eq!(writer.write(1, 1), Ok(()));
    assert_eq!(writer.flush(), vec![0x80]);
}

#[test]
fn reader_unpacks_across_byte_boundaries() {
    let data = [0xBF, 0xF0];
    let mut reader = BitStreamReader::new(&data);
    assert_eq!(reader.read(3), Ok(Some(0b101)));
    assert_eq!(reader.read(9), Ok(Some(0x1FF)));
    assert_eq!(reader.read(4), Ok(Some(0)));
    assert_eq!(reader.read(1), Ok(None));
}

#[test]
fn reader_stops_when_too_few_bits_are_left() {
    let data = [0xFF, 0xFF];
    let mut reader = BitStreamReader::new(&data);
    assert_eq!(reader.read(18), Ok(None));
    assert_eq!(reader.read(16), Ok(Some(0xFFFF)));
    assert_eq!(reader.read(1), Ok(None));
}

#[test]
fn reader_keeps_the_bits_of_a_read_that_came_too_late() {
    let data = [0xA5, 0x3C, 0x7E];
    let mut reader = BitStreamReader::new(&data);
    assert_eq!(reader.read(20), Ok(Some(0xA53C7)));
    assert_eq!(reader.read(5), Ok(None));
    assert_eq!(reader.read(4), Ok(Some(0xE)));
    assert_eq!(reader.read(1), Ok(None));
}

#[test]
fn reader_of_nothing_has_nothing() {
    let data: [u8; 0] = [];
    let mut reader = BitStreamReader::new(&data);
    assert_eq!(reader.read(1), Ok(None));
    assert_eq!(reader.read(24), Ok(None));
}

#[test]
fn reader_reads_24_bit_values() {
    let data = [0xAB, 0xCD, 0xEF, 0x01, 0x23, 0x45, 0x67];
    let mut reader = BitStreamReader::new(&data);
    assert_eq!(reader.read(24), Ok(Some(0xABCDEF)));
    assert_eq!(reader.read(24), Ok(Some(0x012345)));
    assert_eq!(reader.read(24), Ok(None));
    assert_eq!(reader.read(8), Ok(Some(0x67)));
}

#[test]
fn reader_refuses_width_zero_and_more_than_24() {
    let data = [0xFF, 0xFF, 0xFF, 0xFF];
    let mut reader = BitStreamReader::new(&data);
    assert_eq!(reader.read(0), Err(DecodeError::InvalidWidth));
    assert_eq!(reader.read(25), Err(DecodeError::InvalidWidth));
    assert_eq!(reader.read(24), Ok(Some(0xFFFFFF)));
}

#[test]
fn what_is_written_is_read_back() {
    let values: [(u32, u32); 6] = [(1, 1), (0, 2), (5, 3), (1000, 10), (0xFFFFFF, 24), (77, 7)];
    let mut writer = BitStreamWriter::new();
    for (value, width) in values {
        assert_eq!(writer.write(value, width), Ok(()));
    }
    let bytes = writer.flush();
    assert_eq!(bytes.len(), 6);
    let mut reader = BitStreamReader::new(&bytes);
    for (value, width) in values {
        assert_eq!(reader.read(width), Ok(Some(value)));
    }
    assert_eq!(reader.read(2), Ok(None));
}
