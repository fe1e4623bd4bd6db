use cell_codec::{
    decode_header, decode_header_with, encode_header, encode_header_with, DecodeError,
    FieldOffsets, Header, HeaderLayout, HEADER_SIZE,
};

fn sample() -> Header {
    Header {
        version: 1,
        operation: 2,
        message_id: 0x0304,
        grid_dimension: 512,
        payload_length: 0x0A0B0C0D,
        checksum: 0xBEEF,
    }
}

#[test]
fn new_header_is_all_zero() {
    let header = Header::new();
    assert_eq!(header.version, 0);
    assert_eq!(header.operation, 0);
    assert_eq!(header.message_id, 0);
    assert_eq!(header.grid_dimension, 0);
    assert_eq!(header.payload_length, 0);
    assert_eq!(header.checksum, 0);
    assert_eq!(encode_header(&header), vec![0u8; 12]);
}

#[test]
fn header_is_twelve_big_endian_bytes() {
    assert_eq!(HEADER_SIZE, 12);
    assert_eq!(
        encode_header(&sample()),
        vec![0x01, 0x02, 0x03, 0x04, 0x02, 0x00, 0x0A, 0x0B, 0x0C, 0x0D, 0xBE, 0xEF]
    );
}

#[test]
fn header_reads_back() {
    let block = encode_header(&sample());
    assert_eq!(decode_header(&block), Ok(sample()));
}

#[test]
fn header_of_extreme_values_reads_back() {
    let header = Header {
        version: 255,
        operation: 255,
        message_id: 65535,
        grid_dimension: 65535,
        payload_length: u32::MAX,
        checksum: 65535,
    };
    let block = encode_header(&header);
    assert_eq!(block, vec![0xFF; 12]);
    assert_eq!(decode_header(&block), Ok(header));
}

#[test]
fn short_header_is_a_short_read() {
    let block = encode_header(&sample());
    for len in 0..HEADER_SIZE {
        assert_eq!(decode_header(&block[..len]), Err(DecodeError::ShortRead));
    }
}

#[test]
fn bytes_after_the_header_are_ignored() {
    let mut bytes = encode_header(&sample());
    bytes.extend_from_slice(&[0xAA, 0xBB, 0xCC]);
    assert_eq!(decode_header(&bytes), Ok(sample()));
}

#[test]
fn checksum_is_not_verified() {
    let mut block = encode_header(&sample());
    block[10] = 0x00;
    block[11] = 0x01;
    let header = decode_header(&block).unwrap();
    assert_eq!(header.checksum, 1);
    assert_eq!(header.payload_length, 0x0A0B0C0D);
}

fn canonical() -> FieldOffsets {
    HeaderLayout::canonical().offsets()
}

#[test]
fn canonical_layout_is_the_default_block() {
    let offsets = canonical();
    assert!(offsets.is_valid());
    assert_eq!(
        offsets,
        FieldOffsets {
            version: 0,
            operation: 1,
            message_id: 2,
            grid_dimension: 4,
            payload_length: 6,
            checksum: 10,
            size: HEADER_SIZE,
        }
    );
    let layout = HeaderLayout::new(offsets).unwrap();
    assert_eq!(encode_header_with(&sample(), &layout), encode_header(&sample()));
    assert_eq!(
        decode_header_with(&encode_header(&sample()), &layout),
        decode_header(&encode_header(&sample()))
    );
}

#[test]
fn another_layout_moves_the_fields() {
    let offsets = FieldOffsets {
        version: 15,
        operation: 0,
        message_id: 10,
        grid_dimension: 1,
        payload_length: 4,
        checksum: 12,
        size: 16,
    };
    assert!(offsets.is_valid());
    let layout = HeaderLayout::new(offsets).unwrap();
    assert_eq!(layout.offsets(), offsets);
    let block = encode_header_with(&sample(), &layout);
    assert_eq!(
        block,
        vec![
            0x02, 0x02, 0x00, 0x00, 0x0A, 0x0B, 0x0C, 0x0D, 0x00, 0x00, 0x03, 0x04, 0xBE, 0xEF,
            0x00, 0x01
        ]
    );
    assert_eq!(decode_header_with(&block, &layout), Ok(sample()));
    assert_eq!(decode_header_with(&block[..15], &layout), Err(DecodeError::ShortRead));
}

#[test]
fn layout_with_room_to_spare_ignores_it() {
    let layout = HeaderLayout::new(FieldOffsets { size: 14, ..canonical() }).unwrap();
    let mut block = encode_header_with(&sample(), &layout);
    assert_eq!(block.len(), 14);
    assert_eq!(&block[..12], &encode_header(&sample())[..]);
    assert_eq!(&block[12..], &[0, 0]);
    block[12] = 0xFF;
    block[13] = 0xFF;
    assert_eq!(decode_header_with(&block, &layout), Ok(sample()));
}

#[test]
fn offsets_that_clash_or_lie_outside_make_no_layout() {
    let bad = [
        FieldOffsets { operation: 0, ..canonical() },
        FieldOffsets { grid_dimension: 3, ..canonical() },
        FieldOffsets { checksum: 9, ..canonical() },
        FieldOffsets { checksum: 11, ..canonical() },
        FieldOffsets { size: 11, ..canonical() },
        FieldOffsets { size: 0, ..canonical() },
        FieldOffsets { size: usize::MAX, ..canonical() },
        FieldOffsets { version: usize::MAX, ..canonical() },
        FieldOffsets { payload_length: usize::MAX - 2, ..canonical() },
    ];
    for offsets in bad {
        assert!(!offsets.is_valid());
        assert!(HeaderLayout::new(offsets).is_none());
    }
    let good = [
        FieldOffsets { size: 64, ..canonical() },
        FieldOffsets { checksum: 62, size: 64, ..canonical() },
        FieldOffsets { version: 1, operation: 0, ..canonical() },
    ];
    for offsets in good {
        assert!(offsets.is_valid());
        assert!(HeaderLayout::new(offsets).is_some());
    }
}
