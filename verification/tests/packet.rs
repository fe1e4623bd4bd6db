use cell_codec::{encode_header, frame_size, CoordinateSet, DecodeError, Header, Packet};

fn header(grid_dimension: u16, payload_length: u32) -> Header {
    Header { version: 1, operation: 0, message_id: 7, grid_dimension, payload_length, checksum: 0 }
}

fn frame(grid_dimension: u16, payload_length: u32, payload: &[u8]) -> Vec<u8> {
    let mut bytes = encode_header(&header(grid_dimension, payload_length));
    bytes.extend_from_slice(payload);
    bytes
}

#[test]
fn width_and_offset_follow_the_grid() {
    let mut packet = Packet { header: header(512, 0) };
    assert_eq!(packet.calc_coord_len_and_offset(), Ok((18, 14)));
    assert_eq!(packet.header, header(512, 0));
    let mut packet = Packet { header: header(1023, 0) };
    assert_eq!(packet.calc_coord_len_and_offset(), Ok((18, 14)));
    let mut packet = Packet { header: header(2, 0) };
    assert_eq!(packet.calc_coord_len_and_offset(), Ok((2, 30)));
    let mut packet = Packet { header: header(4096, 0) };
    assert_eq!(packet.calc_coord_len_and_offset(), Ok((24, 8)));
    let mut packet = Packet { header: header(8191, 0) };
    assert_eq!(packet.calc_coord_len_and_offset(), Ok((24, 8)));
}

#[test]
fn grid_without_a_valid_width_has_no_width_and_offset() {
    for side in [0u16, 1, 8192, 8193, 32768, 65535] {
        let mut packet = Packet { header: header(side, 0) };
        assert_eq!(packet.calc_coord_len_and_offset(), Err(DecodeError::InvalidWidth));
        assert_eq!(packet.header, header(side, 0));
    }
}

#[test]
fn packet_reads_its_header() {
    let mut packet = Packet { header: Header::new() };
    let bytes = encode_header(&header(512, 3));
    assert_eq!(packet.decode_header(&bytes), Ok(()));
    assert_eq!(packet.header, header(512, 3));
}

#[test]
fn packet_keeps_its_header_on_a_short_read() {
    let mut packet = Packet { header: header(512, 3) };
    assert_eq!(packet.decode_header(&[1, 2, 3]), Err(DecodeError::ShortRead));
    assert_eq!(packet.header, header(512, 3));
}

#[test]
fn packet_payload_round_trip() {
    let mut packet = Packet { header: header(512, 0) };
    let (width, _) = packet.calc_coord_len_and_offset().unwrap();
    let cells = CoordinateSet::from_values(&[262143, 0, 174762]);
    let payload = packet.encode_payload(cells, width as usize).unwrap();
    assert_eq!(payload, vec![0xFF, 0xFF, 0xC0, 0x00, 0x0A, 0xAA, 0xA8]);
    let decoded = packet.decode_payload(&payload, width).unwrap();
    assert_eq!(decoded.to_vec(), vec![262143, 0, 174762]);
}

#[test]
fn packet_refuses_invalid_widths() {
    let packet = Packet { header: Header::new() };
    assert_eq!(
        packet.encode_payload(CoordinateSet::new(), 0),
        Err(DecodeError::InvalidWidth)
    );
    assert_eq!(
        packet.encode_payload(CoordinateSet::new(), 25),
        Err(DecodeError::InvalidWidth)
    );
    assert_eq!(
        packet.encode_payload(CoordinateSet::new(), usize::MAX),
        Err(DecodeError::InvalidWidth)
    );
    assert_eq!(packet.decode_payload(&[0], 0).err(), Some(DecodeError::InvalidWidth));
    assert_eq!(packet.decode_payload(&[0], 30).err(), Some(DecodeError::InvalidWidth));
}

#[test]
fn frame_decodes_to_its_cells() {
    let mut packet = Packet { header: Header::new() };
    let bytes = frame(512, 3, &[0xFF, 0xFF, 0xC0]);
    let cells = packet.decode(&bytes).unwrap();
    assert_eq!(cells.to_vec(), vec![262143]);
    assert_eq!(packet.header, header(512, 3));
}

#[test]
fn empty_frame_is_the_end_of_the_stream() {
    let mut packet = Packet { header: header(512, 3) };
    let cells = packet.decode(&[]).unwrap();
    assert_eq!(cells.len(), 0);
    assert_eq!(packet.header, header(512, 3));
}

#[test]
fn frame_shorter_than_a_header_is_a_short_read() {
    let bytes = frame(512, 0, &[]);
    for len in 1..bytes.len() {
        let mut packet = Packet { header: Header::new() };
        assert_eq!(packet.decode(&bytes[..len]).err(), Some(DecodeError::ShortRead));
        assert_eq!(packet.header, Header::new());
    }
}

#[test]
fn frame_with_less_payload_than_declared_is_a_short_read() {
    let mut packet = Packet { header: Header::new() };
    let bytes = frame(512, 4, &[0xFF, 0xFF, 0xC0]);
    assert_eq!(packet.decode(&bytes).err(), Some(DecodeError::ShortRead));
    assert_eq!(packet.header, header(512, 4));
}

#[test]
fn frame_for_an_unusable_grid_is_refused() {
    for side in [0u16, 1, 8192, 65535] {
        let mut packet = Packet { header: Header::new() };
        let bytes = frame(side, 0, &[]);
        assert_eq!(packet.decode(&bytes).err(), Some(DecodeError::InvalidWidth));
        assert_eq!(packet.header, header(side, 0));
    }
}

#[test]
fn frame_without_payload_is_the_empty_set() {
    let mut packet = Packet { header: Header::new() };
    let bytes = frame(512, 0, &[]);
    assert_eq!(packet.decode(&bytes).unwrap().len(), 0);
}

#[test]
fn bytes_after_the_declared_payload_are_ignored() {
    let mut packet = Packet { header: Header::new() };
    let bytes = frame(16, 2, &[0x12, 0x34, 0x56, 0x78]);
    assert_eq!(packet.decode(&bytes).unwrap().to_vec(), vec![0x12, 0x34]);
}

#[test]
fn frame_size_grows_once_the_header_is_in() {
    let bytes = frame(512, 300, &[]);
    for len in 0..bytes.len() {
        assert_eq!(frame_size(&bytes[..len]), 12);
    }
    assert_eq!(frame_size(&bytes), 312);
    assert_eq!(frame_size(&frame(512, 0, &[1, 2, 3])), 12);
    assert_eq!(frame_size(&frame(512, 3, &[1, 2, 3, 4, 5])), 15);
}

#[test]
fn frame_size_of_the_longest_payload() {
    let bytes = frame(512, u32::MAX, &[]);
    let whole = 12u64 + u32::MAX as u64;
    let expected = if whole > usize::MAX as u64 { usize::MAX } else { whole as usize };
    assert_eq!(frame_size(&bytes), expected);
}

#[test]
fn frame_is_whole_at_its_frame_size() {
    let bytes = frame(512, 3, &[0xFF, 0xFF, 0xC0, 0x55]);
    let size = frame_size(&bytes);
    assert_eq!(size, 15);
    let mut packet = Packet { header: Header::new() };
    assert_eq!(packet.decode(&bytes[..size]).unwrap().to_vec(), vec![262143]);
    assert_eq!(packet.decode(&bytes[..size - 1]).err(), Some(DecodeError::ShortRead));
}
