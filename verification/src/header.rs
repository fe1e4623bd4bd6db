//! The header of a frame: a fixed-size block of big-endian fields.
//!
//! The canonical block is `HEADER_SIZE` bytes long:
//!
//! | bytes  | field            |
//! |--------|------------------|
//! | 0      | `version`        |
//! | 1      | `operation`      |
//! | 2..4   | `message_id`     |
//! | 4..6   | `grid_dimension` |
//! | 6..10  | `payload_length` |
//! | 10..12 | `checksum`       |
//!
//! Other revisions of the block are described by `FieldOffsets` of their
//! own, made into a `HeaderLayout` once they are found valid.
//!
//! The checksum is stored and returned as it is: nothing here computes or
//! verifies it.

use crate::error::DecodeError;
use vstd::prelude::*;

verus! {

/// The length in bytes of the canonical header block.
pub const HEADER_SIZE: usize = 12;

/// What a frame says of itself ahead of its payload.
#[derive(Debug, Clone, Copy, PartialEq, Eq, Structural)]
pub struct Header {
    /// Protocol version.
    pub version: u8,
    /// Operation code.
    pub operation: u8,
    /// Identifies the message among those of one conversation.
    pub message_id: u16,
    /// Side length of the square grid.
    pub grid_dimension: u16,
    /// Number of payload bytes that follow the header.
    pub payload_length: u32,
    /// Stored as given; never interpreted.
    pub checksum: u16,
}

impl Header {
    /// A header with every field zero.
    pub fn new() -> (header: Self)
        ensures
            header == (Header {
                version: 0,
                operation: 0,
                message_id: 0,
                grid_dimension: 0,
                payload_length: 0,
                checksum: 0,
            }),
    {
        Header {
            version: 0,
            operation: 0,
            message_id: 0,
            grid_dimension: 0,
            payload_length: 0,
            checksum: 0,
        }
    }
}

/// Byte number `place` of `value`, byte 0 being the least significant.
pub open spec fn byte_of(value: nat, place: int) -> u8 {
    if place == 0 {
        (value % 256) as u8
    } else if place == 1 {
        (value / 256 % 256) as u8
    } else if place == 2 {
        (value / 65536 % 256) as u8
    } else {
        (value / 16777216 % 256) as u8
    }
}

/// The 16-bit number whose big-endian bytes are `high`, `low`.
pub open spec fn be16(high: u8, low: u8) -> u16 {
    (high * 256 + low) as u16
}

/// The 32-bit number whose big-endian bytes are `b0` to `b3`.
pub open spec fn be32(b0: u8, b1: u8, b2: u8, b3: u8) -> u32 {
    (b0 * 16777216 + b1 * 65536 + b2 * 256 + b3) as u32
}

/// The canonical block of a header.
pub open spec fn header_bytes(header: Header) -> Seq<u8> {
    seq![
        header.version,
        header.operation,
        byte_of(header.message_id as nat, 1),
        byte_of(header.message_id as nat, 0),
        byte_of(header.grid_dimension as nat, 1),
        byte_of(header.grid_dimension as nat, 0),
        byte_of(header.payload_length as nat, 3),
        byte_of(header.payload_length as nat, 2),
        byte_of(header.payload_length as nat, 1),
        byte_of(header.payload_length as nat, 0),
        byte_of(header.checksum as nat, 1),
        byte_of(header.checksum as nat, 0),
    ]
}

/// The header that the first `HEADER_SIZE` bytes of `bytes` spell in the
/// canonical layout.
pub open spec fn parse_header(bytes: Seq<u8>) -> Header {
    Header {
        version: bytes[0],
        operation: bytes[1],
        message_id: be16(bytes[2], bytes[3]),
        grid_dimension: be16(bytes[4], bytes[5]),
        payload_length: be32(bytes[6], bytes[7], bytes[8], bytes[9]),
        checksum: be16(bytes[10], bytes[11]),
    }
}

/// Where each field of a header sits in its block, and how long the block
/// is. The fields keep their widths: one byte each for `version` and
/// `operation`, two for `message_id`, `grid_dimension` and `checksum`, four
/// for `payload_length`.
#[derive(Debug, Clone, Copy, PartialEq, Eq, Structural)]
pub struct FieldOffsets {
    /// Offset of `version`.
    pub version: usize,
    /// Offset of `operation`.
    pub operation: usize,
    /// Offset of the first byte of `message_id`.
    pub message_id: usize,
    /// Offset of the first byte of `grid_dimension`.
    pub grid_dimension: usize,
    /// Offset of the first byte of `payload_length`.
    pub payload_length: usize,
    /// Offset of the first byte of `checksum`.
    pub checksum: usize,
    /// Length of the whole block.
    pub size: usize,
}

/// Whether two runs of bytes, each given by its offset and length, share
/// no byte.
pub open spec fn apart(a: int, a_len: int, b: int, b_len: int) -> bool {
    a + a_len <= b || b + b_len <= a
}

/// The offsets of the canonical block.
pub open spec fn canonical_offsets() -> FieldOffsets {
    FieldOffsets {
        version: 0,
        operation: 1,
        message_id: 2,
        grid_dimension: 4,
        payload_length: 6,
        checksum: 10,
        size: HEADER_SIZE,
    }
}

impl FieldOffsets {
    /// Whether the block is no longer than a buffer can be, every field
    /// lies inside it, and no two fields share a byte.
    pub open spec fn valid(self) -> bool {
        &&& self.size <= isize::MAX
        &&& self.version + 1 <= self.size
        &&& self.operation + 1 <= self.size
        &&& self.message_id + 2 <= self.size
        &&& self.grid_dimension + 2 <= self.size
        &&& self.payload_length + 4 <= self.size
        &&& self.checksum + 2 <= self.size
        &&& apart(self.version as int, 1, self.operation as int, 1)
        &&& apart(self.version as int, 1, self.message_id as int, 2)
        &&& apart(self.version as int, 1, self.grid_dimension as int, 2)
        &&& apart(self.version as int, 1, self.payload_length as int, 4)
        &&& apart(self.version as int, 1, self.checksum as int, 2)
        &&& apart(self.operation as int, 1, self.message_id as int, 2)
        &&& apart(self.operation as int, 1, self.grid_dimension as int, 2)
        &&& apart(self.operation as int, 1, self.payload_length as int, 4)
        &&& apart(self.operation as int, 1, self.checksum as int, 2)
        &&& apart(self.message_id as int, 2, self.grid_dimension as int, 2)
        &&& apart(self.message_id as int, 2, self.payload_length as int, 4)
        &&& apart(self.message_id as int, 2, self.checksum as int, 2)
        &&& apart(self.grid_dimension as int, 2, self.payload_length as int, 4)
        &&& apart(self.grid_dimension as int, 2, self.checksum as int, 2)
        &&& apart(self.payload_length as int, 4, self.checksum as int, 2)
    }

    /// The block of a header in this layout: each field big-endian at its
    /// offset, every other byte zero.
    pub open spec fn image(self, header: Header) -> Seq<u8> {
        Seq::new(
            self.size as nat,
            |i: int|
                if i == self.version {
                    header.version
                } else if i == self.operation {
                    header.operation
                } else if self.message_id <= i < self.message_id + 2 {
                    byte_of(header.message_id as nat, self.message_id + 1 - i)
                } else if self.grid_dimension <= i < self.grid_dimension + 2 {
                    byte_of(header.grid_dimension as nat, self.grid_dimension + 1 - i)
                } else if self.payload_length <= i < self.payload_length + 4 {
                    byte_of(header.payload_length as nat, self.payload_length + 3 - i)
                } else if self.checksum <= i < self.checksum + 2 {
                    byte_of(header.checksum as nat, self.checksum + 1 - i)
                } else {
                    0u8
                },
        )
    }

    /// The header that `bytes` spell in this layout.
    pub open spec fn parse(self, bytes: Seq<u8>) -> Header {
        Header {
            version: bytes[self.version as int],
            operation: bytes[self.operation as int],
            message_id: be16(bytes[self.message_id as int], bytes[self.message_id + 1]),
            grid_dimension: be16(
                bytes[self.grid_dimension as int],
                bytes[self.grid_dimension + 1],
            ),
            payload_length: be32(
                bytes[self.payload_length as int],
                bytes[self.payload_length + 1],
                bytes[self.payload_length + 2],
                bytes[self.payload_length + 3],
            ),
            checksum: be16(bytes[self.checksum as int], bytes[self.checksum + 1]),
        }
    }

    /// Tests `valid`.
    pub fn is_valid(&self) -> (ok: bool)
        ensures
            ok == self.valid(),
    {
        let size = self.size;
        let inside_block = size <= isize::MAX as usize
            && inside(self.version, 1, size)
            && inside(self.operation, 1, size)
            && inside(self.message_id, 2, size)
            && inside(self.grid_dimension, 2, size)
            && inside(self.payload_length, 4, size)
            && inside(self.checksum, 2, size);
        if !inside_block {
            return false;
        }
        clear_of(self.version, 1, self.operation, 1)
            && clear_of(self.version, 1, self.message_id, 2)
            && clear_of(self.version, 1, self.grid_dimension, 2)
            && clear_of(self.version, 1, self.payload_length, 4)
            && clear_of(self.version, 1, self.checksum, 2)
            && clear_of(self.operation, 1, self.message_id, 2)
            && clear_of(self.operation, 1, self.grid_dimension, 2)
            && clear_of(self.operation, 1, self.payload_length, 4)
            && clear_of(self.operation, 1, self.checksum, 2)
            && clear_of(self.message_id, 2, self.grid_dimension, 2)
            && clear_of(self.message_id, 2, self.payload_length, 4)
            && clear_of(self.message_id, 2, self.checksum, 2)
            && clear_of(self.grid_dimension, 2, self.payload_length, 4)
            && clear_of(self.grid_dimension, 2, self.checksum, 2)
            && clear_of(self.payload_length, 4, self.checksum, 2)
    }
}

/// Field offsets that were found valid: the layout of one revision of the
/// header block.
#[derive(Debug, Clone, Copy)]
pub struct HeaderLayout {
    offsets: FieldOffsets,
}

impl View for HeaderLayout {
    type V = FieldOffsets;

    closed spec fn view(&self) -> FieldOffsets {
        self.offsets
    }
}

impl HeaderLayout {
    #[verifier::type_invariant]
    spec fn inv(self) -> bool {
        self.offsets.valid()
    }

    /// The layout with the given offsets; none unless they are valid.
    pub fn new(offsets: FieldOffsets) -> (layout: Option<HeaderLayout>)
        ensures
            offsets.valid() ==> layout is Some && layout->0@ == offsets,
            !offsets.valid() ==> layout is None,
    {
        if offsets.is_valid() {
            Some(HeaderLayout { offsets })
        } else {
            None
        }
    }

    /// The canonical layout.
    pub fn canonical() -> (layout: Self)
        ensures
            layout@ == canonical_offsets(),
    {
        HeaderLayout {
            offsets: FieldOffsets {
                version: 0,
                operation: 1,
                message_id: 2,
                grid_dimension: 4,
                payload_length: 6,
                checksum: 10,
                size: HEADER_SIZE,
            },
        }
    }

    /// The offsets of the layout, which are valid.
    pub fn offsets(&self) -> (offsets: FieldOffsets)
        ensures
            offsets == self@,
            offsets.valid(),
    {
        proof {
            use_type_invariant(self);
        }
        self.offsets
    }
}

fn inside(offset: usize, len: usize, size: usize) -> (ok: bool)
    ensures
        ok == (offset + len <= size),
{
    len <= size && offset <= size - len
}

fn clear_of(a: usize, a_len: usize, b: usize, b_len: usize) -> (ok: bool)
    requires
        a + a_len <= usize::MAX,
        b + b_len <= usize::MAX,
    ensures
        ok == apart(a as int, a_len as int, b as int, b_len as int),
{
    a + a_len <= b || b + b_len <= a
}

fn put_be16(block: &mut Vec<u8>, offset: usize, value: u16)
    requires
        offset + 2 <= old(block)@.len(),
    ensures
        final(block)@ == old(block)@.update(offset as int, byte_of(value as nat, 1)).update(
            offset + 1,
            byte_of(value as nat, 0),
        ),
{
    assert(block.len() <= usize::MAX);
    block[offset] = (value / 256) as u8;
    block[offset + 1] = (value % 256) as u8;
}

fn put_be32(block: &mut Vec<u8>, offset: usize, value: u32)
    requires
        offset + 4 <= old(block)@.len(),
    ensures
        final(block)@ == old(block)@.update(offset as int, byte_of(value as nat, 3)).update(
            offset + 1,
            byte_of(value as nat, 2),
        ).update(offset + 2, byte_of(value as nat, 1)).update(
            offset + 3,
            byte_of(value as nat, 0),
        ),
{
    assert(block.len() <= usize::MAX);
    block[offset] = (value / 16777216) as u8;
    block[offset + 1] = (value / 65536 % 256) as u8;
    block[offset + 2] = (value / 256 % 256) as u8;
    block[offset + 3] = (value % 256) as u8;
}

fn get_be16(bytes: &[u8], offset: usize) -> (value: u16)
    requires
        offset + 2 <= bytes@.len(),
    ensures
        value == be16(bytes@[offset as int], bytes@[offset + 1]),
{
    bytes[offset] as u16 * 256 + bytes[offset + 1] as u16
}

fn get_be32(bytes: &[u8], offset: usize) -> (value: u32)
    requires
        offset + 4 <= bytes@.len(),
    ensures
        value == be32(
            bytes@[offset as int],
            bytes@[offset + 1],
            bytes@[offset + 2],
            bytes@[offset + 3],
        ),
{
    bytes[offset] as u32 * 16777216 + bytes[offset + 1] as u32 * 65536 + bytes[offset + 2] as u32
        * 256 + bytes[offset + 3] as u32
}

/// Writes a header as a block in the given layout.
pub fn encode_header_with(header: &Header, layout: &HeaderLayout) -> (block: Vec<u8>)
    ensures
        block@ == layout@.image(*header),
{
    let at = layout.offsets();
    let mut block: Vec<u8> = vec![0u8; at.size];
    block[at.version] = header.version;
    block[at.operation] = header.operation;
    put_be16(&mut block, at.message_id, header.message_id);
    put_be16(&mut block, at.grid_dimension, header.grid_dimension);
    put_be32(&mut block, at.payload_length, header.payload_length);
    put_be16(&mut block, at.checksum, header.checksum);
    proof {
        let image = at.image(*header);
        assert forall|i: int| 0 <= i < at.size implies block@[i] == image[i] by {
            if i == at.version {
            } else if i == at.operation {
            } else if at.message_id <= i < at.message_id + 2 {
            } else if at.grid_dimension <= i < at.grid_dimension + 2 {
            } else if at.payload_length <= i < at.payload_length + 4 {
            } else if at.checksum <= i < at.checksum + 2 {
            } else {
            }
        }
        assert(block@ =~= image);
    }
    block
}

/// Reads a header from the start of `bytes` in the given layout; with fewer
/// bytes than the block is long there is no header to read. Bytes after
/// the block are not looked at.
pub fn decode_header_with(bytes: &[u8], layout: &HeaderLayout) -> (result: Result<
    Header,
    DecodeError,
>)
    ensures
        bytes@.len() < layout@.size ==> result == Err::<Header, DecodeError>(
            DecodeError::ShortRead,
        ),
        bytes@.len() >= layout@.size ==> result == Ok::<Header, DecodeError>(
            layout@.parse(bytes@.take(layout@.size as int)),
        ),
{
    let at = layout.offsets();
    if bytes.len() < at.size {
        return Err(DecodeError::ShortRead);
    }
    Ok(
        Header {
            version: bytes[at.version],
            operation: bytes[at.operation],
            message_id: get_be16(bytes, at.message_id),
            grid_dimension: get_be16(bytes, at.grid_dimension),
            payload_length: get_be32(bytes, at.payload_length),
            checksum: get_be16(bytes, at.checksum),
        },
    )
}

/// Writes a header as its canonical block of `HEADER_SIZE` bytes.
pub fn encode_header(header: &Header) -> (block: Vec<u8>)
    ensures
        block@ == header_bytes(*header),
{
    let layout = HeaderLayout::canonical();
    let block = encode_header_with(header, &layout);
    assert(block@ =~= header_bytes(*header));
    block
}

/// Reads a header from the first `HEADER_SIZE` bytes of `bytes`; with fewer
/// bytes there is no header to read. Bytes after the block are not looked
/// at.
pub fn decode_header(bytes: &[u8]) -> (result: Result<Header, DecodeError>)
    ensures
        bytes@.len() < HEADER_SIZE ==> result == Err::<Header, DecodeError>(
            DecodeError::ShortRead,
        ),
        bytes@.len() >= HEADER_SIZE ==> result == Ok::<Header, DecodeError>(
            parse_header(bytes@.take(HEADER_SIZE as int)),
        ),
{
    let layout = HeaderLayout::canonical();
    decode_header_with(bytes, &layout)
}

proof fn lemma_be16_of_bytes(value: u16)
    ensures
        be16(byte_of(value as nat, 1), byte_of(value as nat, 0)) == value,
{
}

proof fn lemma_be32_of_bytes(value: u32)
    ensures
        be32(
            byte_of(value as nat, 3),
            byte_of(value as nat, 2),
            byte_of(value as nat, 1),
            byte_of(value as nat, 0),
        ) == value,
{
    let v = value as int;
    let high = v / 65536;
    let low = v % 65536;
    assert(v / 16777216 == high / 256);
    assert(v / 256 % 256 == low / 256);
    assert(v % 256 == low % 256);
}

proof fn lemma_image_single_bytes(header: Header, layout: FieldOffsets)
    requires
        layout.valid(),
    ensures
        layout.image(header)[layout.version as int] == header.version,
        layout.image(header)[layout.operation as int] == header.operation,
{
}

proof fn lemma_image_message_id(header: Header, layout: FieldOffsets)
    requires
        layout.valid(),
    ensures
        layout.image(header)[layout.message_id as int] == byte_of(header.message_id as nat, 1),
        layout.image(header)[layout.message_id + 1] == byte_of(header.message_id as nat, 0),
{
}

proof fn lemma_image_grid_dimension(header: Header, layout: FieldOffsets)
    requires
        layout.valid(),
    ensures
        layout.image(header)[layout.grid_dimension as int] == byte_of(
            header.grid_dimension as nat,
            1,
        ),
        layout.image(header)[layout.grid_dimension + 1] == byte_of(
            header.grid_dimension as nat,
            0,
        ),
{
}

proof fn lemma_image_payload_length(header: Header, layout: FieldOffsets)
    requires
        layout.valid(),
    ensures
        layout.image(header)[layout.payload_length as int] == byte_of(
            header.payload_length as nat,
            3,
        ),
        layout.image(header)[layout.payload_length + 1] == byte_of(
            header.payload_length as nat,
            2,
        ),
        layout.image(header)[layout.payload_length + 2] == byte_of(
            header.payload_length as nat,
            1,
        ),
        layout.image(header)[layout.payload_length + 3] == byte_of(
            header.payload_length as nat,
            0,
        ),
{
}

proof fn lemma_image_checksum(header: Header, layout: FieldOffsets)
    requires
        layout.valid(),
    ensures
        layout.image(header)[layout.checksum as int] == byte_of(header.checksum as nat, 1),
        layout.image(header)[layout.checksum + 1] == byte_of(header.checksum as nat, 0),
{
}

/// Reading back the block of a header gives the header, in any valid
/// layout and whatever follows the block.
pub proof fn lemma_header_round_trip(header: Header, layout: FieldOffsets, rest: Seq<u8>)
    requires
        layout.valid(),
    ensures
        layout.parse((layout.image(header) + rest).take(layout.size as int)) == header,
{
    let block = layout.image(header);
    assert((block + rest).take(layout.size as int) =~= block);
    lemma_image_single_bytes(header, layout);
    lemma_image_message_id(header, layout);
    lemma_image_grid_dimension(header, layout);
    lemma_image_payload_length(header, layout);
    lemma_image_checksum(header, layout);
    lemma_be16_of_bytes(header.message_id);
    lemma_be16_of_bytes(header.grid_dimension);
    lemma_be32_of_bytes(header.payload_length);
    lemma_be16_of_bytes(header.checksum);
}

/// In the canonical layout the block of a header is `header_bytes` and
/// reading a block is `parse_header`.
pub proof fn lemma_canonical_layout(header: Header, bytes: Seq<u8>)
    ensures
        canonical_offsets().valid(),
        canonical_offsets().image(header) == header_bytes(header),
        canonical_offsets().parse(bytes) == parse_header(bytes),
{
    assert(canonical_offsets().image(header) =~= header_bytes(header));
}

/// Reading back the canonical block of a header gives the header.
pub proof fn lemma_canonical_round_trip(header: Header, rest: Seq<u8>)
    ensures
        parse_header((header_bytes(header) + rest).take(HEADER_SIZE as int)) == header,
{
    lemma_be16_of_bytes(header.message_id);
    lemma_be16_of_bytes(header.grid_dimension);
    lemma_be32_of_bytes(header.payload_length);
    lemma_be16_of_bytes(header.checksum);
    assert((header_bytes(header) + rest).take(HEADER_SIZE as int) =~= header_bytes(header));
}

proof fn lemma_bytes_of_be16(high: u8, low: u8)
    ensures
        byte_of(be16(high, low) as nat, 1) == high,
        byte_of(be16(high, low) as nat, 0) == low,
{
}

proof fn lemma_bytes_of_be32(b0: u8, b1: u8, b2: u8, b3: u8)
    ensures
        byte_of(be32(b0, b1, b2, b3) as nat, 3) == b0,
        byte_of(be32(b0, b1, b2, b3) as nat, 2) == b1,
        byte_of(be32(b0, b1, b2, b3) as nat, 1) == b2,
        byte_of(be32(b0, b1, b2, b3) as nat, 0) == b3,
{
    let value = b0 * 16777216 + b1 * 65536 + b2 * 256 + b3;
    assert(value / 256 == b0 * 65536 + b1 * 256 + b2);
    assert(value / 65536 == b0 * 256 + b1);
    assert(value / 16777216 == b0);
}

/// Writing the header that a block spells gives the block again.
pub proof fn lemma_canonical_block_round_trip(bytes: Seq<u8>)
    requires
        bytes.len() == HEADER_SIZE,
    ensures
        header_bytes(parse_header(bytes)) == bytes,
{
    lemma_bytes_of_be16(bytes[2], bytes[3]);
    lemma_bytes_of_be16(bytes[4], bytes[5]);
    lemma_bytes_of_be32(bytes[6], bytes[7], bytes[8], bytes[9]);
    lemma_bytes_of_be16(bytes[10], bytes[11]);
    assert(header_bytes(parse_header(bytes)) =~= bytes);
}

} // verus!
