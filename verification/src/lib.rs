//! A compact binary codec for sparse sets of cells on a square grid.
//!
//! A frame is a fixed-size big-endian header followed by a payload in which
//! each live cell is packed, most significant bit first, into exactly as many
//! bits as the grid dimension calls for, with no padding between cells.
//!
//! * [`stream`] moves fixed-width values into and out of bytes.
//! * [`header`] writes and reads the header block.
//! * [`cells`] holds the live cells: each once, in insertion order.
//! * [`codec`] derives the bit width from the grid dimension and turns a
//!   [`CoordinateSet`] into a payload and back.
//! * [`grid`] packs cells and counts live neighbours on a grid whose edges
//!   wrap around.
//! * [`packet`] puts header and payload together into frames.
//! * [`numbers`] is the plain list of values that other encodings carry.
//! * [`bits`] is the model of a bit stream that the contracts are stated
//!   over, and [`round_trip`] states what decoding an encoded set gives.
//!
//! Nothing here performs I/O: bytes come from and go to the caller.

pub mod bits;
pub mod cells;
pub mod codec;
pub mod error;
pub mod grid;
pub mod header;
pub mod numbers;
pub mod packet;
pub mod round_trip;
pub mod stream;

pub use cells::CoordinateSet;
pub use codec::{bit_length, decode, derive_width, encode};
pub use error::DecodeError;
pub use grid::{neighbour_count, pack, unpack};
pub use header::{
    decode_header, decode_header_with, encode_header, encode_header_with, FieldOffsets, Header,
    HeaderLayout, HEADER_SIZE,
};
pub use numbers::NumberArray;
pub use packet::{frame_size, Packet};
pub use stream::{BitStreamReader, BitStreamWriter, MAX_WIDTH};
