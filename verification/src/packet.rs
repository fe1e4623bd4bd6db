//! A packet: the header last read, and the payload work that goes by it.

use crate::cells::CoordinateSet;
use crate::codec::{decode, decode_spec, derive_width, derived_width, encode, encode_spec};
use crate::error::DecodeError;
use crate::header::{decode_header, parse_header, Header, HEADER_SIZE};
use crate::stream::{valid_width, MAX_WIDTH};
use vstd::prelude::*;
use vstd::slice::slice_subrange;

verus! {

/// The header of the frame in hand.
#[derive(Debug, Clone, Copy, PartialEq, Eq, Structural)]
pub struct Packet {
    /// The header last decoded, or the one to send.
    pub header: Header,
}

/// The header that a frame of at least `HEADER_SIZE` bytes begins with.
pub open spec fn frame_header(frame: Seq<u8>) -> Header {
    parse_header(frame.take(HEADER_SIZE as int))
}

/// The bit width that the header of a frame calls for.
pub open spec fn frame_width(frame: Seq<u8>) -> nat {
    derived_width(frame_header(frame).grid_dimension as u32)
}

/// The payload of a frame: what follows the header, up to the length that
/// the header declares.
pub open spec fn frame_payload(frame: Seq<u8>) -> Seq<u8> {
    frame.subrange(HEADER_SIZE as int, HEADER_SIZE + frame_header(frame).payload_length)
}

/// The length of the frame that begins with `received`, as far as
/// `received` tells: a header's until the header is complete, then the
/// header's and the declared payload's together. A byte source has the whole
/// frame once it holds that many bytes.
pub open spec fn frame_len(received: Seq<u8>) -> int {
    if received.len() < HEADER_SIZE {
        HEADER_SIZE as int
    } else {
        HEADER_SIZE + frame_header(received).payload_length
    }
}

/// Computes `frame_len`, or the largest `usize` where the length is beyond
/// it.
pub fn frame_size(received: &[u8]) -> (size: usize)
    ensures
        size == if frame_len(received@) <= usize::MAX {
            frame_len(received@)
        } else {
            usize::MAX as int
        },
{
    match decode_header(received) {
        Ok(header) => {
            let declared = header.payload_length as usize;
            if declared <= usize::MAX - HEADER_SIZE {
                HEADER_SIZE + declared
            } else {
                usize::MAX
            }
        },
        Err(_) => HEADER_SIZE,
    }
}

impl Packet {
    /// Reads the header at the start of `data` into the packet. With fewer
    /// than `HEADER_SIZE` bytes the packet keeps the header it had.
    pub fn decode_header(&mut self, data: &[u8]) -> (result: Result<(), DecodeError>)
        ensures
            data@.len() < HEADER_SIZE ==> *final(self) == *old(self) && result == Err::<
                (),
                DecodeError,
            >(DecodeError::ShortRead),
            data@.len() >= HEADER_SIZE ==> final(self).header == frame_header(data@) && result
                == Ok::<(), DecodeError>(()),
    {
        match decode_header(data) {
            Ok(header) => {
                self.header = header;
                Ok(())
            },
            Err(error) => Err(error),
        }
    }

    /// Unpacks a payload of values `coordinate_length` bits wide.
    pub fn decode_payload(&self, data: &[u8], coordinate_length: u32) -> (result: Result<
        CoordinateSet,
        DecodeError,
    >)
        ensures
            valid_width(coordinate_length) ==> result is Ok && result->Ok_0@ == decode_spec(
                data@,
                coordinate_length as nat,
            ),
            !valid_width(coordinate_length) ==> result is Err && result->Err_0
                == DecodeError::InvalidWidth,
    {
        decode(data, coordinate_length)
    }

    /// Packs the cells into a payload of values `coordinate_length` bits
    /// wide.
    pub fn encode_payload(&self, cells: CoordinateSet, coordinate_length: usize) -> (result:
        Result<Vec<u8>, DecodeError>)
        ensures
            1 <= coordinate_length <= MAX_WIDTH ==> result is Ok && result->Ok_0@ == encode_spec(
                cells@,
                coordinate_length as nat,
            ),
            !(1 <= coordinate_length <= MAX_WIDTH) ==> result == Err::<Vec<u8>, DecodeError>(
                DecodeError::InvalidWidth,
            ),
    {
        if coordinate_length > MAX_WIDTH as usize {
            return Err(DecodeError::InvalidWidth);
        }
        encode(&cells, coordinate_length as u32)
    }

    /// The bits one packed coordinate takes on the header's grid, and how
    /// many bits of a 32-bit word such a value leaves unused. A grid whose
    /// width would be zero or more than `MAX_WIDTH` has neither: only the
    /// sides from 2 to 8191 have a width.
    pub fn calc_coord_len_and_offset(&mut self) -> (result: Result<(u32, u32), DecodeError>)
        ensures
            *final(self) == *old(self),
            1 <= derived_width(old(self).header.grid_dimension as u32) <= MAX_WIDTH ==> result
                == Ok::<(u32, u32), DecodeError>(
                (
                    derived_width(old(self).header.grid_dimension as u32) as u32,
                    (32 - derived_width(old(self).header.grid_dimension as u32)) as u32,
                ),
            ),
            !(1 <= derived_width(old(self).header.grid_dimension as u32) <= MAX_WIDTH) ==> result
                == Err::<(u32, u32), DecodeError>(DecodeError::InvalidWidth),
            result is Ok <==> 2 <= old(self).header.grid_dimension < 8192,
    {
        match derive_width(self.header.grid_dimension as u32) {
            Ok(coordinate_length) => Ok((coordinate_length, 32 - coordinate_length)),
            Err(error) => Err(error),
        }
    }

    /// Decodes one frame: a header followed by as many payload bytes as the
    /// header declares. The header read is kept in the packet.
    ///
    /// An empty frame is the end of the stream: it gives the empty set and
    /// leaves the packet as it was. A frame that breaks off inside the
    /// header, or before the declared end of the payload, is a short read.
    /// Bytes after the declared payload are not looked at.
    pub fn decode(&mut self, frame: &[u8]) -> (result: Result<CoordinateSet, DecodeError>)
        ensures
            frame@.len() < HEADER_SIZE ==> *final(self) == *old(self),
            frame@.len() >= HEADER_SIZE ==> final(self).header == frame_header(frame@),
            frame@.len() == 0 ==> result is Ok && result->Ok_0@ == Seq::<u32>::empty(),
            0 < frame@.len() < HEADER_SIZE ==> result is Err && result->Err_0
                == DecodeError::ShortRead,
            frame@.len() >= HEADER_SIZE && !(1 <= frame_width(frame@) <= MAX_WIDTH) ==> result
                is Err && result->Err_0 == DecodeError::InvalidWidth,
            frame@.len() >= HEADER_SIZE && 1 <= frame_width(frame@) <= MAX_WIDTH && frame@.len()
                < frame_len(frame@) ==> result is Err && result->Err_0 == DecodeError::ShortRead,
            frame@.len() >= HEADER_SIZE && 1 <= frame_width(frame@) <= MAX_WIDTH && frame@.len()
                >= frame_len(frame@) ==> result is Ok && result->Ok_0@ == decode_spec(
                frame_payload(frame@),
                frame_width(frame@),
            ),
    {
        if frame.len() == 0 {
            return Ok(CoordinateSet::new());
        }
        match decode_header(frame) {
            Ok(header) => {
                self.header = header;
            },
            Err(error) => {
                return Err(error);
            },
        }
        let width = match derive_width(self.header.grid_dimension as u32) {
            Ok(width) => width,
            Err(error) => {
                return Err(error);
            },
        };
        let declared = self.header.payload_length as usize;
        if frame.len() - HEADER_SIZE < declared {
            return Err(DecodeError::ShortRead);
        }
        let payload = slice_subrange(frame, HEADER_SIZE, HEADER_SIZE + declared);
        decode(payload, width)
    }
}

} // verus!
