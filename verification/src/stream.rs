//! Writing and reading fixed-width values across byte boundaries.

use crate::bits::{
    bit_of, bits_of, bits_to_bytes, bytes_to_bits, lemma_bits_of_zero, lemma_bits_to_bytes_to_bits,
    lemma_bytes_to_bits_first, lemma_bytes_to_bits_push, lemma_value_of_bits_of,
    lemma_whole_bytes, pad_to_bytes, value_of,
};
use crate::error::DecodeError;
use vstd::arithmetic::power2::pow2;
use vstd::prelude::*;

verus! {

/// The widest value, in bits, that one `write` or `read` can move.
pub const MAX_WIDTH: u32 = 24;

/// Whether a bit width can be written and read: `1..=MAX_WIDTH`.
pub open spec fn valid_width(width: u32) -> bool {
    1 <= width <= MAX_WIDTH
}

/// Up to 31 pending bits, held at the top of a 32-bit word.
#[derive(Clone, Copy)]
struct Accumulator {
    word: u32,
    count: u32,
}

proof fn lemma_append(word: u32, count: u32, value: u32, width: u32, keep: u32, shift: u32)
    by (bit_vector)
    requires
        1 <= width,
        count + width <= 31,
        keep == 32 - width,
        shift == 32 - width - count,
        word & (0xffff_ffffu32 >> count) == 0,
    ensures
        (word | ((value & (0xffff_ffffu32 >> keep)) << shift)) & (0xffff_ffffu32 >> (count
            + width) as u32) == 0,
        forall|k: u32|
            32 - count <= k < 32 ==> #[trigger] bit_of(
                word | ((value & (0xffff_ffffu32 >> keep)) << shift),
                k,
            ) == bit_of(word, k),
        forall|k: u32|
            shift <= k < 32 - count ==> #[trigger] bit_of(
                word | ((value & (0xffff_ffffu32 >> keep)) << shift),
                k,
            ) == bit_of(value, (k - shift) as u32),
{
}

proof fn lemma_take(word: u32, count: u32, width: u32, down: u32)
    by (bit_vector)
    requires
        1 <= width <= count,
        count <= 31,
        down == 32 - width,
        word & (0xffff_ffffu32 >> count) == 0,
    ensures
        (word >> down) >> width == 0,
        (word << width) & (0xffff_ffffu32 >> (count - width) as u32) == 0,
        forall|k: u32|
            k < width ==> #[trigger] bit_of(word >> down, k) == bit_of(word, (k + down) as u32),
        forall|k: u32|
            width <= k < 32 ==> #[trigger] bit_of(word << width, k) == bit_of(
                word,
                (k - width) as u32,
            ),
{
}

impl Accumulator {
    spec fn wf(self) -> bool {
        self.count <= 31 && self.word & (0xffff_ffffu32 >> self.count) == 0
    }

    spec fn bits(self) -> Seq<bool> {
        Seq::new(self.count as nat, |i: int| bit_of(self.word, (31 - i) as u32))
    }

    fn new() -> (acc: Self)
        ensures
            acc.wf(),
            acc.count == 0,
            acc.bits() == Seq::<bool>::empty(),
    {
        assert(0u32 & (0xffff_ffffu32 >> 0u32) == 0) by (bit_vector);
        Accumulator { word: 0, count: 0 }
    }

    fn len(&self) -> (n: u32)
        ensures
            n == self.bits().len(),
    {
        self.count
    }

    /// Appends the low `width` bits of `value`.
    fn append(&mut self, value: u32, width: u32)
        requires
            old(self).wf(),
            1 <= width,
            old(self).bits().len() + width <= 31,
        ensures
            final(self).wf(),
            final(self).bits() == old(self).bits() + bits_of(value, width as nat),
    {
        let keep: u32 = 32 - width;
        let shift: u32 = 32 - width - self.count;
        let merged: u32 = self.word | ((value & (0xffff_ffffu32 >> keep)) << shift);
        proof {
            lemma_append(self.word, self.count, value, width, keep, shift);
            let after = Accumulator { word: merged, count: (self.count + width) as u32 };
            assert(after.bits() =~= self.bits() + bits_of(value, width as nat)) by {
                assert forall|i: int| 0 <= i < self.count + width implies after.bits()[i] == (
                self.bits() + bits_of(value, width as nat))[i] by {
                    let k = (31 - i) as u32;
                    if i < self.count {
                        assert(bit_of(merged, k) == bit_of(self.word, k));
                    } else {
                        assert(bit_of(merged, k) == bit_of(value, (k - shift) as u32));
                    }
                }
            }
        }
        self.word = merged;
        self.count = self.count + width;
    }

    /// Removes the first `width` bits and gives the number they spell.
    fn take(&mut self, width: u32) -> (value: u32)
        requires
            old(self).wf(),
            1 <= width <= old(self).bits().len(),
        ensures
            final(self).wf(),
            final(self).bits() == old(self).bits().skip(width as int),
            bits_of(value, width as nat) == old(self).bits().take(width as int),
            value == value_of(old(self).bits().take(width as int)),
            value < pow2(width as nat),
    {
        let down: u32 = 32 - width;
        let value: u32 = self.word >> down;
        let rest: u32 = self.word << width;
        proof {
            lemma_take(self.word, self.count, width, down);
            let after = Accumulator { word: rest, count: (self.count - width) as u32 };
            assert(after.bits() =~= self.bits().skip(width as int)) by {
                assert forall|i: int| 0 <= i < self.count - width implies after.bits()[i]
                    == self.bits().skip(width as int)[i] by {
                    let k = (31 - i) as u32;
                    assert(bit_of(rest, k) == bit_of(self.word, (k - width) as u32));
                }
            }
            assert(bits_of(value, width as nat) =~= self.bits().take(width as int)) by {
                assert forall|i: int| 0 <= i < width implies bits_of(value, width as nat)[i]
                    == self.bits().take(width as int)[i] by {
                    let k = (width - 1 - i) as u32;
                    assert(bit_of(value, k) == bit_of(self.word, (k + down) as u32));
                }
            }
            vstd::bits::lemma_u32_shr_is_div(value, width);
            vstd::arithmetic::power2::lemma_pow2_pos(width as nat);
            if value >= pow2(width as nat) {
                vstd::arithmetic::div_mod::lemma_div_non_zero(
                    value as int,
                    pow2(width as nat) as int,
                );
            }
            lemma_value_of_bits_of(value, width as nat);
        }
        self.word = rest;
        self.count = self.count - width;
        value
    }
}

/// Packs values of up to `MAX_WIDTH` bits each into bytes, most significant
/// bit first, with nothing between one value and the next.
pub struct BitStreamWriter {
    out: Vec<u8>,
    pending: Accumulator,
}

impl View for BitStreamWriter {
    type V = Seq<bool>;

    /// Every bit written so far, in order.
    closed spec fn view(&self) -> Seq<bool> {
        bytes_to_bits(self.out@) + self.pending.bits()
    }
}

impl BitStreamWriter {
    #[verifier::type_invariant]
    spec fn inv(self) -> bool {
        self.pending.wf() && self.pending.count < 8
    }

    /// The bytes already in the output buffer.
    pub closed spec fn emitted(&self) -> Seq<u8> {
        self.out@
    }

    /// A writer that has written nothing.
    pub fn new() -> (writer: Self)
        ensures
            writer@ == Seq::<bool>::empty(),
            writer.emitted() == Seq::<u8>::empty(),
    {
        BitStreamWriter { out: Vec::new(), pending: Accumulator::new() }
    }

    /// Appends the low `width` bits of `value`, most significant first;
    /// every byte that is full by then is in the output buffer. A width
    /// outside `1..=MAX_WIDTH` is refused and writes nothing.
    pub fn write(&mut self, value: u32, width: u32) -> (result: Result<(), DecodeError>)
        ensures
            valid_width(width) ==> result == Ok::<(), DecodeError>(()) && final(self)@ == old(self)@
                + bits_of(value, width as nat),
            valid_width(width) ==> final(self).emitted() == bits_to_bytes(final(self)@),
            !valid_width(width) ==> result == Err::<(), DecodeError>(DecodeError::InvalidWidth)
                && final(self)@ == old(self)@ && final(self).emitted() == old(self).emitted(),
    {
        if width == 0 || width > MAX_WIDTH {
            return Err(DecodeError::InvalidWidth);
        }
        proof {
            use_type_invariant(&*self);
        }
        let mut out: Vec<u8> = Vec::new();
        std::mem::swap(&mut out, &mut self.out);
        let mut pending = self.pending;
        pending.append(value, width);
        while pending.len() >= 8
            invariant
                pending.wf(),
                bytes_to_bits(out@) + pending.bits() == old(self)@ + bits_of(value, width as nat),
            decreases pending.bits().len(),
        {
            let byte = pending.take(8);
            proof {
                vstd::arithmetic::power2::lemma2_to64();
                lemma_bytes_to_bits_push(out@, byte as u8);
            }
            out.push(byte as u8);
        }
        proof {
            lemma_whole_bytes(out@, pending.bits());
        }
        self.out = out;
        self.pending = pending;
        Ok(())
    }

    /// Ends the stream: completes a partly filled last byte with clear bits
    /// and hands over every byte written.
    pub fn flush(self) -> (bytes: Vec<u8>)
        ensures
            bytes@ == bits_to_bytes(pad_to_bytes(self@)),
            bytes_to_bits(bytes@) == pad_to_bytes(self@),
    {
        proof {
            use_type_invariant(&self);
        }
        let mut out = self.out;
        let mut pending = self.pending;
        let held = pending.len();
        if held > 0 {
            pending.append(0, 8 - held);
            let byte = pending.take(8);
            proof {
                vstd::arithmetic::power2::lemma2_to64();
                lemma_bits_of_zero((8 - held) as nat);
                lemma_bytes_to_bits_push(out@, byte as u8);
                assert(bytes_to_bits(out@.push(byte as u8)) =~= pad_to_bytes(self@));
            }
            out.push(byte as u8);
        }
        proof {
            lemma_bits_to_bytes_to_bits(out@);
        }
        out
    }
}

/// Reads values of up to `MAX_WIDTH` bits each from bytes, most significant
/// bit first.
pub struct BitStreamReader<'a> {
    data: &'a [u8],
    next: usize,
    pending: Accumulator,
}

impl<'a> View for BitStreamReader<'a> {
    type V = Seq<bool>;

    /// The bits not yet read, in order.
    closed spec fn view(&self) -> Seq<bool> {
        self.pending.bits() + bytes_to_bits(self.data@.skip(self.next as int))
    }
}

impl<'a> BitStreamReader<'a> {
    #[verifier::type_invariant]
    spec fn inv(self) -> bool {
        self.pending.wf() && self.next <= self.data@.len()
    }

    /// A reader at the first bit of `data`.
    pub fn new(data: &'a [u8]) -> (reader: Self)
        ensures
            reader@ == bytes_to_bits(data@),
    {
        BitStreamReader { data, next: 0, pending: Accumulator::new() }
    }

    /// Takes the next `width` bits as a number. With fewer than `width` bits
    /// left the stream has ended: the answer is `None` and nothing is
    /// consumed. A width outside `1..=MAX_WIDTH` is refused.
    pub fn read(&mut self, width: u32) -> (result: Result<Option<u32>, DecodeError>)
        ensures
            !valid_width(width) ==> final(self)@ == old(self)@ && result == Err::<
                Option<u32>,
                DecodeError,
            >(DecodeError::InvalidWidth),
            valid_width(width) && old(self)@.len() < width ==> final(self)@ == old(self)@
                && result == Ok::<Option<u32>, DecodeError>(None),
            valid_width(width) && old(self)@.len() >= width ==> final(self)@ == old(self)@.skip(
                width as int,
            ) && result == Ok::<Option<u32>, DecodeError>(
                Some(value_of(old(self)@.take(width as int)) as u32),
            ),
    {
        if width == 0 || width > MAX_WIDTH {
            return Err(DecodeError::InvalidWidth);
        }
        proof {
            use_type_invariant(&*self);
        }
        let data = self.data;
        let mut next = self.next;
        let mut pending = self.pending;
        while pending.len() < width && next < data.len()
            invariant
                valid_width(width),
                pending.wf(),
                next <= data@.len(),
                pending.bits() + bytes_to_bits(data@.skip(next as int)) == old(self)@,
            decreases data@.len() - next,
        {
            let byte = data[next];
            proof {
                lemma_bytes_to_bits_first(data@.skip(next as int));
            }
            pending.append(byte as u32, 8);
            next = next + 1;
        }
        if pending.len() < width {
            self.pending = pending;
            self.next = next;
            return Ok(None);
        }
        let ghost before = pending.bits();
        let value = pending.take(width);
        proof {
            let rest = bytes_to_bits(data@.skip(next as int));
            assert((before + rest).take(width as int) =~= before.take(width as int));
        }
        self.pending = pending;
        self.next = next;
        Ok(Some(value))
    }
}

} // verus!
