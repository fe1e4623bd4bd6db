//! What encoding followed by decoding gives, and what encoding that gives.

use crate::bits::{
    bits_of, lemma_bits_of_zero, lemma_bytes_to_bits_to_bytes, lemma_value_of_bits_of,
    lemma_value_of_zero_bits, pad_len, zero_bits,
};
use crate::cells::{distinct_in_order, lemma_distinct_of_distinct};
use crate::codec::{
    decode_spec, derived_width, encode_spec, highest_set_bit, lemma_packed_bits_len, packed_bits,
    unpacked_values,
};
use crate::stream::MAX_WIDTH;
use vstd::arithmetic::power2::{lemma_pow2_adds, lemma_pow2_pos, lemma_pow2_unfold, pow2};
use vstd::prelude::*;

verus! {

/// Whether every value can be written in `width` bits.
pub open spec fn fits(values: Seq<u32>, width: nat) -> bool {
    forall|i: int| 0 <= i < values.len() ==> values[i] < pow2(width)
}

/// Whether `n` is a power of two.
pub open spec fn is_power_of_two(n: nat) -> bool {
    exists|k: nat| n == pow2(k)
}

/// Whether the clear bits that complete the last byte of a payload of
/// `count` values could be taken for one more value.
pub open spec fn padding_reads_as_value(count: nat, width: nat) -> bool {
    pad_len(count * width) >= width
}

proof fn lemma_packed_bits_first(values: Seq<u32>, width: nat)
    requires
        values.len() > 0,
    ensures
        packed_bits(values, width) == bits_of(values[0], width) + packed_bits(
            values.skip(1),
            width,
        ),
    decreases values.len(),
{
    if values.len() == 1 {
        assert(packed_bits(values.drop_last(), width) =~= Seq::<bool>::empty());
    } else {
        let front = values.drop_last();
        lemma_packed_bits_first(front, width);
        assert(values.skip(1).drop_last() =~= front.skip(1));
    }
}

proof fn lemma_unpack_packed(values: Seq<u32>, width: nat, tail: Seq<bool>)
    requires
        1 <= width <= 32,
        fits(values, width),
    ensures
        unpacked_values(packed_bits(values, width) + tail, width) == values + unpacked_values(
            tail,
            width,
        ),
    decreases values.len(),
{
    if values.len() == 0 {
        assert(values + unpacked_values(tail, width) =~= unpacked_values(tail, width));
    } else {
        let rest = values.skip(1);
        let all = packed_bits(values, width) + tail;
        lemma_packed_bits_first(values, width);
        assert(all.take(width as int) =~= bits_of(values[0], width));
        assert(all.skip(width as int) =~= packed_bits(rest, width) + tail);
        lemma_value_of_bits_of(values[0], width);
        lemma_unpack_packed(rest, width, tail);
    }
}

proof fn lemma_unpack_zero_bits(n: nat, width: nat)
    requires
        width >= 1,
    ensures
        forall|i: int|
            0 <= i < unpacked_values(zero_bits(n), width).len() ==> unpacked_values(
                zero_bits(n),
                width,
            )[i] == 0,
        n < width ==> unpacked_values(zero_bits(n), width).len() == 0,
        n >= width ==> unpacked_values(zero_bits(n), width).len() >= 1,
    decreases n,
{
    if n >= width {
        let rest = (n - width) as nat;
        assert(zero_bits(n).take(width as int) =~= zero_bits(width));
        assert(zero_bits(n).skip(width as int) =~= zero_bits(rest));
        lemma_value_of_zero_bits(width);
        lemma_unpack_zero_bits(rest, width);
    }
}

proof fn lemma_distinct_with_zeros(values: Seq<u32>, zeros: Seq<u32>)
    requires
        values.no_duplicates(),
        forall|i: int| 0 <= i < zeros.len() ==> zeros[i] == 0,
    ensures
        distinct_in_order(values + zeros) == if zeros.len() == 0 || values.contains(0) {
            values
        } else {
            values.push(0)
        },
    decreases zeros.len(),
{
    if zeros.len() == 0 {
        lemma_distinct_of_distinct(values);
    } else {
        let front = zeros.drop_last();
        lemma_distinct_with_zeros(values, front);
        assert((values + zeros).drop_last() =~= values + front);
        assert(values.push(0).contains(0)) by {
            assert(values.push(0)[values.len() as int] == 0);
        }
    }
}

/// Decoding what was encoded gives the values back, followed by a single
/// zero where the clear bits that complete the last byte are at least one
/// value wide and zero is not among the values.
pub proof fn lemma_decode_encode(values: Seq<u32>, width: nat)
    requires
        1 <= width <= MAX_WIDTH,
        fits(values, width),
        values.no_duplicates(),
    ensures
        decode_spec(encode_spec(values, width), width) == if padding_reads_as_value(
            values.len(),
            width,
        ) && !values.contains(0) {
            values.push(0)
        } else {
            values
        },
{
    let bits = packed_bits(values, width);
    let padding = zero_bits(pad_len(bits.len()));
    lemma_packed_bits_len(values, width);
    lemma_bytes_to_bits_to_bytes(bits + padding);
    lemma_unpack_packed(values, width, padding);
    lemma_unpack_zero_bits(pad_len(bits.len()), width);
    lemma_distinct_with_zeros(values, unpacked_values(padding, width));
}

/// Encoding a set for a grid whose side is a power of two and decoding the
/// payload with the same width gives the set back, in the same order,
/// unless the clear bits that complete the last byte are at least one value
/// wide and cell zero is not in the set.
pub proof fn lemma_round_trip(values: Seq<u32>, grid_dimension: u32)
    requires
        is_power_of_two(grid_dimension as nat),
        1 <= derived_width(grid_dimension) <= MAX_WIDTH,
        forall|i: int| 0 <= i < values.len() ==> values[i] < grid_dimension * grid_dimension,
        values.no_duplicates(),
        !padding_reads_as_value(values.len(), derived_width(grid_dimension)) || values.contains(0),
    ensures
        decode_spec(
            encode_spec(values, derived_width(grid_dimension)),
            derived_width(grid_dimension),
        ) == values,
{
    lemma_width_of_power_of_two(grid_dimension);
    lemma_decode_encode(values, derived_width(grid_dimension));
}

/// With a width of at least eight bits the clear bits that complete the
/// last byte are never taken for a value.
pub proof fn lemma_wide_values_round_trip(values: Seq<u32>, width: nat)
    requires
        8 <= width <= MAX_WIDTH,
        fits(values, width),
        values.no_duplicates(),
    ensures
        decode_spec(encode_spec(values, width), width) == values,
{
    lemma_decode_encode(values, width);
}

/// Encoding what a payload decodes to gives the payload again, byte for
/// byte, when the payload was encoded from distinct values that fit the
/// width.
pub proof fn lemma_reencode(values: Seq<u32>, width: nat)
    requires
        1 <= width <= MAX_WIDTH,
        fits(values, width),
        values.no_duplicates(),
    ensures
        encode_spec(decode_spec(encode_spec(values, width), width), width) == encode_spec(
            values,
            width,
        ),
{
    lemma_decode_encode(values, width);
    if padding_reads_as_value(values.len(), width) && !values.contains(0) {
        let bits = packed_bits(values, width);
        let longer = values.push(0);
        lemma_packed_bits_len(values, width);
        lemma_bits_of_zero(width);
        assert(longer.drop_last() =~= values);
        lemma_padding_after_value(bits.len(), width);
        lemma_zero_bits_join(bits, width, pad_len(bits.len() + width));
    }
}

proof fn lemma_padding_after_value(len: nat, width: nat)
    requires
        1 <= width <= pad_len(len),
    ensures
        pad_len(len + width) + width == pad_len(len),
{
}

proof fn lemma_zero_bits_join(bits: Seq<bool>, first: nat, second: nat)
    ensures
        (bits + zero_bits(first)) + zero_bits(second) == bits + zero_bits(first + second),
{
}

proof fn lemma_highest_set_bit_of_pow2(k: nat)
    ensures
        highest_set_bit(pow2(k)) == k,
    decreases k,
{
    lemma_pow2_pos(k);
    if k == 0 {
        vstd::arithmetic::power2::lemma2_to64();
    } else {
        lemma_pow2_unfold(k);
        lemma_pow2_pos((k - 1) as nat);
        lemma_highest_set_bit_of_pow2((k - 1) as nat);
    }
}

/// On a grid whose side is a power of two, the packed coordinates below the
/// number of cells are exactly the values that fit the derived width.
pub proof fn lemma_width_of_power_of_two(grid_dimension: u32)
    requires
        is_power_of_two(grid_dimension as nat),
    ensures
        pow2(derived_width(grid_dimension)) == grid_dimension * grid_dimension,
{
    let k = choose|k: nat| grid_dimension as nat == pow2(k);
    lemma_highest_set_bit_of_pow2(k);
    lemma_pow2_adds(k, k);
}

} // verus!
