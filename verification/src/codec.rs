//! The coordinate codec: the bit width a grid calls for, and the payload
//! that a set of packed coordinates becomes.

use crate::bits::{bits_of, bits_to_bytes, bytes_to_bits, pad_to_bytes, value_of};
use crate::cells::{distinct_in_order, CoordinateSet};
use crate::error::DecodeError;
use crate::stream::{valid_width, BitStreamReader, BitStreamWriter, MAX_WIDTH};
use vstd::prelude::*;

verus! {

/// The position of the highest set bit of `n`, counting from 0; 0 for 0.
pub open spec fn highest_set_bit(n: nat) -> nat
    decreases n,
{
    if n <= 1 {
        0
    } else {
        1 + highest_set_bit(n / 2)
    }
}

/// The bits one packed coordinate takes on a grid of the given side: twice
/// the position of the side's highest set bit.
pub open spec fn derived_width(grid_dimension: u32) -> nat {
    2 * highest_set_bit(grid_dimension as nat)
}

/// The bit stream of a payload: each value's low `width` bits in turn.
pub open spec fn packed_bits(values: Seq<u32>, width: nat) -> Seq<bool>
    decreases values.len(),
{
    if values.len() == 0 {
        Seq::empty()
    } else {
        packed_bits(values.drop_last(), width) + bits_of(values.last(), width)
    }
}

/// The payload of a sequence of values: their bit stream, completed to
/// whole bytes with clear bits.
pub open spec fn encode_spec(values: Seq<u32>, width: nat) -> Seq<u8> {
    bits_to_bytes(pad_to_bytes(packed_bits(values, width)))
}

/// The values a bit stream holds: one for every full run of `width` bits,
/// in order; bits left over after the last full run are dropped.
pub open spec fn unpacked_values(bits: Seq<bool>, width: nat) -> Seq<u32>
    decreases bits.len(),
{
    if width == 0 || bits.len() < width {
        Seq::empty()
    } else {
        seq![value_of(bits.take(width as int)) as u32] + unpacked_values(
            bits.skip(width as int),
            width,
        )
    }
}

/// The set a payload decodes to.
pub open spec fn decode_spec(payload: Seq<u8>, width: nat) -> Seq<u32> {
    distinct_in_order(unpacked_values(bytes_to_bits(payload), width))
}

/// A payload's bit stream has `width` bits for every value.
pub proof fn lemma_packed_bits_len(values: Seq<u32>, width: nat)
    ensures
        packed_bits(values, width).len() == values.len() * width,
    decreases values.len(),
{
    if values.len() > 0 {
        lemma_packed_bits_len(values.drop_last(), width);
        assert((values.len() - 1) * width + width == values.len() * width) by (nonlinear_arith);
    }
}

/// A payload takes as many bytes as its values' bits need, rounded up.
pub proof fn lemma_encoded_len(values: Seq<u32>, width: nat)
    ensures
        encode_spec(values, width).len() == (values.len() * width + 7) / 8,
{
    lemma_packed_bits_len(values, width);
}

/// A bit stream holds one value for every full run of `width` bits: the
/// value at position `j` is spelt by the bits from `j * width` on.
pub proof fn lemma_unpacked_values_at(bits: Seq<bool>, width: nat, j: int)
    requires
        width >= 1,
        0 <= j,
        (j + 1) * width <= bits.len(),
    ensures
        j < unpacked_values(bits, width).len(),
        unpacked_values(bits, width)[j] == value_of(
            bits.subrange(j * width, j * width + width),
        ) as u32,
    decreases j,
{
    assert((j + 1) * width == j * width + width) by (nonlinear_arith);
    assert(j * width >= 0) by (nonlinear_arith)
        requires
            j >= 0,
            width >= 1,
    ;
    if j == 0 {
        assert(j * width == 0) by (nonlinear_arith)
            requires
                j == 0,
        ;
    } else {
        let rest = bits.skip(width as int);
        assert((j - 1 + 1) * width <= rest.len()) by (nonlinear_arith)
            requires
                (j + 1) * width <= bits.len(),
                rest.len() == bits.len() - width,
        ;
        lemma_unpacked_values_at(rest, width, j - 1);
        assert((j - 1) * width + width == j * width) by (nonlinear_arith);
        assert(rest.subrange((j - 1) * width, (j - 1) * width + width) =~= bits.subrange(
            j * width,
            j * width + width,
        ));
    }
}

/// A bit stream holds as many values as it has full runs of `width` bits.
pub proof fn lemma_unpacked_values_len(bits: Seq<bool>, width: nat)
    requires
        width >= 1,
    ensures
        unpacked_values(bits, width).len() == bits.len() / width,
    decreases bits.len(),
{
    if bits.len() < width {
        vstd::arithmetic::div_mod::lemma_basic_div(bits.len() as int, width as int);
    } else {
        lemma_unpacked_values_len(bits.skip(width as int), width);
        vstd::arithmetic::div_mod::lemma_div_plus_one(
            (bits.len() - width) as int,
            width as int,
        );
    }
}

/// The position of the highest set bit of `n`; 0 for 0.
pub fn bit_length(n: u32) -> (position: u32)
    ensures
        position == highest_set_bit(n as nat),
        position <= 31,
{
    let mut rest: u32 = n;
    let mut position: u32 = 0;
    proof {
        vstd::arithmetic::power2::lemma2_to64();
    }
    while rest > 1
        invariant
            position + highest_set_bit(rest as nat) == highest_set_bit(n as nat),
            rest as nat * vstd::arithmetic::power2::pow2(position as nat) <= n,
            position <= 31,
        decreases rest,
    {
        proof {
            vstd::arithmetic::power2::lemma_pow2_unfold((position + 1) as nat);
            vstd::arithmetic::power2::lemma2_to64();
            vstd::arithmetic::power2::lemma2_to64_rest();
            let p = vstd::arithmetic::power2::pow2(position as nat);
            assert((rest / 2) as nat * (2 * p) <= rest as nat * p) by (nonlinear_arith)
                requires
                    rest > 1,
                    p >= 0,
            ;
            if position >= 31 {
                vstd::arithmetic::power2::lemma_pow2_strictly_increases(31, (position + 1) as nat);
                assert((rest / 2) as nat * (2 * p) >= 2 * p) by (nonlinear_arith)
                    requires
                        rest / 2 >= 1,
                        p >= 0,
                ;
            }
        }
        rest = rest / 2;
        position = position + 1;
    }
    position
}

/// The bit width for a grid of the given side, refused when it is zero or
/// more than `MAX_WIDTH`: the sides from 2 to 8191 have a width, no other
/// has.
pub fn derive_width(grid_dimension: u32) -> (result: Result<u32, DecodeError>)
    ensures
        1 <= derived_width(grid_dimension) <= MAX_WIDTH ==> result == Ok::<u32, DecodeError>(
            derived_width(grid_dimension) as u32,
        ),
        !(1 <= derived_width(grid_dimension) <= MAX_WIDTH) ==> result == Err::<u32, DecodeError>(
            DecodeError::InvalidWidth,
        ),
        result is Ok <==> 2 <= grid_dimension < 8192,
{
    proof {
        lemma_derived_widths(grid_dimension);
    }
    let bits = 2 * bit_length(grid_dimension);
    if bits == 0 || bits > MAX_WIDTH {
        Err(DecodeError::InvalidWidth)
    } else {
        Ok(bits)
    }
}

/// The derived width side by side: sides from 2 to 3 take 2 bits, sides from
/// 4 to 7 take 4, and so on up to the sides from 4096 to 8191, which take
/// 24; a side below 2 derives no bits at all, a side from 8192 on more than
/// 24.
pub proof fn lemma_derived_widths(side: u32)
    ensures
        side < 2 ==> derived_width(side) == 0,
        2 <= side < 4 ==> derived_width(side) == 2,
        4 <= side < 8 ==> derived_width(side) == 4,
        8 <= side < 16 ==> derived_width(side) == 6,
        16 <= side < 32 ==> derived_width(side) == 8,
        32 <= side < 64 ==> derived_width(side) == 10,
        64 <= side < 128 ==> derived_width(side) == 12,
        128 <= side < 256 ==> derived_width(side) == 14,
        256 <= side < 512 ==> derived_width(side) == 16,
        512 <= side < 1024 ==> derived_width(side) == 18,
        1024 <= side < 2048 ==> derived_width(side) == 20,
        2048 <= side < 4096 ==> derived_width(side) == 22,
        4096 <= side < 8192 ==> derived_width(side) == 24,
        8192 <= side ==> derived_width(side) > 24,
{
    reveal_with_fuel(highest_set_bit, 15);
}

/// Packs the set's values, in insertion order, into `bits` bits each: the
/// payload takes the values' bits, rounded up to whole bytes. Of a value
/// wider than `bits` only the low bits are written.
pub fn encode(set: &CoordinateSet, bits: u32) -> (result: Result<Vec<u8>, DecodeError>)
    ensures
        valid_width(bits) ==> result is Ok && result->Ok_0@ == encode_spec(set@, bits as nat),
        valid_width(bits) ==> result->Ok_0@.len() == (set@.len() * bits + 7) / 8,
        !valid_width(bits) ==> result == Err::<Vec<u8>, DecodeError>(DecodeError::InvalidWidth),
{
    if bits == 0 || bits > MAX_WIDTH {
        return Err(DecodeError::InvalidWidth);
    }
    let mut writer = BitStreamWriter::new();
    let n = set.len();
    let mut i: usize = 0;
    while i < n
        invariant
            i <= n,
            n == set@.len(),
            valid_width(bits),
            writer@ == packed_bits(set@.take(i as int), bits as nat),
        decreases n - i,
    {
        let value = match set.get(i) {
            Some(value) => value,
            None => 0,
        };
        let _ = writer.write(value, bits);
        proof {
            assert(set@.take(i + 1).drop_last() =~= set@.take(i as int));
        }
        i = i + 1;
    }
    proof {
        assert(set@.take(n as int) =~= set@);
        lemma_encoded_len(set@, bits as nat);
    }
    Ok(writer.flush())
}

/// Unpacks values of `bits` bits each until fewer than `bits` bits are
/// left, and collects them: a value seen before changes nothing.
pub fn decode(payload: &[u8], bits: u32) -> (result: Result<CoordinateSet, DecodeError>)
    ensures
        valid_width(bits) ==> result is Ok && result->Ok_0@ == decode_spec(payload@, bits as nat),
        !valid_width(bits) ==> result is Err && result->Err_0 == DecodeError::InvalidWidth,
{
    if bits == 0 || bits > MAX_WIDTH {
        return Err(DecodeError::InvalidWidth);
    }
    let mut reader = BitStreamReader::new(payload);
    let mut set = CoordinateSet::new();
    let ghost mut seen: Seq<u32> = Seq::empty();
    loop
        invariant_except_break
            valid_width(bits),
            seen + unpacked_values(reader@, bits as nat) == unpacked_values(
                bytes_to_bits(payload@),
                bits as nat,
            ),
            set@ == distinct_in_order(seen),
        ensures
            set@ == decode_spec(payload@, bits as nat),
        decreases reader@.len(),
    {
        match reader.read(bits) {
            Ok(Some(value)) => {
                set.insert(value);
                proof {
                    assert(seen.push(value).drop_last() =~= seen);
                    seen = seen.push(value);
                }
            },
            _ => {
                break ;
            },
        }
    }
    Ok(set)
}

} // verus!
