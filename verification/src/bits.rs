//! The mathematical model of a bit stream: sequences of bits, most
//! significant bit first, and how they relate to values and to bytes.

use vstd::arithmetic::power2::{lemma_pow2_unfold, pow2};
use vstd::prelude::*;

verus! {

/// Bit number `index` of `value`, bit 0 being the least significant.
pub open spec fn bit_of(value: u32, index: u32) -> bool {
    (value >> index) & 1 == 1
}

/// The low `width` bits of `value`, most significant first.
pub open spec fn bits_of(value: u32, width: nat) -> Seq<bool> {
    Seq::new(width, |i: int| bit_of(value, (width - 1 - i) as u32))
}

/// The number that a run of bits spells, most significant first.
pub open spec fn value_of(bits: Seq<bool>) -> nat
    decreases bits.len(),
{
    if bits.len() == 0 {
        0
    } else {
        2 * value_of(bits.drop_last()) + if bits.last() {
            1nat
        } else {
            0nat
        }
    }
}

/// A run of `n` clear bits.
pub open spec fn zero_bits(n: nat) -> Seq<bool> {
    Seq::new(n, |i: int| false)
}

/// The bits of a byte string: eight per byte, most significant first.
pub open spec fn bytes_to_bits(bytes: Seq<u8>) -> Seq<bool> {
    Seq::new(8 * bytes.len(), |i: int| bit_of(bytes[i / 8] as u32, (7 - i % 8) as u32))
}

/// The bytes that whole groups of eight bits spell; a trailing group of
/// fewer than eight bits is left out.
pub open spec fn bits_to_bytes(bits: Seq<bool>) -> Seq<u8> {
    Seq::new(bits.len() / 8, |j: int| value_of(bits.subrange(8 * j, 8 * j + 8)) as u8)
}

/// How many clear bits bring a stream of `n` bits to a whole number of bytes.
pub open spec fn pad_len(n: nat) -> nat {
    ((8 - n % 8) % 8) as nat
}

/// A bit stream followed by the clear bits that complete its last byte.
pub open spec fn pad_to_bytes(bits: Seq<bool>) -> Seq<bool> {
    bits + zero_bits(pad_len(bits.len()))
}

/// A run of bits spells a number below two to the power of its length.
pub proof fn lemma_value_of_bound(bits: Seq<bool>)
    ensures
        value_of(bits) < pow2(bits.len()),
    decreases bits.len(),
{
    if bits.len() == 0 {
        lemma_pow2_unfold(1);
        vstd::arithmetic::power2::lemma2_to64();
    } else {
        lemma_value_of_bound(bits.drop_last());
        lemma_pow2_unfold(bits.len());
    }
}

proof fn lemma_halve(value: u32)
    by (bit_vector)
    ensures
        value >> 1 == value / 2,
        value & 1 == value % 2,
        bit_of(value, 0) == (value % 2 == 1),
        forall|k: u32| k < 31 ==> #[trigger] bit_of(value >> 1, k) == bit_of(value, (k + 1) as u32),
{
}

/// Spelling out the low `width` bits of a value that fits in them and
/// reading the bits back gives the value.
pub proof fn lemma_value_of_bits_of(value: u32, width: nat)
    requires
        width <= 32,
        value < pow2(width),
    ensures
        value_of(bits_of(value, width)) == value,
    decreases width,
{
    let bits = bits_of(value, width);
    if width == 0 {
        vstd::arithmetic::power2::lemma2_to64();
    } else {
        let half = value >> 1;
        lemma_halve(value);
        lemma_pow2_unfold(width);
        assert(bits.drop_last() =~= bits_of(half, (width - 1) as nat)) by {
            assert forall|i: int| 0 <= i < width - 1 implies bits[i] == bits_of(
                half,
                (width - 1) as nat,
            )[i] by {
                let k = (width - 2 - i) as u32;
                assert(bit_of(half, k) == bit_of(value, (k + 1) as u32));
            }
        }
        lemma_value_of_bits_of(half, (width - 1) as nat);
        assert(bits.last() == bit_of(value, 0));
    }
}

proof fn lemma_double(high: u32, low: u32, value: u32)
    by (bit_vector)
    requires
        high < 0x8000_0000u32,
        low <= 1,
        value == 2 * high + low,
    ensures
        bit_of(value, 0) == (low == 1),
        forall|k: u32| k < 31 ==> #[trigger] bit_of(value, (k + 1) as u32) == bit_of(high, k),
{
}

/// Reading a run of at most 32 bits as a number and spelling that number
/// out in as many bits gives the run back.
pub proof fn lemma_bits_of_value_of(bits: Seq<bool>)
    requires
        bits.len() <= 32,
    ensures
        value_of(bits) <= u32::MAX,
        bits_of(value_of(bits) as u32, bits.len()) == bits,
    decreases bits.len(),
{
    lemma_value_of_bound(bits);
    vstd::arithmetic::power2::lemma2_to64();
    vstd::arithmetic::power2::lemma_pow2_strictly_increases(bits.len(), 33);
    vstd::arithmetic::power2::lemma2_to64_rest();
    if bits.len() == 0 {
        assert(bits_of(0, 0) =~= bits);
    } else {
        let front = bits.drop_last();
        lemma_bits_of_value_of(front);
        lemma_value_of_bound(front);
        vstd::arithmetic::power2::lemma_pow2_strictly_increases(front.len(), 32);
        let high = value_of(front) as u32;
        let value = value_of(bits) as u32;
        lemma_double(high, if bits.last() { 1 } else { 0 }, value);
        assert(bits_of(value, bits.len()) =~= bits) by {
            assert forall|i: int| 0 <= i < bits.len() implies bits_of(value, bits.len())[i]
                == bits[i] by {
                if i < bits.len() - 1 {
                    let k = (bits.len() - 2 - i) as u32;
                    assert(bit_of(value, (k + 1) as u32) == bit_of(high, k));
                    assert(bits_of(high, front.len())[i] == front[i]);
                }
            }
        }
    }
}

proof fn lemma_zero_has_no_bits()
    by (bit_vector)
    ensures
        forall|k: u32| k < 32 ==> !#[trigger] bit_of(0, k),
{
}

/// Zero spells out as clear bits only.
pub proof fn lemma_bits_of_zero(width: nat)
    requires
        width <= 32,
    ensures
        bits_of(0, width) == zero_bits(width),
{
    lemma_zero_has_no_bits();
    assert(bits_of(0, width) =~= zero_bits(width)) by {
        assert forall|i: int| 0 <= i < width implies !bits_of(0, width)[i] by {
            assert(!bit_of(0, (width - 1 - i) as u32));
        }
    }
}

/// A run of clear bits spells zero.
pub proof fn lemma_value_of_zero_bits(n: nat)
    ensures
        value_of(zero_bits(n)) == 0,
    decreases n,
{
    if n > 0 {
        assert(zero_bits(n).drop_last() =~= zero_bits((n - 1) as nat));
        lemma_value_of_zero_bits((n - 1) as nat);
    }
}

/// One more byte at the end of a byte string adds its eight bits at the
/// end of the bit stream.
pub proof fn lemma_bytes_to_bits_push(bytes: Seq<u8>, byte: u8)
    ensures
        bytes_to_bits(bytes.push(byte)) == bytes_to_bits(bytes) + bits_of(byte as u32, 8),
{
    assert(bytes_to_bits(bytes.push(byte)) =~= bytes_to_bits(bytes) + bits_of(byte as u32, 8));
}

/// The bit stream of a byte string starts with the eight bits of its first
/// byte.
pub proof fn lemma_bytes_to_bits_first(bytes: Seq<u8>)
    requires
        bytes.len() > 0,
    ensures
        bytes_to_bits(bytes) == bits_of(bytes[0] as u32, 8) + bytes_to_bits(bytes.skip(1)),
{
    assert(bytes_to_bits(bytes) =~= bits_of(bytes[0] as u32, 8) + bytes_to_bits(bytes.skip(1)))
        by {
        assert forall|i: int| 8 <= i < 8 * bytes.len() implies bytes_to_bits(bytes)[i]
            == bytes_to_bits(bytes.skip(1))[i - 8] by {
            assert(bytes.skip(1)[(i - 8) / 8] == bytes[i / 8]);
        }
    }
}

/// Turning bytes into bits and the bits back into bytes changes nothing.
pub proof fn lemma_bits_to_bytes_to_bits(bytes: Seq<u8>)
    ensures
        bits_to_bytes(bytes_to_bits(bytes)) == bytes,
{
    let bits = bytes_to_bits(bytes);
    assert(bits_to_bytes(bits) =~= bytes) by {
        assert forall|j: int| 0 <= j < bytes.len() implies bits_to_bytes(bits)[j] == bytes[j] by {
            let byte = bytes[j];
            assert(bits.subrange(8 * j, 8 * j + 8) =~= bits_of(byte as u32, 8)) by {
                assert forall|i: int| 0 <= i < 8 implies #[trigger] bits.subrange(
                    8 * j,
                    8 * j + 8,
                )[i] == bits_of(byte as u32, 8)[i] by {
                    assert((8 * j + i) / 8 == j);
                    assert((8 * j + i) % 8 == i);
                }
            }
            vstd::arithmetic::power2::lemma2_to64();
            lemma_value_of_bits_of(byte as u32, 8);
        }
    }
}

/// Turning whole bytes' worth of bits into bytes and the bytes back into
/// bits changes nothing.
pub proof fn lemma_bytes_to_bits_to_bytes(bits: Seq<bool>)
    requires
        bits.len() % 8 == 0,
    ensures
        bytes_to_bits(bits_to_bytes(bits)) == bits,
{
    let bytes = bits_to_bytes(bits);
    assert(bytes_to_bits(bytes) =~= bits) by {
        assert forall|i: int| 0 <= i < bits.len() implies bytes_to_bits(bytes)[i] == bits[i] by {
            let j = i / 8;
            let group = bits.subrange(8 * j, 8 * j + 8);
            lemma_bits_of_value_of(group);
            lemma_value_of_bound(group);
            vstd::arithmetic::power2::lemma2_to64();
            assert(bytes[j] as u32 == value_of(group) as u32);
            assert(bits_of(value_of(group) as u32, 8)[i % 8] == group[i % 8]);
        }
    }
}

/// The whole bytes of a bit stream are the bytes it began with, where
/// fewer than eight bits follow them.
pub proof fn lemma_whole_bytes(bytes: Seq<u8>, tail: Seq<bool>)
    requires
        tail.len() < 8,
    ensures
        bits_to_bytes(bytes_to_bits(bytes) + tail) == bytes,
{
    let bits = bytes_to_bits(bytes) + tail;
    lemma_bits_to_bytes_to_bits(bytes);
    assert(bits_to_bytes(bits) =~= bits_to_bytes(bytes_to_bits(bytes))) by {
        assert forall|j: int| 0 <= j < bytes.len() implies bits_to_bytes(bits)[j]
            == bits_to_bytes(bytes_to_bits(bytes))[j] by {
            assert(bits.subrange(8 * j, 8 * j + 8) =~= bytes_to_bits(bytes).subrange(
                8 * j,
                8 * j + 8,
            ));
        }
    }
}

} // verus!
