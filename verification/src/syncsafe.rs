//! Syncsafe integers: big-endian integers stored seven bits to a byte, so
//! that no byte of them has its top bit set.

use crate::errors::Error;
use crate::io::{advanced, lemma_advanced_twice, Bytestream};
use vstd::arithmetic::power2::pow2;
use vstd::prelude::*;

verus! {

/// The number of bytes that hold a syncsafe integer of `bit_width` bits:
/// `bit_width / 7`, rounded up.
pub open spec fn syncsafe_len(bit_width: nat) -> nat {
    (bit_width + 6) / 7
}

/// The low seven bits of each byte, joined with the first byte's group as
/// the most significant.
pub open spec fn syncsafe_accumulate(bytes: Seq<u8>) -> nat
    decreases bytes.len(),
{
    if bytes.len() == 0 {
        0
    } else {
        (128 * syncsafe_accumulate(bytes.drop_last()) + bytes.last() % 128) as nat
    }
}

/// The syncsafe integer of `bit_width` bits that `bytes` hold: the joined
/// groups, cut down to their low `bit_width` bits.
pub open spec fn syncsafe_value(bytes: Seq<u8>, bit_width: nat) -> nat {
    syncsafe_accumulate(bytes) % pow2(bit_width)
}

/// Seven bits fewer than a bound stay under the bound when seven more are
/// shifted in, and shifting and or-ing agree with multiplying and adding.
proof fn lemma_push_group(acc: u64, byte: u8)
    by (bit_vector)
    requires
        acc < 0x1000_0000,
    ensures
        (acc << 7) | ((byte & 0x7f) as u64) == 128 * acc + byte % 128,
        acc < 0x80 ==> (acc << 7) | ((byte & 0x7f) as u64) < 0x4000,
        acc < 0x4000 ==> (acc << 7) | ((byte & 0x7f) as u64) < 0x20_0000,
        acc < 0x20_0000 ==> (acc << 7) | ((byte & 0x7f) as u64) < 0x1000_0000,
        acc == 0 ==> (acc << 7) | ((byte & 0x7f) as u64) < 0x80,
{
}

/// Masking with the low `bit_width` bits is the remainder by `2^bit_width`.
proof fn lemma_mask_is_mod(acc: u64, bit_width: u32)
    requires
        bit_width <= 32,
    ensures
        1 <= (1u64 << bit_width) <= 0x1_0000_0000,
        acc & (((1u64 << bit_width) - 1) as u64) <= 0xffff_ffff,
        acc & (((1u64 << bit_width) - 1) as u64) == (acc as nat) % pow2(bit_width as nat),
{
    assert(1 <= (1u64 << bit_width) <= 0x1_0000_0000 && acc & (((1u64 << bit_width) - 1) as u64)
        <= 0xffff_ffff) by (bit_vector)
        requires
            bit_width <= 32,
    ;
    let width = bit_width as u64;
    vstd::arithmetic::power2::lemma2_to64();
    if bit_width < 32 {
        vstd::arithmetic::power2::lemma_pow2_strictly_increases(bit_width as nat, 32);
    }
    vstd::bits::lemma_u64_shl_is_mul(1, width);
    assert(1u64 << bit_width == 1u64 << width) by (bit_vector)
        requires
            width == bit_width as u64,
    ;
    vstd::bits::lemma_u64_low_bits_mask_is_mod(acc, bit_width as nat);
}

/// Reads a syncsafe integer of `bit_width` bits, at most 32.
///
/// Bytes are read one at a time until they have given at least `bit_width`
/// bits, seven each and the top bit of each byte left out; that takes
/// `bit_width / 7` bytes, rounded up. The result is the low `bit_width` bits
/// of what was gathered. Nothing fails but the reads.
pub fn read_syncsafe_leq32<B: Bytestream>(reader: &mut B, bit_width: u32) -> (r: Result<u32, Error>)
    requires
        bit_width <= 32,
    ensures
        r is Ok <==> old(reader).remaining().len() >= syncsafe_len(bit_width as nat),
        r is Ok ==> r->Ok_0 == syncsafe_value(
            old(reader).remaining().take(syncsafe_len(bit_width as nat) as int),
            bit_width as nat,
        ),
        r is Ok ==> advanced(*old(reader), *final(reader), syncsafe_len(bit_width as nat)),
        r is Err ==> r->Err_0 is IoError,
{
    let ghost input = reader.remaining();
    let mut acc: u64 = 0;
    let mut bits_read: u32 = 0;
    let ghost mut count: nat = 0;
    proof {
        assert(input.skip(0) =~= input);
    }
    while bits_read < bit_width
        invariant
            bit_width <= 32,
            input == old(reader).remaining(),
            bits_read == 7 * count,
            bits_read < bit_width + 7,
            count <= input.len(),
            advanced(*old(reader), *reader, count),
            acc == syncsafe_accumulate(input.take(count as int)),
            count == 0 ==> acc == 0,
            count == 1 ==> acc < 0x80,
            count == 2 ==> acc < 0x4000,
            count == 3 ==> acc < 0x20_0000,
            count == 4 ==> acc < 0x1000_0000,
        decreases bit_width + 7 - bits_read,
    {
        let ghost before = *reader;
        let byte = match reader.read_byte() {
            Ok(byte) => byte,
            Err(e) => {
                return Err(Error::IoError(e));
            },
        };
        proof {
            lemma_advanced_twice(*old(reader), before, *reader, count, 1);
            lemma_push_group(acc, byte);
            let next = input.take(count as int + 1);
            assert(next.drop_last() =~= input.take(count as int));
            count = count + 1;
        }
        acc = (acc << 7) | ((byte & 0x7f) as u64);
        bits_read += 7;
    }
    proof {
        lemma_mask_is_mod(acc, bit_width);
    }
    let mask: u64 = (1u64 << bit_width) - 1;
    Ok((acc & mask) as u32)
}

} // verus!
