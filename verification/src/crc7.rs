//! The seven-bit checksum that closes a command frame.
//!
//! The message is divided, bit by bit and most significant bit first, by
//! the generator x^7 + x^3 + 1 in a register that starts out as all ones.
//! What is left in the register is the checksum.

use vstd::prelude::*;

verus! {

/// The generator x^7 + x^3 + 1 without its leading term.
pub const CRC7_POLYNOMIAL: u8 = 0x09;

/// The register before the first message bit.
pub const CRC7_SEED: u8 = 0x7F;

/// Bit `k` of `byte`, counting from the most significant one.
pub open spec fn message_bit(byte: u8, k: u8) -> bool {
    byte & (0x80u8 >> k) != 0
}

/// The register after one more message bit: it moves up by one place, and
/// the generator is subtracted where the bit that left it differs from `bit`.
pub open spec fn crc7_bit(reg: u8, bit: bool) -> u8 {
    let shifted = (reg << 1) & 0x7F;
    if (reg & 0x40 != 0) != bit {
        shifted ^ CRC7_POLYNOMIAL
    } else {
        shifted
    }
}

/// The register after the `n` leading bits of `byte`.
pub open spec fn crc7_bits(reg: u8, byte: u8, n: nat) -> u8
    decreases n,
{
    if n == 0 {
        reg
    } else {
        crc7_bit(crc7_bits(reg, byte, (n - 1) as nat), message_bit(byte, (n - 1) as u8))
    }
}

/// The register after all eight bits of `byte`.
pub open spec fn crc7_byte(reg: u8, byte: u8) -> u8 {
    crc7_bits(reg, byte, 8)
}

/// The register after every byte of `data`, starting from `reg`.
pub open spec fn crc7_from(reg: u8, data: Seq<u8>) -> u8
    decreases data.len(),
{
    if data.len() == 0 {
        reg
    } else {
        crc7_byte(crc7_from(reg, data.drop_last()), data.last())
    }
}

/// The checksum of `data`.
pub open spec fn checksum(data: Seq<u8>) -> u8 {
    crc7_from(CRC7_SEED, data)
}

/// `byte` with bit `k` inverted, counting from the most significant one.
pub open spec fn with_bit_flipped(byte: u8, k: u8) -> u8 {
    byte ^ (0x80u8 >> k)
}

/// A register of seven bits keeps to seven bits.
proof fn lemma_register_range(reg: u8, data: Seq<u8>)
    requires
        reg < 0x80,
    ensures
        crc7_from(reg, data) < 0x80,
{
    if data.len() > 0 {
        let before = crc7_bits(crc7_from(reg, data.drop_last()), data.last(), 7);
        let bit = message_bit(data.last(), 7);
        assert(crc7_bit(before, bit) < 0x80) by (bit_vector);
    }
}

/// The checksum has seven bits.
pub proof fn lemma_checksum_range(data: Seq<u8>)
    ensures
        checksum(data) < 0x80,
{
    lemma_register_range(CRC7_SEED, data);
}

/// Registers that differ still differ after the same message bit, and one
/// register is taken to different registers by different message bits.
proof fn lemma_bit_keeps_apart(a: u8, b: u8, bit: bool)
    by (bit_vector)
    requires
        a < 0x80,
        b < 0x80,
    ensures
        crc7_bit(a, bit) < 0x80,
        a != b ==> crc7_bit(a, bit) != crc7_bit(b, bit),
        crc7_bit(a, true) != crc7_bit(a, false),
{
}

/// Inverting bit `k` of a byte changes that message bit and no other.
proof fn lemma_flip_changes_one_bit(byte: u8, k: u8, j: u8)
    by (bit_vector)
    requires
        k < 8,
        j < 8,
    ensures
        j != k ==> message_bit(with_bit_flipped(byte, k), j) == message_bit(byte, j),
        message_bit(with_bit_flipped(byte, k), k) != message_bit(byte, k),
{
}

/// Registers that differ still differ after the same leading bits of a byte.
proof fn lemma_bits_keep_apart(a: u8, b: u8, byte: u8, n: nat)
    requires
        a < 0x80,
        b < 0x80,
        a != b,
        n <= 8,
    ensures
        crc7_bits(a, byte, n) < 0x80,
        crc7_bits(b, byte, n) < 0x80,
        crc7_bits(a, byte, n) != crc7_bits(b, byte, n),
    decreases n,
{
    if n > 0 {
        lemma_bits_keep_apart(a, b, byte, (n - 1) as nat);
        let bit = message_bit(byte, (n - 1) as u8);
        lemma_bit_keeps_apart(
            crc7_bits(a, byte, (n - 1) as nat),
            crc7_bits(b, byte, (n - 1) as nat),
            bit,
        );
        lemma_bit_keeps_apart(
            crc7_bits(b, byte, (n - 1) as nat),
            crc7_bits(a, byte, (n - 1) as nat),
            bit,
        );
    }
}

/// A byte and the same byte with bit `k` inverted take a register to the
/// same register as long as bit `k` has not been reached, and to different
/// registers from then on.
proof fn lemma_flipped_bits_part(reg: u8, byte: u8, k: u8, n: nat)
    requires
        reg < 0x80,
        k < 8,
        n <= 8,
    ensures
        crc7_bits(reg, byte, n) < 0x80,
        crc7_bits(reg, with_bit_flipped(byte, k), n) < 0x80,
        n <= k ==> crc7_bits(reg, with_bit_flipped(byte, k), n) == crc7_bits(reg, byte, n),
        n > k ==> crc7_bits(reg, with_bit_flipped(byte, k), n) != crc7_bits(reg, byte, n),
    decreases n,
{
    if n > 0 {
        let flipped = with_bit_flipped(byte, k);
        let j = (n - 1) as u8;
        lemma_flipped_bits_part(reg, byte, k, (n - 1) as nat);
        lemma_flip_changes_one_bit(byte, k, j);
        let plain = crc7_bits(reg, byte, (n - 1) as nat);
        let other = crc7_bits(reg, flipped, (n - 1) as nat);
        lemma_bit_keeps_apart(plain, other, message_bit(byte, j));
        lemma_bit_keeps_apart(other, plain, message_bit(flipped, j));
    }
}

/// The checksum detects every single-bit error: a message and the same
/// message with one bit of one byte inverted never have the same checksum.
pub proof fn lemma_single_bit_error_changes_checksum(data: Seq<u8>, at: int, k: u8)
    requires
        0 <= at < data.len(),
        k < 8,
    ensures
        checksum(data.update(at, with_bit_flipped(data[at], k))) != checksum(data),
    decreases data.len(),
{
    let damaged = data.update(at, with_bit_flipped(data[at], k));
    let reg = crc7_from(CRC7_SEED, data.drop_last());
    lemma_register_range(CRC7_SEED, data.drop_last());
    if at == data.len() - 1 {
        assert(damaged.drop_last() == data.drop_last());
        lemma_flipped_bits_part(reg, data[at], k, 8);
    } else {
        assert(damaged.drop_last() == data.drop_last().update(
            at,
            with_bit_flipped(data.drop_last()[at], k),
        ));
        lemma_single_bit_error_changes_checksum(data.drop_last(), at, k);
        lemma_register_range(CRC7_SEED, damaged.drop_last());
        lemma_bits_keep_apart(crc7_from(CRC7_SEED, damaged.drop_last()), reg, data.last(), 8);
    }
}

/// One shift of the register held one place up, with the rest of the
/// message byte folded into it, is one message bit divided in.
proof fn lemma_shift_divides(reg: u8, byte: u8, k: u8, acc: u8)
    by (bit_vector)
    requires
        k < 8,
        reg < 0x80,
        acc == (reg << 1) ^ (byte << k),
    ensures
        ({
            let next = if acc & 0x80 != 0 {
                (acc << 1) ^ 0x12
            } else {
                acc << 1
            };
            let divided = crc7_bit(reg, message_bit(byte, k));
            &&& divided < 0x80
            &&& k < 7 ==> next == (divided << 1) ^ (byte << ((k + 1) as u8))
            &&& k == 7 ==> next == divided << 1
        }),
{
}

/// A register held one place up comes back down unchanged.
proof fn lemma_held_up(reg: u8)
    by (bit_vector)
    requires
        reg < 0x80,
    ensures
        (reg << 1) >> 1 == reg,
{
}

/// Divides one byte into the register.
fn crc7_update(reg: u8, byte: u8) -> (next: u8)
    requires
        reg < 0x80,
    ensures
        next == crc7_byte(reg, byte),
        next < 0x80,
{
    // The register is held one place up, so that the whole byte can be
    // folded in before the first shift.
    let mut acc: u8 = (reg << 1) ^ byte;
    let mut k: u8 = 0;
    assert(byte << 0 == byte) by (bit_vector);
    while k < 8
        invariant
            k <= 8,
            crc7_bits(reg, byte, k as nat) < 0x80,
            k < 8 ==> acc == (crc7_bits(reg, byte, k as nat) << 1) ^ (byte << k),
            k == 8 ==> acc == crc7_bits(reg, byte, 8) << 1,
        decreases 8 - k,
    {
        proof {
            lemma_shift_divides(crc7_bits(reg, byte, k as nat), byte, k, acc);
        }
        acc = if acc & 0x80 != 0 {
            (acc << 1) ^ 0x12
        } else {
            acc << 1
        };
        k += 1;
    }
    proof {
        lemma_held_up(crc7_bits(reg, byte, 8));
    }
    acc >> 1
}

/// Computes the checksum of `data`: a value below 128 that depends on the
/// bytes of `data` alone. The checksum of no bytes is `0x7F`, that of
/// `C9 00 10 00` is `0x60`.
pub fn crc7(data: &[u8]) -> (crc: u8)
    ensures
        crc == checksum(data@),
        crc < 0x80,
{
    let mut reg: u8 = CRC7_SEED;
    let mut i: usize = 0;
    while i < data.len()
        invariant
            i <= data@.len(),
            reg == crc7_from(CRC7_SEED, data@.take(i as int)),
            reg < 0x80,
        decreases data@.len() - i,
    {
        proof {
            assert(data@.take(i + 1).drop_last() == data@.take(i as int));
        }
        reg = crc7_update(reg, data[i]);
        i += 1;
    }
    proof {
        assert(data@.take(i as int) == data@);
    }
    reg
}

} // verus!
