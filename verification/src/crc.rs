//! CRC-8 with polynomial 0x07, initial value 0, no reflection, no final xor.

use vstd::prelude::*;

verus! {

/// One shift step of the CRC register: shift left, xor the polynomial when
/// the bit shifted out was set.
pub open spec fn crc_shift(c: u8) -> u8 {
    if c & 0x80u8 != 0u8 {
        (c << 1u8) ^ 0x07u8
    } else {
        c << 1u8
    }
}

/// `n` shift steps of the CRC register.
pub open spec fn crc_shifts(c: u8, n: nat) -> u8
    decreases n,
{
    if n == 0 {
        c
    } else {
        crc_shift(crc_shifts(c, (n - 1) as nat))
    }
}

/// The register after feeding one byte.
pub open spec fn crc_step(crc: u8, byte: u8) -> u8 {
    crc_shifts(crc ^ byte, 8)
}

/// The register after feeding `data`, starting from `init`.
pub open spec fn crc_from(init: u8, data: Seq<u8>) -> u8
    decreases data.len(),
{
    if data.len() == 0 {
        init
    } else {
        crc_step(crc_from(init, data.drop_last()), data.last())
    }
}

/// The CRC-8 of a byte sequence.
pub open spec fn crc8_of(data: Seq<u8>) -> u8 {
    crc_from(0, data)
}

/// Feeds one byte into a running CRC-8 register.
pub fn crc8_update(crc: u8, byte: u8) -> (r: u8)
    ensures
        r == crc_step(crc, byte),
{
    let mut crc = crc ^ byte;
    let ghost start = crc;
    let mut i: u8 = 0;
    while i < 8
        invariant
            i <= 8,
            crc == crc_shifts(start, i as nat),
        decreases 8 - i,
    {
        if (crc & 0x80) != 0 {
            crc = (crc << 1) ^ 0x07;
        } else {
            crc = crc << 1;
        }
        i = i + 1;
    }
    crc
}

/// The CRC-8 of a whole byte slice.
pub fn crc8(data: &[u8]) -> (r: u8)
    ensures
        r == crc8_of(data@),
{
    let mut crc: u8 = 0x00;
    let mut i: usize = 0;
    while i < data.len()
        invariant
            i <= data@.len(),
            crc == crc_from(0, data@.take(i as int)),
        decreases data.len() - i,
    {
        proof {
            assert(data@.take(i + 1).drop_last() =~= data@.take(i as int));
        }
        crc = crc8_update(crc, data[i]);
        i = i + 1;
    }
    proof {
        assert(data@.take(data@.len() as int) =~= data@);
    }
    crc
}

/// Four shift steps of the CRC register, written out.
pub open spec fn crc_shift4(c: u8) -> u8 {
    crc_shift(crc_shift(crc_shift(crc_shift(c))))
}

/// The shifts of one byte, written out step by step.
proof fn lemma_step_unrolled(crc: u8, byte: u8)
    ensures
        crc_step(crc, byte) == crc_shift4(crc_shift4(crc ^ byte)),
{
    reveal_with_fuel(crc_shifts, 9);
}

/// Feeding a byte is injective in the register value.
proof fn lemma_step_injective_register(c1: u8, c2: u8, byte: u8)
    requires
        crc_step(c1, byte) == crc_step(c2, byte),
    ensures
        c1 == c2,
{
    lemma_step_unrolled(c1, byte);
    lemma_step_unrolled(c2, byte);
    assert(crc_shift4(crc_shift4(c1 ^ byte)) == crc_shift4(crc_shift4(c2 ^ byte)) ==> c1 == c2)
        by (bit_vector);
}

/// Feeding a byte is injective in the byte.
proof fn lemma_step_injective_byte(c: u8, b1: u8, b2: u8)
    requires
        crc_step(c, b1) == crc_step(c, b2),
    ensures
        b1 == b2,
{
    lemma_step_unrolled(c, b1);
    lemma_step_unrolled(c, b2);
    assert(crc_shift4(crc_shift4(c ^ b1)) == crc_shift4(crc_shift4(c ^ b2)) ==> b1 == b2)
        by (bit_vector);
}

/// Feeding a concatenation is feeding the first part, then the second.
pub proof fn lemma_crc_from_concat(init: u8, a: Seq<u8>, b: Seq<u8>)
    ensures
        crc_from(init, a + b) == crc_from(crc_from(init, a), b),
    decreases b.len(),
{
    if b.len() == 0 {
        assert(a + b =~= a);
    } else {
        lemma_crc_from_concat(init, a, b.drop_last());
        assert((a + b).drop_last() =~= a + b.drop_last());
    }
}

/// Changing exactly one byte of the data always changes the CRC-8: the
/// checksum detects every single corrupted byte, whatever register it starts from.
pub proof fn lemma_single_byte_corruption_detected(init: u8, data: Seq<u8>, i: int, b: u8)
    requires
        0 <= i < data.len(),
        b != data[i],
    ensures
        crc_from(init, data.update(i, b)) != crc_from(init, data),
    decreases data.len(),
{
    let bad = data.update(i, b);
    if i == data.len() - 1 {
        assert(bad.drop_last() =~= data.drop_last());
        if crc_from(init, bad) == crc_from(init, data) {
            lemma_step_injective_byte(crc_from(init, data.drop_last()), b, data.last());
        }
    } else {
        assert(bad.drop_last() =~= data.drop_last().update(i, b));
        lemma_single_byte_corruption_detected(init, data.drop_last(), i, b);
        if crc_from(init, bad) == crc_from(init, data) {
            lemma_step_injective_register(
                crc_from(init, bad.drop_last()),
                crc_from(init, data.drop_last()),
                data.last(),
            );
        }
    }
}

} // verus!
