//! Cyclic redundancy checks of the serial link.
//!
//! The checksum of a byte string is defined here bit by bit, as the remainder
//! register of a shift-and-subtract division. The executable routines hand the
//! computation to the table-driven `crc` crate.

use vstd::prelude::*;

verus! {

/// Generator polynomial of CRC-32/MPEG-2, without its leading term.
pub const CRC32_POLYNOMIAL: u32 = 0x04C1_1DB7;

/// Initial value of the CRC-32/MPEG-2 register.
pub const CRC32_INITIAL: u32 = 0xFFFF_FFFF;

/// One division step: the register moves one bit to the left, and the
/// polynomial is subtracted when a set bit falls out.
pub open spec fn crc32_shift(register: u32) -> u32 {
    if register & 0x8000_0000 != 0 {
        (register << 1) ^ CRC32_POLYNOMIAL
    } else {
        register << 1
    }
}

/// Feeds one message byte, most significant bit first, into the register.
pub open spec fn crc32_absorb(register: u32, byte: u8) -> u32 {
    let start = register ^ ((byte as u32) << 24);
    crc32_shift(
        crc32_shift(
            crc32_shift(
                crc32_shift(crc32_shift(crc32_shift(crc32_shift(crc32_shift(start))))),
            ),
        ),
    )
}

/// CRC-32/MPEG-2 of `data`: width 32, polynomial `0x04C11DB7`, initial value
/// `0xFFFFFFFF`, no reflection of input or output, no final exclusive-or.
pub open spec fn crc32_mpeg2(data: Seq<u8>) -> u32
    decreases data.len(),
{
    if data.len() == 0 {
        CRC32_INITIAL
    } else {
        crc32_absorb(crc32_mpeg2(data.drop_last()), data.last())
    }
}

/// A division step loses nothing: distinct registers stay distinct.
pub proof fn lemma_crc32_shift_injective(a: u32, b: u32)
    requires
        a != b,
    ensures
        crc32_shift(a) != crc32_shift(b),
{
    assert((if a & 0x8000_0000 != 0 {
        (a << 1) ^ 0x04C1_1DB7u32
    } else {
        a << 1
    }) != (if b & 0x8000_0000 != 0 {
        (b << 1) ^ 0x04C1_1DB7u32
    } else {
        b << 1
    })) by (bit_vector)
        requires
            a != b,
    ;
}

/// Absorbing a byte keeps distinct registers distinct, and from one register
/// distinct bytes lead to distinct registers.
pub proof fn lemma_crc32_absorb_injective(a: u32, x: u8, b: u32, y: u8)
    requires
        (a != b && x == y) || (a == b && x != y),
    ensures
        crc32_absorb(a, x) != crc32_absorb(b, y),
{
    let s0 = a ^ ((x as u32) << 24);
    let t0 = b ^ ((y as u32) << 24);
    assert(s0 != t0) by (bit_vector)
        requires
            (a != b && x == y) || (a == b && x != y),
            s0 == a ^ ((x as u32) << 24),
            t0 == b ^ ((y as u32) << 24),
    ;
    let s1 = crc32_shift(s0);
    let t1 = crc32_shift(t0);
    lemma_crc32_shift_injective(s0, t0);
    let s2 = crc32_shift(s1);
    let t2 = crc32_shift(t1);
    lemma_crc32_shift_injective(s1, t1);
    let s3 = crc32_shift(s2);
    let t3 = crc32_shift(t2);
    lemma_crc32_shift_injective(s2, t2);
    let s4 = crc32_shift(s3);
    let t4 = crc32_shift(t3);
    lemma_crc32_shift_injective(s3, t3);
    let s5 = crc32_shift(s4);
    let t5 = crc32_shift(t4);
    lemma_crc32_shift_injective(s4, t4);
    let s6 = crc32_shift(s5);
    let t6 = crc32_shift(t5);
    lemma_crc32_shift_injective(s5, t5);
    let s7 = crc32_shift(s6);
    let t7 = crc32_shift(t6);
    lemma_crc32_shift_injective(s6, t6);
    lemma_crc32_shift_injective(s7, t7);
}

/// Two messages of one length that differ in exactly one byte have different
/// checksums. A single flipped bit is the smallest such difference.
pub proof fn lemma_crc32_detects_one_changed_byte(a: Seq<u8>, b: Seq<u8>, at: int)
    requires
        a.len() == b.len(),
        0 <= at < a.len(),
        a[at] != b[at],
        forall|j: int| 0 <= j < a.len() && j != at ==> a[j] == b[j],
    ensures
        crc32_mpeg2(a) != crc32_mpeg2(b),
    decreases a.len(),
{
    let head_a = a.drop_last();
    let head_b = b.drop_last();
    if at == a.len() - 1 {
        assert(head_a =~= head_b);
        lemma_crc32_absorb_injective(crc32_mpeg2(head_a), a.last(), crc32_mpeg2(head_b), b.last());
    } else {
        lemma_crc32_detects_one_changed_byte(head_a, head_b, at);
        lemma_crc32_absorb_injective(crc32_mpeg2(head_a), a.last(), crc32_mpeg2(head_b), b.last());
    }
}

/// CRC-32/MPEG-2 of `data`, computed by its definition, one bit at a time.
/// It is slow, and there to hold the table-driven routine to the definition.
pub fn crc32_mpeg2_bitwise(data: &[u8]) -> (sum: u32)
    ensures
        sum == crc32_mpeg2(data@),
{
    let mut register: u32 = CRC32_INITIAL;
    let mut i: usize = 0;
    while i < data.len()
        invariant
            i <= data.len(),
            register == crc32_mpeg2(data@.take(i as int)),
        decreases data.len() - i,
    {
        let ghost before = register;
        register = register ^ ((data[i] as u32) << 24);
        let mut bit: u8 = 0;
        let ghost start = register;
        while bit < 8
            invariant
                bit <= 8,
                register == shifted(start, bit as nat),
            decreases 8 - bit,
        {
            register = if register & 0x8000_0000 != 0 {
                (register << 1) ^ CRC32_POLYNOMIAL
            } else {
                register << 1
            };
            bit += 1;
        }
        proof {
            assert(data@.take(i + 1).drop_last() =~= data@.take(i as int));
            assert(data@.take(i + 1).last() == data@[i as int]);
            lemma_eight_shifts(start);
        }
        i += 1;
    }
    proof {
        assert(data@.take(i as int) =~= data@);
    }
    register
}

/// The register after `count` division steps.
pub open spec fn shifted(register: u32, count: nat) -> u32
    decreases count,
{
    if count == 0 {
        register
    } else {
        crc32_shift(shifted(register, (count - 1) as nat))
    }
}

/// Absorbing a byte ends in eight division steps.
proof fn lemma_eight_shifts(start: u32)
    ensures
        shifted(start, 8) == crc32_shift(
            crc32_shift(
                crc32_shift(
                    crc32_shift(crc32_shift(crc32_shift(crc32_shift(crc32_shift(start))))),
                ),
            ),
        ),
{
    reveal_with_fuel(shifted, 9);
}

/// CRC-32/MPEG-2 of `data`, computed by `crc::Crc::<u32>::checksum` for the
/// catalogue entry `CRC_32_MPEG_2`. The contract claims that the crate's
/// table-driven routine yields the remainder that `crc32_mpeg2` defines.
#[verifier::external_body]
pub(crate) fn crc32_mpeg2_checksum(data: &[u8]) -> (sum: u32)
    ensures
        sum == crc32_mpeg2(data@),
{
    crc::Crc::<u32>::new(&crc::CRC_32_MPEG_2).checksum(data)
}

} // verus!
