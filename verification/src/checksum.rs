//! CRC-8/NRSC-5: polynomial 0x31, initial register value 0xFF.
//!
//! The DHT20 appends this checksum to every measurement payload; the driver
//! recomputes it over the six payload bytes and compares.

use vstd::prelude::*;

verus! {

/// Initial shift-register value of CRC-8/NRSC-5.
pub const CRC8_INITIAL: u8 = 0xFF;

/// CRC-8/NRSC-5 polynomial: 1 + x^4 + x^5 + x^8, taken modulo x^8.
pub const CRC8_POLYNOMIAL: u8 = 0x31;

/// One shift of the CRC register: multiply by x and reduce by the polynomial
/// when the dropped high bit was set.
pub open spec fn crc8_shift(crc: u8) -> u8 {
    if crc & 0x80 != 0 {
        (crc << 1) ^ CRC8_POLYNOMIAL
    } else {
        crc << 1
    }
}

/// `n` shifts of the CRC register.
pub open spec fn crc8_shift_n(crc: u8, n: nat) -> u8
    decreases n,
{
    if n == 0 {
        crc
    } else {
        crc8_shift(crc8_shift_n(crc, (n - 1) as nat))
    }
}

/// Folding one input byte into the CRC register: xor it in, then shift the
/// register once per bit.
pub open spec fn crc8_byte(crc: u8, byte: u8) -> u8 {
    crc8_shift_n(crc ^ byte, 8)
}

/// The CRC-8/NRSC-5 checksum of a byte sequence: start from `CRC8_INITIAL`
/// and fold the bytes in left to right. The empty sequence keeps the initial
/// value.
pub open spec fn crc8_spec(data: Seq<u8>) -> u8
    decreases data.len(),
{
    if data.len() == 0 {
        CRC8_INITIAL
    } else {
        crc8_byte(crc8_spec(data.drop_last()), data.last())
    }
}

/// Computes the CRC-8/NRSC-5 checksum of `data`.
pub fn compute_crc8(data: &[u8]) -> (crc: u8)
    ensures
        crc == crc8_spec(data@),
{
    let mut crc: u8 = CRC8_INITIAL;
    let mut i: usize = 0;
    while i < data.len()
        invariant
            i <= data@.len(),
            crc == crc8_spec(data@.take(i as int)),
        decreases data@.len() - i,
    {
        let ghost prev = crc8_spec(data@.take(i as int));
        crc = crc ^ data[i];
        let mut bit: usize = 0;
        while bit < 8
            invariant
                bit <= 8,
                crc == crc8_shift_n(prev ^ data@[i as int], bit as nat),
            decreases 8 - bit,
        {
            if crc & 0x80 != 0 {
                crc = (crc << 1u8) ^ CRC8_POLYNOMIAL;
            } else {
                crc = crc << 1u8;
            }
            bit = bit + 1;
        }
        proof {
            assert(data@.take(i + 1).drop_last() =~= data@.take(i as int));
            assert(data@.take(i + 1).last() == data@[i as int]);
        }
        i = i + 1;
    }
    proof {
        assert(data@.take(data@.len() as int) =~= data@);
    }
    crc
}

/// One register shift never maps two different registers to the same value:
/// the dropped high bit is recorded in the low bit of the polynomial.
proof fn lemma_crc8_shift_injective(a: u8, b: u8)
    requires
        a != b,
    ensures
        crc8_shift(a) != crc8_shift(b),
{
    assert((a != b && a & 0x80 != 0 && b & 0x80 != 0) ==> ((a << 1) ^ 0x31) != ((b << 1) ^ 0x31))
        by (bit_vector);
    assert((a != b && a & 0x80 == 0 && b & 0x80 == 0) ==> (a << 1) != (b << 1)) by (bit_vector);
    assert((a & 0x80 != 0 && b & 0x80 == 0) ==> ((a << 1) ^ 0x31) != (b << 1)) by (bit_vector);
    assert((a & 0x80 == 0 && b & 0x80 != 0) ==> (a << 1) != ((b << 1) ^ 0x31)) by (bit_vector);
}

/// `n` register shifts stay injective.
proof fn lemma_crc8_shift_n_injective(a: u8, b: u8, n: nat)
    requires
        a != b,
    ensures
        crc8_shift_n(a, n) != crc8_shift_n(b, n),
    decreases n,
{
    if n != 0 {
        lemma_crc8_shift_n_injective(a, b, (n - 1) as nat);
        lemma_crc8_shift_injective(crc8_shift_n(a, (n - 1) as nat), crc8_shift_n(b, (n - 1) as nat));
    }
}

/// Two xors that disagree in exactly one operand disagree as a whole.
proof fn lemma_xor_neq(c1: u8, c2: u8, x1: u8, x2: u8)
    requires
        (c1 == c2 && x1 != x2) || (c1 != c2 && x1 == x2),
    ensures
        c1 ^ x1 != c2 ^ x2,
{
    assert(((c1 == c2 && x1 != x2) || (c1 != c2 && x1 == x2)) ==> (c1 ^ x1) != (c2 ^ x2))
        by (bit_vector);
}

/// Folding one byte keeps distinct register states distinct.
proof fn lemma_crc8_byte_injective(c1: u8, c2: u8, x1: u8, x2: u8)
    requires
        c1 ^ x1 != c2 ^ x2,
    ensures
        crc8_byte(c1, x1) != crc8_byte(c2, x2),
{
    lemma_crc8_shift_n_injective(c1 ^ x1, c2 ^ x2, 8);
}

/// Corrupting any single byte of the input — in particular, flipping any
/// single bit — changes the CRC-8/NRSC-5 checksum: from the corrupted byte
/// on, the two register histories never meet again, because every register
/// step is injective. (Corruptions that touch two or more bytes can
/// collide; those are only checked on examples.)
pub proof fn lemma_crc8_detects_single_byte_corruption(s: Seq<u8>, t: Seq<u8>, i: int)
    requires
        s.len() == t.len(),
        0 <= i < s.len(),
        s[i] != t[i],
        forall|j: int| 0 <= j < s.len() && j != i ==> s[j] == t[j],
    ensures
        crc8_spec(s) != crc8_spec(t),
    decreases s.len(),
{
    let n = s.len() as int;
    let cs = crc8_spec(s.drop_last());
    let ct = crc8_spec(t.drop_last());
    if i == n - 1 {
        assert(s.drop_last() =~= t.drop_last());
    } else {
        lemma_crc8_detects_single_byte_corruption(s.drop_last(), t.drop_last(), i);
        assert(s.last() == t.last());
    }
    lemma_xor_neq(cs, ct, s.last(), t.last());
    lemma_crc8_byte_injective(cs, ct, s.last(), t.last());
}

/// Whether a fetched 7-byte payload is intact: its trailing checksum byte
/// equals the CRC-8/NRSC-5 checksum of the six payload bytes before it.
pub fn payload_checksum_ok(payload: &[u8]) -> (r: bool)
    requires
        payload@.len() == 7,
    ensures
        r == (payload@[6] == crc8_spec(payload@.take(6))),
{
    let data = vstd::slice::slice_subrange(payload, 0, 6);
    let expected = compute_crc8(data);
    proof {
        assert(data@ =~= payload@.take(6));
    }
    payload[6] == expected
}

} // verus!
