//! Bit-field extraction from a DHT20 measurement payload.
//!
//! A payload carries a status byte, then a 20-bit humidity field and a
//! 20-bit temperature field packed into bytes 1..=5; byte 3 is shared
//! (high nibble: humidity low bits, low nibble: temperature high bits).

use vstd::prelude::*;

verus! {

/// Raw fields never reach 2^20: they are 20-bit quantities.
pub const RAW_FIELD_LIMIT: u32 = 0x100000;

/// The 20-bit humidity field of a payload: byte 1, byte 2, and the high
/// nibble of byte 3.
pub open spec fn raw_humidity_of(data: Seq<u8>) -> u32
    recommends
        data.len() >= 6,
{
    ((data[1] as u32) << 12) | ((data[2] as u32) << 4) | ((data[3] as u32) >> 4)
}

/// The 20-bit temperature field of a payload: the low nibble of byte 3,
/// byte 4, and byte 5.
pub open spec fn raw_temperature_of(data: Seq<u8>) -> u32
    recommends
        data.len() >= 6,
{
    (((data[3] as u32) & 0x0f) << 16) | ((data[4] as u32) << 8) | (data[5] as u32)
}

/// Three bytes packed with a high shift of 12 stay below 2^20, and a nibble
/// shifted by 16 over two bytes does too.
pub proof fn lemma_raw_fields_bounded(b1: u8, b2: u8, b3: u8, b4: u8, b5: u8)
    ensures
        (((b1 as u32) << 12) | ((b2 as u32) << 4) | ((b3 as u32) >> 4)) < RAW_FIELD_LIMIT,
        ((((b3 as u32) & 0x0f) << 16) | ((b4 as u32) << 8) | (b5 as u32)) < RAW_FIELD_LIMIT,
{
    assert((((b1 as u32) << 12) | ((b2 as u32) << 4) | ((b3 as u32) >> 4)) < 0x100000)
        by (bit_vector);
    assert(((((b3 as u32) & 0x0f) << 16) | ((b4 as u32) << 8) | (b5 as u32)) < 0x100000)
        by (bit_vector);
}

/// Unpacks the raw humidity and temperature fields from a measurement
/// payload of at least 6 bytes. Byte 0 (the status byte) and anything after
/// byte 5 (such as a trailing checksum) are ignored.
pub fn extract_readings(data: &[u8]) -> (r: (u32, u32))
    requires
        data@.len() >= 6,
    ensures
        r.0 == raw_humidity_of(data@),
        r.1 == raw_temperature_of(data@),
        r.0 < RAW_FIELD_LIMIT,
        r.1 < RAW_FIELD_LIMIT,
{
    let raw_humidity: u32 = ((data[1] as u32) << 12) | ((data[2] as u32) << 4)
        | ((data[3] as u32) >> 4);
    let raw_temperature: u32 = (((data[3] as u32) & 0x0f) << 16) | ((data[4] as u32) << 8)
        | (data[5] as u32);
    proof {
        lemma_raw_fields_bounded(data@[1], data@[2], data@[3], data@[4], data@[5]);
    }
    (raw_humidity, raw_temperature)
}

} // verus!
