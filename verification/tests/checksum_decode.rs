//! Tests of the pure checksum, extraction and scaling routines.

use dht20::checksum::CRC8_INITIAL;
use dht20::compute_crc8;
use dht20::extract_readings;
use dht20::payload_checksum_ok;
use dht20::DHTReading;

#[test]
fn test_crc8_beef42() {
    let data = [0xBE, 0xEF, 0x42]; // simple example data
    let expected_crc = 0x04; // expected CRC, from online calculator
    assert_eq!(compute_crc8(&data), expected_crc);
}

#[test]
fn test_crc8_empty() {
    let data: [u8; 0] = [];

    assert_eq!(compute_crc8(&data), CRC8_INITIAL); // should return the initial CRC value
}

#[test]
fn test_crc8_single_byte() {
    let data = [0x42]; // single byte data
    let expected_crc = 0xF3; // expected CRC, from online calculator
    assert_eq!(compute_crc8(&data), expected_crc);
}

#[test]
fn test_crc8_bit_flipping() {
    let data1 = [0x12, 0x34, 0x56];
    let data2 = [0x12, 0x32, 0x57]; // bit flipped
    assert_ne!(compute_crc8(&data1), compute_crc8(&data2));
}

#[test]
fn test_extract_known_humidity() {
    let data: [u8; 8] = [0x18, 0x80, 0x00, 0x00, 0x06, 0x66, 0x66, 0x00];

    let (humidity, _) = extract_readings(&data);

    assert_eq!(humidity, 0x80000); // expected humidity in 20-bit format
}

#[test]
fn test_extract_known_temperature() {
    // first byte is status, second byte is humidity MSB, third byte is humidity LSB, third byte is
    // shared 4 bits between humidity and temperature.
    let data: [u8; 7] = [0x18, 0x00, 0x00, 0x06, 0x00, 0x00, 0x00];

    let (_, temperature) = extract_readings(&data);
    assert_eq!(temperature, 0x60000); // expected temperature in 20-bit format
}

#[test]
fn test_extract_shared_byte_split() {
    // Byte 3 is shared: its high nibble ends the humidity field, its low
    // nibble starts the temperature field.
    let data: [u8; 6] = [0x00, 0xAB, 0xCD, 0xEF, 0x12, 0x34];

    let (humidity, temperature) = extract_readings(&data);

    assert_eq!(humidity, (0xAB << 12) | (0xCD << 4) | 0xE);
    assert_eq!(temperature, (0xF << 16) | (0x12 << 8) | 0x34);
}

#[test]
fn test_milli_humidity_midpoint() {
    let reading = DHTReading::new(0, 0x80000);

    let milli = reading.humidity_milli_percent();
    assert_eq!(milli, 50_000); // 50% relative humidity
    assert!(milli <= 100_000);
    assert_eq!(milli as f32 / 1000.0, 50.0);
}

#[test]
fn test_milli_humidity_extremes() {
    let low = DHTReading::new(0, 0);
    assert_eq!(low.humidity_milli_percent(), 0);

    let high = DHTReading::new(0, 0xFFFFF);
    assert_eq!(high.humidity_milli_percent(), 99_999);
}

#[test]
fn test_milli_temperature_25c() {
    let reading = DHTReading::new(0x60000, 0);

    let milli = reading.temperature_milli_celsius();
    assert_eq!(milli, 25_000); // 25 degrees Celsius
    assert!(milli >= -40_000 && milli <= 80_000);
    assert_eq!(milli as f32 / 1000.0, 25.0);
}

#[test]
fn test_milli_temperature_extremes() {
    let low = DHTReading::new(0, 0);
    assert_eq!(low.temperature_milli_celsius(), -50_000);
    assert_eq!(low.temperature_milli_fahrenheit(), -58_000);

    let high = DHTReading::new(0xFFFFF, 0);
    assert_eq!(high.temperature_milli_celsius(), 149_999);
}

#[test]
fn test_milli_fahrenheit_25c_is_77f() {
    let reading = DHTReading::new(0x60000, 0);

    let milli = reading.temperature_milli_fahrenheit();
    assert_eq!(milli, 77_000); // 25 C = 77 F
    assert_eq!(milli as f32 / 1000.0, 77.0);
}

#[test]
fn test_reading_raw_accessors() {
    let reading = DHTReading::new(0x12345, 0xABCDE);

    assert_eq!(reading.raw_temperature(), 0x12345);
    assert_eq!(reading.raw_humidity(), 0xABCDE);
}

#[test]
fn test_payload_checksum_ok_accepts_and_rejects() {
    let mut payload = [0x18, 0x80, 0x00, 0x00, 0x06, 0x66, 0x00];
    payload[6] = compute_crc8(&payload[..6]);
    assert!(payload_checksum_ok(&payload));

    payload[6] ^= 0x01;
    assert!(!payload_checksum_ok(&payload));
}
