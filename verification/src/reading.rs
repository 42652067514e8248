//! A decoded measurement: the raw 20-bit humidity and temperature fields,
//! with fixed-point accessors in milli-units.
//!
//! The device's scaling is humidity = raw / 2^20 * 100 percent and
//! temperature = raw / 2^20 * 200 - 50 degrees Celsius. The accessors here
//! return those quantities in thousandths, truncated toward zero.

use vstd::prelude::*;
use crate::decode::RAW_FIELD_LIMIT;

verus! {

/// A single humidity/temperature measurement, as the raw 20-bit fields
/// unpacked from a checksum-validated payload.
#[derive(Clone, Copy, Debug)]
pub struct DHTReading {
    raw_humidity: u32,
    raw_temperature: u32,
}

impl DHTReading {
    /// The raw 20-bit humidity field.
    pub closed spec fn spec_raw_humidity(&self) -> u32 {
        self.raw_humidity
    }

    /// The raw 20-bit temperature field.
    pub closed spec fn spec_raw_temperature(&self) -> u32 {
        self.raw_temperature
    }

    /// Both fields are genuine 20-bit quantities.
    pub open spec fn wf(&self) -> bool {
        self.spec_raw_humidity() < RAW_FIELD_LIMIT
            && self.spec_raw_temperature() < RAW_FIELD_LIMIT
    }

    /// Builds a reading from the two raw 20-bit fields.
    pub fn new(raw_temperature: u32, raw_humidity: u32) -> (r: DHTReading)
        requires
            raw_temperature < RAW_FIELD_LIMIT,
            raw_humidity < RAW_FIELD_LIMIT,
        ensures
            r.spec_raw_temperature() == raw_temperature,
            r.spec_raw_humidity() == raw_humidity,
            r.wf(),
    {
        DHTReading { raw_humidity, raw_temperature }
    }

    #[verifier::when_used_as_spec(spec_raw_humidity)]
    pub fn raw_humidity(&self) -> (r: u32)
        ensures
            r == self.spec_raw_humidity(),
    {
        self.raw_humidity
    }

    #[verifier::when_used_as_spec(spec_raw_temperature)]
    pub fn raw_temperature(&self) -> (r: u32)
        ensures
            r == self.spec_raw_temperature(),
    {
        self.raw_temperature
    }

    /// Relative humidity in milli-percent: raw / 2^20 * 100 percent,
    /// truncated to thousandths. Bounded by 100 percent.
    pub fn humidity_milli_percent(&self) -> (r: u32)
        ensures
            r == self.spec_raw_humidity() * 100_000 / (RAW_FIELD_LIMIT as int),
            self.wf() ==> r <= 100_000,
    {
        let wide: u64 = (self.raw_humidity as u64) * 100_000;
        (wide / (RAW_FIELD_LIMIT as u64)) as u32
    }

    /// Temperature in milli-degrees Celsius: raw / 2^20 * 200 - 50 degrees,
    /// truncated to thousandths. Bounded by -50 and 150 degrees.
    pub fn temperature_milli_celsius(&self) -> (r: i32)
        ensures
            r == self.spec_raw_temperature() * 200_000 / (RAW_FIELD_LIMIT as int) - 50_000,
            self.wf() ==> -50_000 <= r <= 150_000,
    {
        let wide: u64 = (self.raw_temperature as u64) * 200_000;
        let scaled: u64 = wide / (RAW_FIELD_LIMIT as u64);
        (scaled as i64 - 50_000) as i32
    }

    /// Temperature in milli-degrees Fahrenheit: Celsius times 9/5 plus 32,
    /// carried out on the raw field as raw / 2^20 * 360 - 58 degrees,
    /// truncated to thousandths. Bounded by -58 and 302 degrees.
    pub fn temperature_milli_fahrenheit(&self) -> (r: i32)
        ensures
            r == self.spec_raw_temperature() * 360_000 / (RAW_FIELD_LIMIT as int) - 58_000,
            self.wf() ==> -58_000 <= r <= 302_000,
    {
        let wide: u64 = (self.raw_temperature as u64) * 360_000;
        let scaled: u64 = wide / (RAW_FIELD_LIMIT as u64);
        (scaled as i64 - 58_000) as i32
    }
}

} // verus!
