//! Driver for the DHT20 humidity/temperature sensor, together with the
//! checksum and bit-unpacking routines its wire protocol relies on.
//!
//! The sensor sits on a two-wire bus owned by the caller: the driver is
//! generic over a bus transceiver and a millisecond delay, both supplied as
//! implementations of this crate's [`I2cBus`] and [`DelayMs`] traits.

pub mod bus;
pub mod checksum;
pub mod decode;
pub mod driver;
pub mod error;
pub mod reading;

pub use bus::BusOp;
pub use bus::DelayMs;
pub use bus::I2cBus;
pub use checksum::compute_crc8;
pub use checksum::payload_checksum_ok;
pub use decode::extract_readings;
pub use driver::Dht20;
pub use error::DHT20Error;
pub use reading::DHTReading;
