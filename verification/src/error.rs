//! The driver's failure conditions. None is retried internally; every one is
//! surfaced to the caller, who decides whether to try again.

use vstd::prelude::*;

verus! {

/// What can go wrong while initializing the sensor or taking a reading.
#[derive(Debug)]
pub enum DHT20Error<E> {
    /// A bus operation failed; carries the transport's own error, unchanged.
    I2C(E),
    /// A fetched payload's trailing checksum byte did not match the checksum
    /// computed over the six payload bytes.
    CrcMismatch,
    /// A measurement was requested before a successful initialization.
    NotInitialized,
    /// The device still reported busy after the maximum number of ready
    /// polls.
    Timeout,
}

impl<E> From<E> for DHT20Error<E> {
    /// Wraps a bus-layer error as a transport error.
    fn from(err: E) -> Self {
        DHT20Error::I2C(err)
    }
}

impl<E> vstd::std_specs::convert::FromSpecImpl<E> for DHT20Error<E> {
    open spec fn obeys_from_spec() -> bool {
        true
    }

    open spec fn from_spec(err: E) -> Self {
        DHT20Error::I2C(err)
    }
}

} // verus!
