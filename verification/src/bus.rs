//! The two capabilities the driver is injected with: a blocking two-wire
//! bus transceiver and a blocking millisecond delay.
//!
//! The driver never owns the hardware; the caller hands in any
//! implementation of these traits (a hardware adapter, or a scripted stub).
//! Both traits carry a ghost transcript — the sequence of operations
//! performed so far — so that the driver's contracts can state exactly what
//! is put on the wire, in what order, and what came back.

use vstd::prelude::*;

verus! {

/// One bus transaction, as the ghost transcript records it: the address and
/// bytes handed to the device, and the transport's answer.
pub enum BusOp<E> {
    /// A plain write of the given bytes.
    Write(u8, Seq<u8>, Result<(), E>),
    /// A plain read of the given number of bytes; on success the bytes
    /// handed back.
    Read(u8, usize, Result<Seq<u8>, E>),
    /// A combined write-then-read transaction: bytes written, number of
    /// bytes asked for, and on success the bytes handed back.
    WriteRead(u8, Seq<u8>, usize, Result<Seq<u8>, E>),
}

/// The bus transcript's type: implementations outside this crate name it
/// when they write their (never executed) ghost transcript accessor.
pub type BusHistory<E> = Seq<BusOp<E>>;

/// The delay transcript's type, for the same purpose.
pub type DelayHistory = Seq<u32>;

/// A blocking half-duplex two-wire bus transceiver.
///
/// Every operation may fail with a transport-specific error value, which the
/// driver wraps opaquely and never inspects. A conforming transceiver fills
/// the whole buffer it is asked to read — on success the returned data holds
/// exactly the requested number of bytes — and performs exactly the
/// transaction asked of it, which the ghost transcript records. Beyond that,
/// nothing is assumed of what a read returns.
pub trait I2cBus {
    /// The transport's own error type.
    type Error;

    /// The ghost transcript: every operation performed on this bus so far,
    /// oldest first.
    spec fn history(&self) -> BusHistory<Self::Error>;

    /// Writes `bytes` to the device at `address`.
    fn write(&mut self, address: u8, bytes: &[u8]) -> (r: Result<(), Self::Error>)
        ensures
            r matches Ok(_) ==> final(self).history() == old(self).history().push(
                BusOp::Write(address, bytes@, Ok(())),
            ),
            r matches Err(e) ==> final(self).history() == old(self).history().push(
                BusOp::Write(address, bytes@, Err(e)),
            ),
    ;

    /// Reads exactly `len` bytes from the device at `address`.
    fn read(&mut self, address: u8, len: usize) -> (r: Result<Vec<u8>, Self::Error>)
        ensures
            r matches Ok(data) ==> data@.len() == len && final(self).history() == old(
                self,
            ).history().push(BusOp::Read(address, len, Ok(data@))),
            r matches Err(e) ==> final(self).history() == old(self).history().push(
                BusOp::Read(address, len, Err(e)),
            ),
    ;

    /// Writes `bytes` to the device at `address`, then reads exactly
    /// `read_len` bytes back, as a single combined transaction.
    fn write_read(&mut self, address: u8, bytes: &[u8], read_len: usize) -> (r: Result<
        Vec<u8>,
        Self::Error,
    >)
        ensures
            r matches Ok(data) ==> data@.len() == read_len && final(self).history() == old(
                self,
            ).history().push(BusOp::WriteRead(address, bytes@, read_len, Ok(data@))),
            r matches Err(e) ==> final(self).history() == old(self).history().push(
                BusOp::WriteRead(address, bytes@, read_len, Err(e)),
            ),
    ;
}

/// A blocking millisecond-granularity delay.
pub trait DelayMs {
    /// The ghost transcript: every requested pause so far, in milliseconds,
    /// oldest first.
    spec fn history(&self) -> DelayHistory;

    /// Blocks for at least `ms` milliseconds.
    fn delay_ms(&mut self, ms: u32)
        ensures
            final(self).history() == old(self).history().push(ms),
    ;
}

} // verus!
