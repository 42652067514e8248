//! The DHT20 protocol driver: the sequenced bus transactions that bring the
//! device up, trigger a measurement, poll for completion, validate the
//! payload and decode it.
//!
//! The contracts state the wire protocol over the bus's ghost transcript:
//! which bytes go to the device, in what order, what the device answered,
//! and how the result was computed from the answer. The device handle
//! starts uninitialized and becomes ready only after a successful
//! initialization; a reading is only ever produced from the fetched
//! payload, and only when its trailing checksum byte matches the checksum
//! computed over the six payload bytes.

use vstd::prelude::*;
use crate::bus::{BusOp, DelayMs, I2cBus};
use crate::checksum::{crc8_spec, payload_checksum_ok};
use crate::decode::{extract_readings, raw_humidity_of, raw_temperature_of};
use crate::error::DHT20Error;
use crate::reading::DHTReading;

verus! {

/// Fixed 7-bit bus address of the device.
pub const I2C_ADDRESS: u8 = 0x38;

/// Opcode that asks the device for its one status byte.
pub const OP_CHECK_STATUS: u8 = 0x71;

/// Opcode that starts a measurement; followed by the fixed arguments 0x33,
/// 0x00.
pub const OP_TRIGGER_MEASUREMENT: u8 = 0xAC;

/// Status bit that is set while a measurement is still running.
pub const STATUS_BUSY_MASK: u8 = 0x80;

/// Status bits that are both set on a calibrated device.
pub const STATUS_CALIBRATED_MASK: u8 = 0x18;

/// Power-up settling time before the first status check, in milliseconds.
pub const POWER_UP_DELAY_MS: u32 = 100;

/// Settling time after the calibration check, before the device counts as
/// ready, in milliseconds.
pub const SETTLE_DELAY_MS: u32 = 10;

/// Pause between the steps of a register reset, in milliseconds.
pub const RESET_STEP_DELAY_MS: u32 = 5;

/// Device-mandated minimum conversion time after a trigger, in
/// milliseconds.
pub const MEASUREMENT_DELAY_MS: u32 = 80;

/// Pause between two ready polls, in milliseconds.
pub const POLL_INTERVAL_MS: u32 = 10;

/// Upper bound on the number of ready polls in one reading. The device
/// protocol itself sets no bound; this cap (over sixteen minutes at the
/// 10 ms poll interval) keeps a reading from blocking forever on a device
/// that never reports ready.
pub const MAX_POLL_ATTEMPTS: u32 = 100_000;

/// The status query: a combined write of the status opcode and read of one
/// status byte.
pub open spec fn status_poll<E>(result: Result<Seq<u8>, E>) -> BusOp<E> {
    BusOp::WriteRead(I2C_ADDRESS, seq![OP_CHECK_STATUS], 1, result)
}

/// The measurement trigger: a write of the trigger opcode and its two fixed
/// argument bytes.
pub open spec fn trigger_op<E>(result: Result<(), E>) -> BusOp<E> {
    BusOp::Write(I2C_ADDRESS, seq![OP_TRIGGER_MEASUREMENT, 0x33u8, 0x00u8], result)
}

/// The payload fetch: a plain read of 7 bytes (6 data bytes and the
/// checksum byte).
pub open spec fn fetch_op<E>(result: Result<Seq<u8>, E>) -> BusOp<E> {
    BusOp::Read(I2C_ADDRESS, 7, result)
}

/// A status query that succeeded and found the device still busy.
pub open spec fn is_busy_poll<E>(op: BusOp<E>) -> bool {
    op matches BusOp::WriteRead(a, b, n, Ok(s)) && a == I2C_ADDRESS && b == seq![OP_CHECK_STATUS]
        && n == 1 && s.len() == 1 && s[0] & STATUS_BUSY_MASK != 0
}

/// A status query that succeeded and found the busy bit clear.
pub open spec fn is_ready_poll<E>(op: BusOp<E>) -> bool {
    op matches BusOp::WriteRead(a, b, n, Ok(s)) && a == I2C_ADDRESS && b == seq![OP_CHECK_STATUS]
        && n == 1 && s.len() == 1 && s[0] & STATUS_BUSY_MASK == 0
}

/// The operation's transport answer is exactly the error `e`: the driver
/// surfaces bus errors unchanged, from the operation that failed.
pub open spec fn op_failed_with<E>(op: BusOp<E>, e: E) -> bool {
    match op {
        BusOp::Write(_, _, res) => res == Err::<(), E>(e),
        BusOp::Read(_, _, res) => res == Err::<Seq<u8>, E>(e),
        BusOp::WriteRead(_, _, _, res) => res == Err::<Seq<u8>, E>(e),
    }
}

/// One completed register reset, as the reset sub-protocol puts it on the
/// wire: clear the register, read its three bytes back, and rewrite the
/// last two under the register address with the high mask bits set.
pub open spec fn reset_sequence<E>(reg: u8, ops: Seq<BusOp<E>>) -> bool {
    &&& ops.len() == 3
    &&& ops[0] == BusOp::Write(I2C_ADDRESS, seq![reg, 0x00u8, 0x00u8], Ok::<(), E>(()))
    &&& (ops[1] matches BusOp::WriteRead(a, b, n, Ok(buf)) && a == I2C_ADDRESS && b == seq![reg]
        && n == 3 && buf.len() == 3 && ops[2] == BusOp::Write(
        I2C_ADDRESS,
        seq![0xB0u8 | reg, buf[1], buf[2]],
        Ok::<(), E>(()),
    ))
}

/// Everything the initialization status check puts on the wire, given the
/// bus and delay transcripts before (`h0`, `d0`) and after (`h1`, `d1`):
/// one status query; then, exactly when the calibration bits were not both
/// set, one reset sequence for each of the registers 0x1B, 0x1C and 0x1E,
/// in that order; then the settling pause. A transport failure aborts at
/// the failing operation and surfaces its error unchanged.
pub open spec fn init_transcript<E>(
    h0: Seq<BusOp<E>>,
    h1: Seq<BusOp<E>>,
    d0: Seq<u32>,
    d1: Seq<u32>,
    r: Result<(), DHT20Error<E>>,
) -> bool {
    &&& h1.take(h0.len() as int) == h0
    &&& d1.take(d0.len() as int) == d0
    &&& h1.len() > h0.len()
    &&& (h1[h0.len() as int] matches BusOp::WriteRead(a, b, n, _) && a == I2C_ADDRESS && b
        == seq![OP_CHECK_STATUS] && n == 1)
    &&& match r {
        Ok(_) => h1[h0.len() as int] matches BusOp::WriteRead(_, _, _, Ok(s)) && s.len() == 1 && (
        if s[0] & STATUS_CALIBRATED_MASK == STATUS_CALIBRATED_MASK {
            h1.len() == h0.len() + 1 && d1 == d0.push(SETTLE_DELAY_MS)
        } else {
            &&& h1.len() == h0.len() + 10
            &&& reset_sequence(0x1B, h1.subrange(h0.len() as int + 1, h0.len() as int + 4))
            &&& reset_sequence(0x1C, h1.subrange(h0.len() as int + 4, h0.len() as int + 7))
            &&& reset_sequence(0x1E, h1.subrange(h0.len() as int + 7, h0.len() as int + 10))
            &&& d1 == d0 + seq![
                RESET_STEP_DELAY_MS,
                RESET_STEP_DELAY_MS,
                RESET_STEP_DELAY_MS,
                RESET_STEP_DELAY_MS,
                RESET_STEP_DELAY_MS,
                RESET_STEP_DELAY_MS,
                RESET_STEP_DELAY_MS,
                RESET_STEP_DELAY_MS,
                RESET_STEP_DELAY_MS,
                SETTLE_DELAY_MS,
            ]
        }),
        Err(e) => e matches DHT20Error::I2C(be) && op_failed_with(h1.last(), be) && {
            // Either the status query itself failed, or it reported the
            // device uncalibrated and a register reset aborted.
            ||| (h1 == h0.push(status_poll(Err(be))) && d1 == d0)
            ||| (h1[h0.len() as int] matches BusOp::WriteRead(_, _, _, Ok(s)) && s.len() == 1 && s[0]
                & STATUS_CALIBRATED_MASK != STATUS_CALIBRATED_MASK)
        },
    }
}

/// A sequence's prefix, taken back, indexes like the sequence.
proof fn lemma_take_prefix<T>(full: Seq<T>, pre: Seq<T>)
    requires
        pre.len() <= full.len(),
        full.take(pre.len() as int) == pre,
    ensures
        forall|j: int| 0 <= j < pre.len() ==> full[j] == #[trigger] pre[j],
{
    assert forall|j: int| 0 <= j < pre.len() implies full[j] == #[trigger] pre[j] by {
        assert(pre[j] == full.take(pre.len() as int)[j]);
    }
}

/// Being a prefix is transitive.
proof fn lemma_prefix_trans<T>(a: Seq<T>, b: Seq<T>, c: Seq<T>)
    requires
        b.len() <= a.len(),
        c.len() <= b.len(),
        a.take(b.len() as int) == b,
        b.take(c.len() as int) == c,
    ensures
        a.take(c.len() as int) == c,
{
    lemma_take_prefix(a, b);
    lemma_take_prefix(b, c);
    assert(a.take(c.len() as int) =~= c);
}

/// Handle to one DHT20 device: the exclusively owned bus transceiver and
/// whether initialization has succeeded. The bus address is the fixed
/// `I2C_ADDRESS`.
pub struct Dht20<I2C> {
    i2c: I2C,
    initialized: bool,
}

impl<I2C: I2cBus> Dht20<I2C> {
    /// Whether the handle has completed a successful initialization.
    pub closed spec fn initialized(&self) -> bool {
        self.initialized
    }

    /// The ghost transcript of the owned bus.
    pub closed spec fn history(&self) -> Seq<BusOp<I2C::Error>> {
        self.i2c.history()
    }

    /// Wraps a bus transceiver into an uninitialized device handle. No bus
    /// traffic is performed: the transcript is the one the transceiver
    /// came with.
    pub fn new(i2c: I2C) -> (r: Dht20<I2C>)
        ensures
            !r.initialized(),
            r.history() == i2c.history(),
    {
        Dht20 { i2c, initialized: false }
    }

    /// Whether the handle has completed a successful initialization.
    #[verifier::when_used_as_spec(initialized)]
    pub fn is_initialized(&self) -> (r: bool)
        ensures
            r == self.initialized(),
    {
        self.initialized
    }

    /// Initializes the device: waits out the power-up settling time, checks
    /// the calibration status, recalibrates the three fixed registers if
    /// the device reports uncalibrated, and waits a further settling time.
    ///
    /// On success the handle is ready; on a transport error it keeps the
    /// state it had. The first delay is the 100 ms power-up pause, before
    /// any bus traffic; the traffic itself is exactly the
    /// `init_transcript` shape.
    pub fn init<D: DelayMs>(&mut self, delay: &mut D) -> (r: Result<
        (),
        DHT20Error<I2C::Error>,
    >)
        ensures
            r matches Ok(_) ==> final(self).initialized(),
            r matches Err(e) ==> e is I2C && final(self).initialized() == old(
                self,
            ).initialized(),
            init_transcript(
                old(self).history(),
                final(self).history(),
                old(delay).history().push(POWER_UP_DELAY_MS),
                final(delay).history(),
                r,
            ),
    {
        delay.delay_ms(POWER_UP_DELAY_MS);
        self.check_init(delay)
    }

    /// Takes one measurement: trigger, poll until ready, fetch the 7-byte
    /// payload, validate its checksum, and decode the two raw fields.
    ///
    /// Fails with `NotInitialized`, exactly when the handle is not
    /// initialized, before any bus traffic or delay. Otherwise the wire
    /// traffic is one trigger write, some busy polls, and — unless a poll
    /// failed or timed out — one ready poll and one 7-byte fetch; a
    /// returned reading is the decode of that fetched payload, whose
    /// checksum byte matched the checksum computed over its first six
    /// bytes. A transport error is the failing (last) operation's own
    /// error, unchanged.
    pub fn take_reading<D: DelayMs>(&mut self, delay: &mut D) -> (r: Result<
        DHTReading,
        DHT20Error<I2C::Error>,
    >)
        ensures
            final(self).initialized() == old(self).initialized(),
            (r matches Err(e) && e is NotInitialized) <==> !old(self).initialized(),
            !old(self).initialized() ==> *final(self) == *old(self) && *final(delay) == *old(
                delay,
            ),
            ({
                let h0 = old(self).history();
                let h1 = final(self).history();
                let d0 = old(delay).history();
                let d1 = final(delay).history();
                &&& h1.take(h0.len() as int) == h0
                &&& (old(self).initialized() ==> match r {
                    Ok(g) => {
                        &&& h1.len() >= h0.len() + 3
                        &&& h1[h0.len() as int] == trigger_op::<I2C::Error>(Ok(()))
                        &&& (forall|k: int|
                            h0.len() + 1 <= k < h1.len() - 2 ==> is_busy_poll(#[trigger] h1[k]))
                        &&& is_ready_poll(h1[h1.len() - 2])
                        &&& (h1.last() matches BusOp::Read(a, n, Ok(p)) && a == I2C_ADDRESS && n
                            == 7 && p.len() == 7 && p[6] == crc8_spec(p.take(6))
                            && g.raw_humidity() == raw_humidity_of(p) && g.raw_temperature()
                            == raw_temperature_of(p))
                        &&& g.wf()
                        &&& d1 == d0.push(MEASUREMENT_DELAY_MS) + Seq::new(
                            (h1.len() - h0.len() - 3) as nat,
                            |k: int| POLL_INTERVAL_MS,
                        )
                    },
                    Err(e) => match e {
                        DHT20Error::I2C(be) => op_failed_with(h1.last(), be),
                        DHT20Error::CrcMismatch => h1.last() matches BusOp::Read(a, n, Ok(p))
                            && a == I2C_ADDRESS && n == 7 && p.len() == 7 && p[6] != crc8_spec(
                            p.take(6),
                        ),
                        DHT20Error::Timeout => h1.len() == h0.len() + 1 + MAX_POLL_ATTEMPTS
                            && is_busy_poll(h1.last()),
                        DHT20Error::NotInitialized => false,
                    },
                })
            }),
    {
        let ghost h0 = self.history();
        if !self.initialized {
            return Err(DHT20Error::NotInitialized);
        }
        match self.trigger_measurement(delay) {
            Ok(_) => (),
            Err(e) => {
                return Err(e);
            },
        }
        let ghost h_a = self.history();
        match self.wait_for_ready(delay) {
            Ok(_) => (),
            Err(e) => {
                proof {
                    lemma_prefix_trans(self.history(), h_a, h0);
                }
                return Err(e);
            },
        }
        let ghost h_b = self.history();
        proof {
            lemma_prefix_trans(h_b, h_a, h0);
            lemma_take_prefix(h_b, h_a);
        }
        let data = match self.read_measurement() {
            Ok(d) => d,
            Err(e) => {
                proof {
                    lemma_prefix_trans(self.history(), h_b, h0);
                }
                return Err(e);
            },
        };
        let (raw_humidity, raw_temperature) = extract_readings(data.as_slice());
        proof {
            lemma_prefix_trans(self.history(), h_b, h0);
            lemma_take_prefix(self.history(), h_b);
            let h1 = self.history();
            assert forall|k: int|
                h0.len() + 1 <= k < h1.len() - 2 implies is_busy_poll(#[trigger] h1[k]) by {
                assert(h1[k] == h_b[k]);
            }
            assert(h1[h1.len() - 2] == h_b[h_b.len() - 1]);
            assert(h1[h0.len() as int] == h_a[h0.len() as int]);
            match h1.last() {
                BusOp::Read(_, _, Ok(p)) => {
                    assert(raw_humidity_of(p.take(6)) == raw_humidity_of(p));
                    assert(raw_temperature_of(p.take(6)) == raw_temperature_of(p));
                },
                _ => (),
            }
            assert(delay.history() =~= old(delay).history().push(MEASUREMENT_DELAY_MS)
                + Seq::new((h1.len() - h0.len() - 3) as nat, |k: int| POLL_INTERVAL_MS));
        }
        Ok(DHTReading::new(raw_temperature, raw_humidity))
    }

    /// Takes one measurement but returns the six validated payload bytes
    /// undecoded, for diagnostic use. Same preconditions, wire traffic and
    /// failure modes as `take_reading`; the returned bytes are the first
    /// six of the fetched payload.
    pub fn read_raw<D: DelayMs>(&mut self, delay: &mut D) -> (r: Result<
        [u8; 6],
        DHT20Error<I2C::Error>,
    >)
        ensures
            final(self).initialized() == old(self).initialized(),
            (r matches Err(e) && e is NotInitialized) <==> !old(self).initialized(),
            !old(self).initialized() ==> *final(self) == *old(self) && *final(delay) == *old(
                delay,
            ),
            ({
                let h0 = old(self).history();
                let h1 = final(self).history();
                let d0 = old(delay).history();
                let d1 = final(delay).history();
                &&& h1.take(h0.len() as int) == h0
                &&& (old(self).initialized() ==> match r {
                    Ok(data) => {
                        &&& h1.len() >= h0.len() + 3
                        &&& h1[h0.len() as int] == trigger_op::<I2C::Error>(Ok(()))
                        &&& (forall|k: int|
                            h0.len() + 1 <= k < h1.len() - 2 ==> is_busy_poll(#[trigger] h1[k]))
                        &&& is_ready_poll(h1[h1.len() - 2])
                        &&& (h1.last() matches BusOp::Read(a, n, Ok(p)) && a == I2C_ADDRESS && n
                            == 7 && p.len() == 7 && p[6] == crc8_spec(p.take(6)) && data@ == p.take(
                            6,
                        ))
                        &&& d1 == d0.push(MEASUREMENT_DELAY_MS) + Seq::new(
                            (h1.len() - h0.len() - 3) as nat,
                            |k: int| POLL_INTERVAL_MS,
                        )
                    },
                    Err(e) => match e {
                        DHT20Error::I2C(be) => op_failed_with(h1.last(), be),
                        DHT20Error::CrcMismatch => h1.last() matches BusOp::Read(a, n, Ok(p))
                            && a == I2C_ADDRESS && n == 7 && p.len() == 7 && p[6] != crc8_spec(
                            p.take(6),
                        ),
                        DHT20Error::Timeout => h1.len() == h0.len() + 1 + MAX_POLL_ATTEMPTS
                            && is_busy_poll(h1.last()),
                        DHT20Error::NotInitialized => false,
                    },
                })
            }),
    {
        let ghost h0 = self.history();
        if !self.initialized {
            return Err(DHT20Error::NotInitialized);
        }
        match self.trigger_measurement(delay) {
            Ok(_) => (),
            Err(e) => {
                return Err(e);
            },
        }
        let ghost h_a = self.history();
        match self.wait_for_ready(delay) {
            Ok(_) => (),
            Err(e) => {
                proof {
                    lemma_prefix_trans(self.history(), h_a, h0);
                }
                return Err(e);
            },
        }
        let ghost h_b = self.history();
        proof {
            lemma_prefix_trans(h_b, h_a, h0);
            lemma_take_prefix(h_b, h_a);
        }
        let r = self.read_measurement();
        proof {
            lemma_prefix_trans(self.history(), h_b, h0);
            lemma_take_prefix(self.history(), h_b);
            let h1 = self.history();
            assert forall|k: int|
                h0.len() + 1 <= k < h1.len() - 2 implies is_busy_poll(#[trigger] h1[k]) by {
                assert(h1[k] == h_b[k]);
            }
            assert(h1[h1.len() - 2] == h_b[h_b.len() - 1]);
            assert(h1[h0.len() as int] == h_a[h0.len() as int]);
            if r is Ok {
                assert(delay.history() =~= old(delay).history().push(MEASUREMENT_DELAY_MS)
                    + Seq::new((h1.len() - h0.len() - 3) as nat, |k: int| POLL_INTERVAL_MS));
            }
        }
        r
    }

    /// Queries the status byte; if the calibration bits are not both set,
    /// resets the three fixed calibration registers, then lets the device
    /// settle and marks the handle ready. The wire traffic is exactly the
    /// `init_transcript` shape.
    fn check_init<D: DelayMs>(&mut self, delay: &mut D) -> (r: Result<
        (),
        DHT20Error<I2C::Error>,
    >)
        ensures
            r matches Ok(_) ==> final(self).initialized(),
            r matches Err(e) ==> e is I2C && final(self).initialized() == old(
                self,
            ).initialized(),
            init_transcript(
                old(self).history(),
                final(self).history(),
                old(delay).history(),
                final(delay).history(),
                r,
            ),
    {
        let ghost h0 = self.history();
        let ghost d0 = delay.history();
        let cmd: [u8; 1] = [OP_CHECK_STATUS];
        proof {
            assert(cmd@ =~= seq![OP_CHECK_STATUS]);
        }
        let status_buf = match self.i2c.write_read(I2C_ADDRESS, cmd.as_slice(), 1) {
            Ok(b) => b,
            Err(e) => {
                proof {
                    assert(self.history().take(h0.len() as int) =~= h0);
                    assert(d0.take(d0.len() as int) =~= d0);
                }
                return Err(DHT20Error::I2C(e));
            },
        };
        let ghost h_q = self.history();
        proof {
            assert(h_q.take(h0.len() as int) =~= h0);
        }
        let status = status_buf[0];
        if status & STATUS_CALIBRATED_MASK != STATUS_CALIBRATED_MASK {
            match self.reset_register(delay, 0x1B) {
                Ok(_) => (),
                Err(e) => {
                    proof {
                        lemma_prefix_trans(self.history(), h_q, h0);
                        lemma_take_prefix(self.history(), h_q);
                        assert(self.history()[h0.len() as int] == h_q[h0.len() as int]);
                    }
                    return Err(e);
                },
            }
            let ghost h_1 = self.history();
            let ghost d_1 = delay.history();
            proof {
                lemma_prefix_trans(h_1, h_q, h0);
            }
            match self.reset_register(delay, 0x1C) {
                Ok(_) => (),
                Err(e) => {
                    proof {
                        lemma_prefix_trans(self.history(), h_1, h0);
                        lemma_take_prefix(self.history(), h_1);
                        lemma_take_prefix(h_1, h_q);
                        assert(d_1.take(d0.len() as int) =~= d0);
                        lemma_prefix_trans(delay.history(), d_1, d0);
                        assert(self.history()[h0.len() as int] == h_1[h0.len() as int]);
                        assert(h_1[h0.len() as int] == h_q[h0.len() as int]);
                    }
                    return Err(e);
                },
            }
            let ghost h_2 = self.history();
            let ghost d_2 = delay.history();
            proof {
                lemma_prefix_trans(h_2, h_1, h0);
            }
            match self.reset_register(delay, 0x1E) {
                Ok(_) => (),
                Err(e) => {
                    proof {
                        lemma_prefix_trans(self.history(), h_2, h0);
                        lemma_take_prefix(self.history(), h_2);
                        lemma_take_prefix(h_2, h_1);
                        lemma_take_prefix(h_1, h_q);
                        assert(d_1.take(d0.len() as int) =~= d0);
                        assert(d_2.take(d0.len() as int) =~= d0);
                        lemma_prefix_trans(delay.history(), d_2, d0);
                        assert(self.history()[h0.len() as int] == h_2[h0.len() as int]);
                        assert(h_2[h0.len() as int] == h_1[h0.len() as int]);
                        assert(h_1[h0.len() as int] == h_q[h0.len() as int]);
                    }
                    return Err(e);
                },
            }
            let ghost h_3 = self.history();
            proof {
                lemma_prefix_trans(h_3, h_2, h0);
                lemma_take_prefix(h_3, h_2);
                lemma_take_prefix(h_2, h_1);
                lemma_take_prefix(h_1, h_q);
                assert(h_3[h0.len() as int] == h_2[h0.len() as int]);
                assert(h_2[h0.len() as int] == h_1[h0.len() as int]);
                assert(h_1[h0.len() as int] == h_q[h0.len() as int]);
                assert(h_3.subrange(h_q.len() as int, h_q.len() as int + 3) =~= h_1.skip(
                    h_q.len() as int,
                ));
                assert(h_3.subrange(h_q.len() as int + 3, h_q.len() as int + 6) =~= h_2.skip(h_1.len() as int));
                assert(h_3.subrange(h_q.len() as int + 6, h_q.len() as int + 9) =~= h_3.skip(h_2.len() as int));
            }
        }
        delay.delay_ms(SETTLE_DELAY_MS);
        self.initialized = true;
        proof {
            if status & STATUS_CALIBRATED_MASK != STATUS_CALIBRATED_MASK {
                assert(delay.history() =~= d0 + seq![
                    RESET_STEP_DELAY_MS,
                    RESET_STEP_DELAY_MS,
                    RESET_STEP_DELAY_MS,
                    RESET_STEP_DELAY_MS,
                    RESET_STEP_DELAY_MS,
                    RESET_STEP_DELAY_MS,
                    RESET_STEP_DELAY_MS,
                    RESET_STEP_DELAY_MS,
                    RESET_STEP_DELAY_MS,
                    SETTLE_DELAY_MS,
                ]);
            } else {
                assert(delay.history() == d0.push(SETTLE_DELAY_MS));
            }
            assert(delay.history().take(d0.len() as int) =~= d0);
        }
        Ok(())
    }

    /// Resets one calibration register: clear it, read its three bytes
    /// back, and rewrite the last two under the register address with the
    /// high mask bits set. Undocumented device behavior, reproduced from
    /// community reverse-engineering of the part. On success the wire
    /// traffic is one `reset_sequence` with a 5 ms pause after each step; a
    /// transport failure aborts at the failing step.
    fn reset_register<D: DelayMs>(&mut self, delay: &mut D, reg: u8) -> (r: Result<
        (),
        DHT20Error<I2C::Error>,
    >)
        ensures
            final(self).initialized() == old(self).initialized(),
            ({
                let h0 = old(self).history();
                let h1 = final(self).history();
                let d0 = old(delay).history();
                let d1 = final(delay).history();
                &&& h1.take(h0.len() as int) == h0
                &&& d1.take(d0.len() as int) == d0
                &&& match r {
                    Ok(_) => h1.len() == h0.len() + 3 && reset_sequence(
                        reg,
                        h1.skip(h0.len() as int),
                    ) && d1 == d0 + seq![
                        RESET_STEP_DELAY_MS,
                        RESET_STEP_DELAY_MS,
                        RESET_STEP_DELAY_MS,
                    ],
                    Err(e) => e matches DHT20Error::I2C(be) && op_failed_with(h1.last(), be) && {
                        ||| (h1 == h0.push(
                            BusOp::Write(I2C_ADDRESS, seq![reg, 0x00u8, 0x00u8], Err(be)),
                        ) && d1 == d0)
                        ||| (h1.len() == h0.len() + 2 && h1.last() == BusOp::WriteRead(
                            I2C_ADDRESS,
                            seq![reg],
                            3,
                            Err(be),
                        ) && d1 == d0.push(RESET_STEP_DELAY_MS))
                        ||| (h1.len() == h0.len() + 3 && d1 == d0 + seq![
                            RESET_STEP_DELAY_MS,
                            RESET_STEP_DELAY_MS,
                        ])
                    },
                }
            }),
    {
        let ghost h0 = self.history();
        let ghost d0 = delay.history();
        let clear_cmd: [u8; 3] = [reg, 0x00, 0x00];
        proof {
            assert(clear_cmd@ =~= seq![reg, 0x00u8, 0x00u8]);
        }
        match self.i2c.write(I2C_ADDRESS, clear_cmd.as_slice()) {
            Ok(_) => (),
            Err(e) => {
                proof {
                    assert(self.history().take(h0.len() as int) =~= h0);
                    assert(d0.take(d0.len() as int) =~= d0);
                }
                return Err(DHT20Error::I2C(e));
            },
        }
        delay.delay_ms(RESET_STEP_DELAY_MS);
        let read_cmd: [u8; 1] = [reg];
        proof {
            assert(read_cmd@ =~= seq![reg]);
        }
        let buffer = match self.i2c.write_read(I2C_ADDRESS, read_cmd.as_slice(), 3) {
            Ok(b) => b,
            Err(e) => {
                proof {
                    assert(self.history().take(h0.len() as int) =~= h0);
                    assert(delay.history().take(d0.len() as int) =~= d0);
                }
                return Err(DHT20Error::I2C(e));
            },
        };
        delay.delay_ms(RESET_STEP_DELAY_MS);
        let restore_cmd: [u8; 3] = [0xB0 | reg, buffer[1], buffer[2]];
        proof {
            assert(restore_cmd@ =~= seq![0xB0u8 | reg, buffer@[1], buffer@[2]]);
        }
        match self.i2c.write(I2C_ADDRESS, restore_cmd.as_slice()) {
            Ok(_) => (),
            Err(e) => {
                proof {
                    assert(self.history().take(h0.len() as int) =~= h0);
                    assert(delay.history() =~= d0 + seq![RESET_STEP_DELAY_MS, RESET_STEP_DELAY_MS]);
                    assert(delay.history().take(d0.len() as int) =~= d0);
                }
                return Err(DHT20Error::I2C(e));
            },
        }
        delay.delay_ms(RESET_STEP_DELAY_MS);
        proof {
            assert(self.history().take(h0.len() as int) =~= h0);
            assert(self.history().skip(h0.len() as int) =~= seq![
                self.history()[h0.len() as int],
                self.history()[h0.len() as int + 1],
                self.history()[h0.len() as int + 2],
            ]);
            assert(delay.history() =~= d0 + seq![
                RESET_STEP_DELAY_MS,
                RESET_STEP_DELAY_MS,
                RESET_STEP_DELAY_MS,
            ]);
            assert(delay.history().take(d0.len() as int) =~= d0);
        }
        Ok(())
    }

    /// Sends the trigger opcode with its two fixed argument bytes, then
    /// waits out the minimum conversion time. The wire traffic is exactly
    /// one `trigger_op`.
    fn trigger_measurement<D: DelayMs>(&mut self, delay: &mut D) -> (r: Result<
        (),
        DHT20Error<I2C::Error>,
    >)
        ensures
            final(self).initialized() == old(self).initialized(),
            final(self).history().take(old(self).history().len() as int) == old(self).history(),
            match r {
                Ok(_) => final(self).history() == old(self).history().push(
                    trigger_op::<I2C::Error>(Ok(())),
                ) && final(delay).history() == old(delay).history().push(MEASUREMENT_DELAY_MS),
                Err(e) => e matches DHT20Error::I2C(be) && final(self).history() == old(
                    self,
                ).history().push(trigger_op::<I2C::Error>(Err(be))) && final(delay).history()
                    == old(delay).history(),
            },
    {
        let ghost h0 = self.history();
        let command: [u8; 3] = [OP_TRIGGER_MEASUREMENT, 0x33, 0x00];
        proof {
            assert(command@ =~= seq![OP_TRIGGER_MEASUREMENT, 0x33u8, 0x00u8]);
        }
        match self.i2c.write(I2C_ADDRESS, command.as_slice()) {
            Ok(_) => (),
            Err(e) => {
                proof {
                    assert(self.history().take(h0.len() as int) =~= h0);
                }
                return Err(DHT20Error::I2C(e));
            },
        }
        delay.delay_ms(MEASUREMENT_DELAY_MS);
        proof {
            assert(self.history().take(h0.len() as int) =~= h0);
        }
        Ok(())
    }

    /// Polls the status byte until the busy bit clears, pausing between
    /// polls, up to the polling bound. The wire traffic is some busy polls
    /// followed by one ready poll (`Ok`), one failed poll (transport
    /// error), or nothing further (`Timeout` after the bound), with one
    /// poll-interval pause after each busy poll.
    #[verifier::loop_isolation(false)]
    fn wait_for_ready<D: DelayMs>(&mut self, delay: &mut D) -> (r: Result<
        (),
        DHT20Error<I2C::Error>,
    >)
        ensures
            final(self).initialized() == old(self).initialized(),
            ({
                let h0 = old(self).history();
                let h1 = final(self).history();
                let d0 = old(delay).history();
                let d1 = final(delay).history();
                &&& h1.len() > h0.len()
                &&& h1.take(h0.len() as int) == h0
                &&& (forall|k: int| h0.len() <= k < h1.len() - 1 ==> is_busy_poll(#[trigger] h1[k]))
                &&& match r {
                    Ok(_) => is_ready_poll(h1.last()) && d1 == d0 + Seq::new(
                        (h1.len() - h0.len() - 1) as nat,
                        |k: int| POLL_INTERVAL_MS,
                    ),
                    Err(e) => match e {
                        DHT20Error::I2C(be) => h1.last() == status_poll::<I2C::Error>(Err(be))
                            && d1 == d0 + Seq::new(
                            (h1.len() - h0.len() - 1) as nat,
                            |k: int| POLL_INTERVAL_MS,
                        ),
                        DHT20Error::Timeout => h1.len() == h0.len() + MAX_POLL_ATTEMPTS
                            && is_busy_poll(h1.last()) && d1 == d0 + Seq::new(
                            MAX_POLL_ATTEMPTS as nat,
                            |k: int| POLL_INTERVAL_MS,
                        ),
                        _ => false,
                    },
                }
            }),
    {
        let ghost h0 = self.history();
        let ghost d0 = delay.history();
        proof {
            assert(h0.take(h0.len() as int) =~= h0);
            assert(delay.history() =~= d0 + Seq::new(0, |k: int| POLL_INTERVAL_MS));
        }
        let mut attempts: u32 = 0;
        while attempts < MAX_POLL_ATTEMPTS
            invariant
                self.initialized == old(self).initialized,
                attempts <= MAX_POLL_ATTEMPTS,
                self.history().len() == h0.len() + attempts,
                self.history().take(h0.len() as int) == h0,
                forall|k: int|
                    h0.len() <= k < self.history().len() ==> is_busy_poll(
                        #[trigger] self.history()[k],
                    ),
                delay.history() == d0 + Seq::new(attempts as nat, |k: int| POLL_INTERVAL_MS),
            decreases MAX_POLL_ATTEMPTS - attempts,
        {
            let cmd: [u8; 1] = [OP_CHECK_STATUS];
            proof {
                assert(cmd@ =~= seq![OP_CHECK_STATUS]);
            }
            let ghost h_pre = self.history();
            let status_buf = match self.i2c.write_read(I2C_ADDRESS, cmd.as_slice(), 1) {
                Ok(b) => b,
                Err(e) => {
                    proof {
                        assert(self.history().take(h_pre.len() as int) =~= h_pre);
                        lemma_prefix_trans(self.history(), h_pre, h0);
                        lemma_take_prefix(self.history(), h_pre);
                    }
                    return Err(DHT20Error::I2C(e));
                },
            };
            proof {
                assert(self.history().take(h_pre.len() as int) =~= h_pre);
                lemma_prefix_trans(self.history(), h_pre, h0);
                lemma_take_prefix(self.history(), h_pre);
            }
            if status_buf[0] & STATUS_BUSY_MASK == 0 {
                return Ok(());
            }
            delay.delay_ms(POLL_INTERVAL_MS);
            proof {
                assert(delay.history() =~= d0 + Seq::new(
                    (attempts + 1) as nat,
                    |k: int| POLL_INTERVAL_MS,
                ));
            }
            attempts = attempts + 1;
        }
        Err(DHT20Error::Timeout)
    }

    /// Reads the 7-byte payload (six data bytes and one checksum byte) and
    /// validates it: the six data bytes are returned exactly when the
    /// checksum byte equals the checksum computed over them, else the
    /// payload is discarded with `CrcMismatch`. The wire traffic is one
    /// `fetch_op`; no delay is taken.
    fn read_measurement(&mut self) -> (r: Result<[u8; 6], DHT20Error<I2C::Error>>)
        ensures
            final(self).initialized() == old(self).initialized(),
            ({
                let h0 = old(self).history();
                let h1 = final(self).history();
                &&& h1.len() == h0.len() + 1
                &&& h1.take(h0.len() as int) == h0
                &&& match r {
                    Ok(data) => h1.last() matches BusOp::Read(a, n, Ok(p)) && a == I2C_ADDRESS
                        && n == 7 && p.len() == 7 && data@ == p.take(6) && p[6] == crc8_spec(
                        p.take(6),
                    ),
                    Err(e) => match e {
                        DHT20Error::I2C(be) => h1.last() == fetch_op::<I2C::Error>(Err(be)),
                        DHT20Error::CrcMismatch => h1.last() matches BusOp::Read(a, n, Ok(p))
                            && a == I2C_ADDRESS && n == 7 && p.len() == 7 && p[6] != crc8_spec(
                            p.take(6),
                        ),
                        _ => false,
                    },
                }
            }),
    {
        let ghost h0 = self.history();
        let buffer = match self.i2c.read(I2C_ADDRESS, 7) {
            Ok(b) => b,
            Err(e) => {
                proof {
                    assert(self.history().take(h0.len() as int) =~= h0);
                }
                return Err(DHT20Error::I2C(e));
            },
        };
        proof {
            assert(self.history().take(h0.len() as int) =~= h0);
        }
        if !payload_checksum_ok(buffer.as_slice()) {
            return Err(DHT20Error::CrcMismatch);
        }
        let data: [u8; 6] = [buffer[0], buffer[1], buffer[2], buffer[3], buffer[4], buffer[5]];
        proof {
            assert(data@ =~= buffer@.take(6));
        }
        Ok(data)
    }
}

} // verus!
