//! End-to-end tests of the driver protocol against a scripted bus stub.

use std::cell::RefCell;
use std::rc::Rc;

use dht20::compute_crc8;
use dht20::DelayMs;
use dht20::Dht20;
use dht20::DHT20Error;
use dht20::I2cBus;

/// One bus transaction, as the stub records it.
#[derive(Debug, Clone, PartialEq)]
enum Tx {
    Write(u8, Vec<u8>),
    WriteRead(u8, Vec<u8>, usize),
    Read(u8, usize),
}

/// A scripted bus: answers status queries, register reads and payload
/// fetches from fixed fields, and records every transaction.
struct ScriptedBus {
    log: Rc<RefCell<Vec<Tx>>>,
    /// Status byte once the device is no longer busy.
    status: u8,
    /// How many status queries report busy before the ready one.
    busy_polls: usize,
    /// The 7 bytes handed out on a payload fetch.
    payload: Vec<u8>,
    /// When set, every operation fails with this transport error.
    fail_with: Option<u8>,
}

impl ScriptedBus {
    fn new(status: u8, payload: Vec<u8>) -> (Self, Rc<RefCell<Vec<Tx>>>) {
        let log = Rc::new(RefCell::new(Vec::new()));
        let bus = ScriptedBus {
            log: Rc::clone(&log),
            status,
            busy_polls: 0,
            payload,
            fail_with: None,
        };
        (bus, log)
    }
}

impl I2cBus for ScriptedBus {
    type Error = u8;

    // The ghost transcript is proof-only and never evaluated at run time.
    fn history(&self) -> dht20::bus::BusHistory<u8> {
        unreachable!()
    }

    fn write(&mut self, address: u8, bytes: &[u8]) -> Result<(), u8> {
        self.log.borrow_mut().push(Tx::Write(address, bytes.to_vec()));
        match self.fail_with {
            Some(e) => Err(e),
            None => Ok(()),
        }
    }

    fn read(&mut self, address: u8, len: usize) -> Result<Vec<u8>, u8> {
        self.log.borrow_mut().push(Tx::Read(address, len));
        match self.fail_with {
            Some(e) => Err(e),
            None => Ok(self.payload[..len].to_vec()),
        }
    }

    fn write_read(&mut self, address: u8, bytes: &[u8], read_len: usize) -> Result<Vec<u8>, u8> {
        self.log
            .borrow_mut()
            .push(Tx::WriteRead(address, bytes.to_vec(), read_len));
        if let Some(e) = self.fail_with {
            return Err(e);
        }
        if bytes == [0x71] && read_len == 1 {
            if self.busy_polls > 0 {
                self.busy_polls -= 1;
                return Ok(vec![self.status | 0x80]);
            }
            return Ok(vec![self.status]);
        }
        // A register read during recalibration: three scripted bytes.
        Ok(vec![0xA5, 0x5A, 0x3C][..read_len.min(3)].to_vec())
    }
}

/// A delay that only records the requested durations.
struct LoggedDelay {
    log: Vec<u32>,
}

impl LoggedDelay {
    fn new() -> Self {
        LoggedDelay { log: Vec::new() }
    }
}

impl DelayMs for LoggedDelay {
    // The ghost transcript is proof-only and never evaluated at run time.
    fn history(&self) -> dht20::bus::DelayHistory {
        unreachable!()
    }

    fn delay_ms(&mut self, ms: u32) {
        self.log.push(ms);
    }
}

/// A 7-byte payload with a valid trailing checksum for the given fields.
fn valid_payload(bytes6: [u8; 6]) -> Vec<u8> {
    let mut payload = bytes6.to_vec();
    payload.push(compute_crc8(&bytes6));
    payload
}

#[test]
fn test_init_calibrated_no_reset() {
    let (bus, log) = ScriptedBus::new(0x18, valid_payload([0; 6]));
    let mut delay = LoggedDelay::new();
    let mut sensor = Dht20::new(bus);

    assert!(!sensor.is_initialized());
    assert!(sensor.init(&mut delay).is_ok());
    assert!(sensor.is_initialized());

    // One status query, and not a single register-reset write.
    assert_eq!(*log.borrow(), vec![Tx::WriteRead(0x38, vec![0x71], 1)]);
    // Power-up settling, then the post-check settling.
    assert_eq!(delay.log, vec![100, 10]);
}

#[test]
fn test_init_uncalibrated_resets_three_registers() {
    let (bus, log) = ScriptedBus::new(0x00, valid_payload([0; 6]));
    let mut delay = LoggedDelay::new();
    let mut sensor = Dht20::new(bus);

    assert!(sensor.init(&mut delay).is_ok());
    assert!(sensor.is_initialized());

    let mut expected = vec![Tx::WriteRead(0x38, vec![0x71], 1)];
    for reg in [0x1B, 0x1C, 0x1E] {
        expected.push(Tx::Write(0x38, vec![reg, 0x00, 0x00]));
        expected.push(Tx::WriteRead(0x38, vec![reg], 3));
        // The read-back bytes 1 and 2, written back under the OR-mask.
        expected.push(Tx::Write(0x38, vec![0xB0 | reg, 0x5A, 0x3C]));
    }
    assert_eq!(*log.borrow(), expected);
    // 100 ms power-up, three resets of three 5 ms pauses, 10 ms settling.
    assert_eq!(delay.log, vec![100, 5, 5, 5, 5, 5, 5, 5, 5, 5, 10]);
}

#[test]
fn test_init_transport_error_leaves_uninitialized() {
    let (mut bus, _log) = ScriptedBus::new(0x18, valid_payload([0; 6]));
    bus.fail_with = Some(9);
    let mut delay = LoggedDelay::new();
    let mut sensor = Dht20::new(bus);

    assert!(matches!(sensor.init(&mut delay), Err(DHT20Error::I2C(9))));
    assert!(!sensor.is_initialized());
}

#[test]
fn test_take_reading_before_init_no_bus_traffic() {
    let (bus, log) = ScriptedBus::new(0x18, valid_payload([0; 6]));
    let mut delay = LoggedDelay::new();
    let mut sensor = Dht20::new(bus);

    let r = sensor.take_reading(&mut delay);
    assert!(matches!(r, Err(DHT20Error::NotInitialized)));
    assert!(log.borrow().is_empty());
    assert!(delay.log.is_empty());

    let r = sensor.read_raw(&mut delay);
    assert!(matches!(r, Err(DHT20Error::NotInitialized)));
    assert!(log.borrow().is_empty());
}

#[test]
fn test_take_reading_decodes_valid_payload() {
    let payload = valid_payload([0x18, 0x80, 0x00, 0x00, 0x06, 0x66]);
    let (bus, log) = ScriptedBus::new(0x18, payload);
    let mut delay = LoggedDelay::new();
    let mut sensor = Dht20::new(bus);

    sensor.init(&mut delay).unwrap();
    let reading = sensor.take_reading(&mut delay).unwrap();

    assert_eq!(reading.raw_humidity(), 0x80000);
    assert_eq!(reading.raw_temperature(), 0x00666);
    assert_eq!(reading.humidity_milli_percent(), 50_000);

    // Trigger, one ready poll, one 7-byte fetch, after the init query.
    assert_eq!(
        *log.borrow(),
        vec![
            Tx::WriteRead(0x38, vec![0x71], 1),
            Tx::Write(0x38, vec![0xAC, 0x33, 0x00]),
            Tx::WriteRead(0x38, vec![0x71], 1),
            Tx::Read(0x38, 7),
        ]
    );
    // 100 and 10 from init, 80 after the trigger.
    assert_eq!(delay.log, vec![100, 10, 80]);
}

#[test]
fn test_take_reading_waits_out_busy_polls() {
    let payload = valid_payload([0x18, 0x80, 0x00, 0x00, 0x06, 0x66]);
    let (mut bus, log) = ScriptedBus::new(0x18, payload);
    // Init's own status query consumes the first busy answer (the busy bit
    // does not affect the calibration check); two remain for the reading.
    bus.busy_polls = 3;
    let mut delay = LoggedDelay::new();
    let mut sensor = Dht20::new(bus);

    sensor.init(&mut delay).unwrap();
    let r = sensor.take_reading(&mut delay);
    assert!(r.is_ok());

    let polls = log
        .borrow()
        .iter()
        .filter(|t| matches!(t, Tx::WriteRead(_, b, 1) if b == &vec![0x71]))
        .count();
    assert_eq!(polls, 4); // one from init, three from the reading
    // 10 ms between polls: 100, 10 (init), 80 (trigger), 10, 10 (two busy polls).
    assert_eq!(delay.log, vec![100, 10, 80, 10, 10]);
}

#[test]
fn test_take_reading_checksum_mismatch() {
    let mut payload = valid_payload([0x18, 0x80, 0x00, 0x00, 0x06, 0x66]);
    payload[6] ^= 0xFF;
    let (bus, _log) = ScriptedBus::new(0x18, payload);
    let mut delay = LoggedDelay::new();
    let mut sensor = Dht20::new(bus);

    sensor.init(&mut delay).unwrap();
    let r = sensor.take_reading(&mut delay);
    assert!(matches!(r, Err(DHT20Error::CrcMismatch)));
    // The handle stays ready: the caller may simply retry.
    assert!(sensor.is_initialized());
}

#[test]
fn test_read_raw_returns_undecoded_payload() {
    let payload = valid_payload([0x18, 0x80, 0x00, 0x00, 0x06, 0x66]);
    let (bus, _log) = ScriptedBus::new(0x18, payload);
    let mut delay = LoggedDelay::new();
    let mut sensor = Dht20::new(bus);

    sensor.init(&mut delay).unwrap();
    let raw = sensor.read_raw(&mut delay).unwrap();
    assert_eq!(raw, [0x18, 0x80, 0x00, 0x00, 0x06, 0x66]);
}

#[test]
fn test_take_reading_transport_error() {
    // Every bus operation fails: initialization surfaces the transport
    // error unchanged, and the handle never becomes ready.
    let (mut bus, _log) = ScriptedBus::new(0x18, valid_payload([0; 6]));
    bus.fail_with = Some(3);
    let mut delay = LoggedDelay::new();
    let mut sensor = Dht20::new(bus);

    assert!(matches!(sensor.init(&mut delay), Err(DHT20Error::I2C(3))));
    assert!(matches!(
        sensor.take_reading(&mut delay),
        Err(DHT20Error::NotInitialized)
    ));
}

#[test]
fn test_take_reading_timeout_when_never_ready() {
    let payload = valid_payload([0x18, 0x80, 0x00, 0x00, 0x06, 0x66]);
    let (mut bus, _log) = ScriptedBus::new(0x18, payload);
    bus.busy_polls = usize::MAX; // the device never reports ready
    let mut delay = LoggedDelay::new();
    let mut sensor = Dht20::new(bus);

    sensor.init(&mut delay).unwrap();
    let r = sensor.take_reading(&mut delay);
    assert!(matches!(r, Err(DHT20Error::Timeout)));
}

#[test]
fn test_error_from_wraps_transport_error() {
    let e: DHT20Error<u8> = DHT20Error::from(7u8);
    assert!(matches!(e, DHT20Error::I2C(7)));
}
