//! Synthetic records for fixtures and test payloads. Every value lies in the
//! domain declared for its field, and all randomness comes from the source
//! that the caller hands in.

use crate::log_entry::{LogEntry, LogEntryView};
use crate::mixed::{MixedRecord, MixedRecordView};
use crate::random::{draw_below, draw_bytes, draw_ratio};
use crate::record::Record;
use crate::sensor::SensorReading;
use rand::rngs::StdRng;
use vstd::prelude::*;
use vstd::utf8::{encode_utf8, is_ascii_chars, is_ascii_chars_encode_utf8};

verus! {

/// Timestamps lie less than this many seconds after the moment of generation.
pub const TIMESTAMP_WINDOW: u64 = 3600;

/// The smallest sensor id.
pub const SENSOR_ID_MIN: u32 = 1000;

/// The bound that sensor ids stay below.
pub const SENSOR_ID_END: u32 = 9999;

/// The number of severity levels; levels are counted from zero.
pub const LEVELS: u8 = 4;

/// The number of canned log messages.
pub const CANNED_MESSAGES: usize = 8;

/// The chance of a sensor reading among mixed records, as a ratio.
pub const SENSOR_SHARE: (u32, u32) = (3, 5);

/// The bit pattern of 15.0, the least temperature.
pub const TEMPERATURE_MIN: u32 = 0x4170_0000;

/// The bit pattern of 35.0, which temperatures stay below.
pub const TEMPERATURE_END: u32 = 0x420c_0000;

/// The bit pattern of 30.0, the least humidity.
pub const HUMIDITY_MIN: u32 = 0x41f0_0000;

/// The bit pattern of 80.0, which humidities stay below.
pub const HUMIDITY_END: u32 = 0x42a0_0000;

/// The bit pattern of 990.0, the least pressure.
pub const PRESSURE_MIN: u32 = 0x4477_8000;

/// The bit pattern of 1030.0, which pressures stay below.
pub const PRESSURE_END: u32 = 0x4480_c000;

/// The three measurements of a reading, each the IEEE 754 bit pattern of a
/// single precision number. Among positive numbers the bit patterns are
/// ordered as the numbers are, so an interval of positive numbers is an
/// interval of bit patterns.
#[derive(Clone, Copy, Debug, PartialEq, Eq, Structural)]
pub struct Measurements {
    /// Degrees.
    pub temperature: u32,
    /// Relative humidity.
    pub humidity: u32,
    /// Air pressure.
    pub pressure: u32,
}

impl Measurements {
    /// Whether the temperature lies in [15, 35), the humidity in [30, 80)
    /// and the pressure in [990, 1030).
    pub open spec fn in_domain(self) -> bool {
        &&& TEMPERATURE_MIN <= self.temperature < TEMPERATURE_END
        &&& HUMIDITY_MIN <= self.humidity < HUMIDITY_END
        &&& PRESSURE_MIN <= self.pressure < PRESSURE_END
    }

    /// Whether the three measurements lie in their domains.
    pub fn is_in_domain(&self) -> (ok: bool)
        ensures
            ok == self.in_domain(),
    {
        TEMPERATURE_MIN <= self.temperature && self.temperature < TEMPERATURE_END && HUMIDITY_MIN
            <= self.humidity && self.humidity < HUMIDITY_END && PRESSURE_MIN <= self.pressure
            && self.pressure < PRESSURE_END
    }
}

/// Whether a timestamp of the window that opens at `now` fits the field.
pub open spec fn window_fits(now: u64) -> bool {
    now + TIMESTAMP_WINDOW <= u64::MAX
}

impl SensorReading {
    /// The measurements of the reading.
    pub open spec fn measurements(self) -> Measurements {
        Measurements {
            temperature: self.temperature,
            humidity: self.humidity,
            pressure: self.pressure,
        }
    }

    /// Whether the reading is one that the generator may produce at `now`.
    pub open spec fn in_domain(self, now: u64) -> bool {
        &&& now <= self.timestamp < now + TIMESTAMP_WINDOW
        &&& SENSOR_ID_MIN <= self.sensor_id < SENSOR_ID_END
        &&& self.measurements().in_domain()
    }

    /// The reading that the given draws make, or nothing where one of them
    /// lies outside its domain or the timestamp does not fit its field.
    pub fn from_draws(now: u64, offset: u64, sensor_id: u64, measured: Measurements) -> (reading:
        Option<SensorReading>)
        ensures
            reading is Some <==> {
                &&& offset < TIMESTAMP_WINDOW
                &&& now + offset <= u64::MAX
                &&& SENSOR_ID_MIN <= sensor_id < SENSOR_ID_END
                &&& measured.in_domain()
            },
            reading matches Some(r) ==> r == (SensorReading {
                timestamp: (now + offset) as u64,
                sensor_id: sensor_id as u32,
                temperature: measured.temperature,
                humidity: measured.humidity,
                pressure: measured.pressure,
            }) && r.in_domain(now),
    {
        if offset >= TIMESTAMP_WINDOW || now > u64::MAX - offset {
            return None;
        }
        if sensor_id < SENSOR_ID_MIN as u64 || sensor_id >= SENSOR_ID_END as u64 {
            return None;
        }
        if !measured.is_in_domain() {
            return None;
        }
        Some(
            SensorReading {
                timestamp: now + offset,
                sensor_id: sensor_id as u32,
                temperature: measured.temperature,
                humidity: measured.humidity,
                pressure: measured.pressure,
            },
        )
    }

    /// A random reading taken at `now` with the given measurements: the
    /// timestamp falls into the window behind `now`, the sensor id into its
    /// range. There is none where the measurements lie outside their domains
    /// or the window does not fit the timestamp field.
    pub fn random(rng: &mut StdRng, now: u64, measured: Measurements) -> (reading: Option<
        SensorReading,
    >)
        ensures
            reading is Some <==> window_fits(now) && measured.in_domain(),
            reading matches Some(r) ==> r.in_domain(now) && r.measurements() == measured,
    {
        if now > u64::MAX - TIMESTAMP_WINDOW || !measured.is_in_domain() {
            return None;
        }
        let offset: u64 = draw_below(rng, 0, TIMESTAMP_WINDOW);
        let sensor_id: u64 = draw_below(rng, SENSOR_ID_MIN as u64, SENSOR_ID_END as u64);
        SensorReading::from_draws(now, offset, sensor_id, measured)
    }
}

/// The text of the canned message with the given number.
pub open spec fn canned_text(choice: int) -> Seq<char> {
    if choice == 0 {
        "System startup completed"@
    } else if choice == 1 {
        "Database connection established"@
    } else if choice == 2 {
        "Processing batch job"@
    } else if choice == 3 {
        "Warning: High memory usage detected"@
    } else if choice == 4 {
        "Error: Failed to connect to external service"@
    } else if choice == 5 {
        "User authentication successful"@
    } else if choice == 6 {
        "Cache cleared successfully"@
    } else {
        "Backup process initiated"@
    }
}

/// The canned message with the given number.
pub fn canned_message(choice: usize) -> (text: &'static str)
    requires
        choice < CANNED_MESSAGES,
    ensures
        text@ == canned_text(choice as int),
{
    if choice == 0 {
        "System startup completed"
    } else if choice == 1 {
        "Database connection established"
    } else if choice == 2 {
        "Processing batch job"
    } else if choice == 3 {
        "Warning: High memory usage detected"
    } else if choice == 4 {
        "Error: Failed to connect to external service"
    } else if choice == 5 {
        "User authentication successful"
    } else if choice == 6 {
        "Cache cleared successfully"
    } else {
        "Backup process initiated"
    }
}

/// Every canned message is plain ASCII and short enough for the length field.
pub proof fn lemma_canned_text_fits(choice: int)
    ensures
        is_ascii_chars(canned_text(choice)),
        encode_utf8(canned_text(choice)).len() == canned_text(choice).len(),
        canned_text(choice).len() <= 44,
{
    reveal_strlit("System startup completed");
    reveal_strlit("Database connection established");
    reveal_strlit("Processing batch job");
    reveal_strlit("Warning: High memory usage detected");
    reveal_strlit("Error: Failed to connect to external service");
    reveal_strlit("User authentication successful");
    reveal_strlit("Cache cleared successfully");
    reveal_strlit("Backup process initiated");
    assert(is_ascii_chars(canned_text(choice)));
    is_ascii_chars_encode_utf8(canned_text(choice));
}

impl LogEntry {
    /// Whether the entry is one that the generator may produce at `now`: the
    /// timestamp lies in the window behind `now`, the level is one of the
    /// four, the message is one of the canned ones and the length field
    /// agrees with it.
    pub open spec fn in_domain(v: LogEntryView, now: u64) -> bool {
        &&& now <= v.timestamp < now + TIMESTAMP_WINDOW
        &&& v.level < LEVELS
        &&& exists|choice: int| 0 <= choice < CANNED_MESSAGES && v.message == canned_text(choice)
        &&& LogEntry::valid(v)
    }

    /// The entry that the given draws make, or nothing where one of them
    /// lies outside its domain or the timestamp does not fit its field.
    pub fn from_draws(now: u64, offset: u64, level: u64, choice: u64) -> (entry: Option<LogEntry>)
        ensures
            entry is Some <==> {
                &&& offset < TIMESTAMP_WINDOW
                &&& now + offset <= u64::MAX
                &&& level < LEVELS
                &&& choice < CANNED_MESSAGES
            },
            entry matches Some(e) ==> e@ == (LogEntryView {
                timestamp: (now + offset) as u64,
                level: level as u8,
                message_length: canned_text(choice as int).len() as u16,
                message: canned_text(choice as int),
            }) && LogEntry::in_domain(e@, now),
    {
        if offset >= TIMESTAMP_WINDOW || now > u64::MAX - offset {
            return None;
        }
        if level >= LEVELS as u64 || choice >= CANNED_MESSAGES as u64 {
            return None;
        }
        proof {
            lemma_canned_text_fits(choice as int);
        }
        let message: String = canned_message(choice as usize).to_string();
        let entry = LogEntry::new(now + offset, level as u8, message);
        entry
    }

    /// A random entry written at `now`: one of the canned messages, a
    /// timestamp in the window behind `now`, one of the four levels. There is
    /// none where the window does not fit the timestamp field.
    pub fn random(rng: &mut StdRng, now: u64) -> (entry: Option<LogEntry>)
        ensures
            entry is Some <==> window_fits(now),
            entry matches Some(e) ==> LogEntry::in_domain(e@, now),
    {
        if now > u64::MAX - TIMESTAMP_WINDOW {
            return None;
        }
        let choice: u64 = draw_below(rng, 0, CANNED_MESSAGES as u64);
        let offset: u64 = draw_below(rng, 0, TIMESTAMP_WINDOW);
        let level: u64 = draw_below(rng, 0, LEVELS as u64);
        LogEntry::from_draws(now, offset, level, choice)
    }
}

impl MixedRecord {
    /// Whether the record is one that the generator may produce at `now`.
    pub open spec fn in_domain(v: MixedRecordView, now: u64) -> bool {
        match v {
            MixedRecordView::Sensor(reading) => reading.in_domain(now),
            MixedRecordView::Log(entry) => LogEntry::in_domain(entry, now),
        }
    }

    /// A random record written at `now`: a sensor reading with the given
    /// measurements three times out of five, else a log entry. There is none
    /// where the measurements lie outside their domains or the window does
    /// not fit the timestamp field.
    pub fn random(rng: &mut StdRng, now: u64, measured: Measurements) -> (record: Option<
        MixedRecord,
    >)
        ensures
            record is Some <==> window_fits(now) && measured.in_domain(),
            record matches Some(r) ==> MixedRecord::in_domain(r@, now),
            record matches Some(MixedRecord::Sensor(reading)) ==> reading.measurements()
                == measured,
    {
        if now > u64::MAX - TIMESTAMP_WINDOW || !measured.is_in_domain() {
            return None;
        }
        if draw_ratio(rng, SENSOR_SHARE.0, SENSOR_SHARE.1) {
            match SensorReading::random(rng, now, measured) {
                Some(reading) => Some(MixedRecord::Sensor(reading)),
                None => None,
            }
        } else {
            match LogEntry::random(rng, now) {
                Some(entry) => Some(MixedRecord::Log(entry)),
                None => None,
            }
        }
    }
}

/// One random sensor reading for each of the given measurements, in their
/// order. There are none where some measurements lie outside their domains
/// or the window behind `now` does not fit the timestamp field.
pub fn random_sensor_readings(rng: &mut StdRng, now: u64, measured: &Vec<Measurements>) -> (readings:
    Option<Vec<SensorReading>>)
    ensures
        readings is Some <==> window_fits(now) && forall|i: int|
            0 <= i < measured@.len() ==> (#[trigger] measured@[i]).in_domain(),
        readings matches Some(v) ==> v@.len() == measured@.len() && forall|i: int|
            0 <= i < v@.len() ==> (#[trigger] v@[i]).in_domain(now) && v@[i].measurements()
                == measured@[i],
{
    if now > u64::MAX - TIMESTAMP_WINDOW {
        return None;
    }
    let mut readings: Vec<SensorReading> = Vec::new();
    let mut i: usize = 0;
    while i < measured.len()
        invariant
            i <= measured@.len(),
            window_fits(now),
            readings@.len() == i,
            forall|j: int| 0 <= j < i ==> (#[trigger] measured@[j]).in_domain(),
            forall|j: int|
                0 <= j < i ==> (#[trigger] readings@[j]).in_domain(now) && readings@[j].measurements()
                    == measured@[j],
        decreases measured@.len() - i,
    {
        match SensorReading::random(rng, now, measured[i]) {
            Some(reading) => {
                readings.push(reading);
            },
            None => {
                return None;
            },
        }
        i += 1;
    }
    Some(readings)
}

/// `count` random log entries written at `now`. There are none where the
/// window behind `now` does not fit the timestamp field.
pub fn random_log_entries(rng: &mut StdRng, now: u64, count: usize) -> (entries: Option<
    Vec<LogEntry>,
>)
    ensures
        entries is Some <==> window_fits(now),
        entries matches Some(v) ==> v@.len() == count && forall|i: int|
            0 <= i < v@.len() ==> LogEntry::in_domain((#[trigger] v@[i])@, now),
{
    if now > u64::MAX - TIMESTAMP_WINDOW {
        return None;
    }
    let mut entries: Vec<LogEntry> = Vec::new();
    let mut i: usize = 0;
    while i < count
        invariant
            i <= count,
            window_fits(now),
            entries@.len() == i,
            forall|j: int| 0 <= j < i ==> LogEntry::in_domain((#[trigger] entries@[j])@, now),
        decreases count - i,
    {
        match LogEntry::random(rng, now) {
            Some(entry) => {
                entries.push(entry);
            },
            None => {
                return None;
            },
        }
        i += 1;
    }
    Some(entries)
}

/// One random mixed record for each of the given measurements, in their
/// order; the measurements of a record that turns out a log entry are left
/// unused. There are none where some measurements lie outside their domains
/// or the window behind `now` does not fit the timestamp field.
pub fn random_mixed_records(rng: &mut StdRng, now: u64, measured: &Vec<Measurements>) -> (records:
    Option<Vec<MixedRecord>>)
    ensures
        records is Some <==> window_fits(now) && forall|i: int|
            0 <= i < measured@.len() ==> (#[trigger] measured@[i]).in_domain(),
        records matches Some(v) ==> v@.len() == measured@.len() && forall|i: int|
            0 <= i < v@.len() ==> MixedRecord::in_domain((#[trigger] v@[i])@, now),
{
    if now > u64::MAX - TIMESTAMP_WINDOW {
        return None;
    }
    let mut records: Vec<MixedRecord> = Vec::new();
    let mut i: usize = 0;
    while i < measured.len()
        invariant
            i <= measured@.len(),
            window_fits(now),
            records@.len() == i,
            forall|j: int| 0 <= j < i ==> (#[trigger] measured@[j]).in_domain(),
            forall|j: int| 0 <= j < i ==> MixedRecord::in_domain((#[trigger] records@[j])@, now),
        decreases measured@.len() - i,
    {
        match MixedRecord::random(rng, now, measured[i]) {
            Some(record) => {
                records.push(record);
            },
            None => {
                return None;
            },
        }
        i += 1;
    }
    Some(records)
}

/// The size of the blocks in which raw random data is produced.
pub const RAW_CHUNK_LEN: usize = 1024;

/// The number of bytes in `size_kb` kilobytes, where it fits.
pub fn kilobytes(size_kb: usize) -> (total: Option<usize>)
    ensures
        total is Some <==> size_kb * RAW_CHUNK_LEN <= usize::MAX,
        total matches Some(n) ==> n == size_kb * RAW_CHUNK_LEN,
{
    if size_kb > usize::MAX / RAW_CHUNK_LEN {
        None
    } else {
        Some(size_kb * RAW_CHUNK_LEN)
    }
}

/// The length of the next block when `remaining` bytes are still to come:
/// a full block, or what is left of the last one.
pub fn next_chunk_len(remaining: usize) -> (len: usize)
    ensures
        len == if remaining < RAW_CHUNK_LEN {
            remaining
        } else {
            RAW_CHUNK_LEN
        },
{
    if remaining < RAW_CHUNK_LEN {
        remaining
    } else {
        RAW_CHUNK_LEN
    }
}

/// A block of `len` random bytes.
pub fn random_chunk(rng: &mut StdRng, len: usize) -> (chunk: Vec<u8>)
    ensures
        chunk@.len() == len,
{
    let mut chunk: Vec<u8> = vec![0u8; len];
    draw_bytes(rng, &mut chunk);
    chunk
}

} // verus!
