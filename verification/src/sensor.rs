//! Sensor readings: the fixed-width record of the `SENS` container.

use crate::error::DecodeError;
use crate::le::{
    get_u32, get_u64, lemma_u32_round_trip, lemma_u64_round_trip, put_u32, put_u64, u32_from_le,
    u32_le, u64_from_le, u64_le,
};
use crate::record::{ContainerKind, Parsed, Record};
use vstd::prelude::*;

verus! {

/// One reading of one sensor. The three measurements are single precision
/// numbers held as their IEEE 754 bit patterns, which is also how they are
/// laid out in the container.
#[derive(Clone, Copy, Debug, PartialEq, Eq, Structural)]
pub struct SensorReading {
    /// Seconds since the Unix epoch.
    pub timestamp: u64,
    /// The sensor that took the reading.
    pub sensor_id: u32,
    /// Degrees, as the bits of a single precision number.
    pub temperature: u32,
    /// Relative humidity, as the bits of a single precision number.
    pub humidity: u32,
    /// Air pressure, as the bits of a single precision number.
    pub pressure: u32,
}

impl View for SensorReading {
    type V = SensorReading;

    open spec fn view(&self) -> SensorReading {
        *self
    }
}

/// The width of an encoded sensor reading.
pub const SENSOR_READING_LEN: usize = 24;

impl SensorReading {
    /// The twenty-four bytes of the reading.
    pub fn to_bytes(&self) -> (bytes: Vec<u8>)
        ensures
            bytes@ == Self::encoding(*self),
            bytes@.len() == SENSOR_READING_LEN,
    {
        let mut bytes: Vec<u8> = Vec::new();
        self.encode(&mut bytes);
        bytes
    }
}

impl Record for SensorReading {
    open spec fn valid(v: SensorReading) -> bool {
        true
    }

    open spec fn encoding(v: SensorReading) -> Seq<u8> {
        u64_le(v.timestamp) + u32_le(v.sensor_id) + u32_le(v.temperature) + u32_le(v.humidity)
            + u32_le(v.pressure)
    }

    open spec fn parse(bytes: Seq<u8>) -> Parsed<SensorReading> {
        if bytes.len() < SENSOR_READING_LEN {
            Parsed { outcome: Err(DecodeError::UnexpectedEnd), consumed: bytes.len() }
        } else {
            Parsed {
                outcome: Ok(
                    SensorReading {
                        timestamp: u64_from_le(bytes),
                        sensor_id: u32_from_le(bytes.skip(8)),
                        temperature: u32_from_le(bytes.skip(12)),
                        humidity: u32_from_le(bytes.skip(16)),
                        pressure: u32_from_le(bytes.skip(20)),
                    },
                ),
                consumed: SENSOR_READING_LEN as nat,
            }
        }
    }

    open spec fn kind() -> ContainerKind {
        ContainerKind::Sensor
    }

    fn container_kind() -> (k: ContainerKind) {
        ContainerKind::Sensor
    }

    fn encode(&self, out: &mut Vec<u8>) {
        put_u64(out, self.timestamp);
        put_u32(out, self.sensor_id);
        put_u32(out, self.temperature);
        put_u32(out, self.humidity);
        put_u32(out, self.pressure);
        assert(out@ =~= old(out)@ + Self::encoding(self@));
    }

    fn decode(bytes: &[u8], pos: usize) -> (r: (Result<Self, DecodeError>, usize)) {
        if bytes.len() - pos < SENSOR_READING_LEN {
            return (Err(DecodeError::UnexpectedEnd), bytes.len());
        }
        proof {
            let rest = bytes@.skip(pos as int);
            assert(rest.skip(8) =~= bytes@.skip(pos + 8));
            assert(rest.skip(12) =~= bytes@.skip(pos + 12));
            assert(rest.skip(16) =~= bytes@.skip(pos + 16));
            assert(rest.skip(20) =~= bytes@.skip(pos + 20));
        }
        let reading = SensorReading {
            timestamp: get_u64(bytes, pos),
            sensor_id: get_u32(bytes, pos + 8),
            temperature: get_u32(bytes, pos + 12),
            humidity: get_u32(bytes, pos + 16),
            pressure: get_u32(bytes, pos + 20),
        };
        (Ok(reading), pos + SENSOR_READING_LEN)
    }

    proof fn lemma_parse_bounds(bytes: Seq<u8>) {
    }

    proof fn lemma_round_trip(v: SensorReading, rest: Seq<u8>) {
        let tail4 = u32_le(v.pressure) + rest;
        let tail3 = u32_le(v.humidity) + tail4;
        let tail2 = u32_le(v.temperature) + tail3;
        let tail1 = u32_le(v.sensor_id) + tail2;
        let all = Self::encoding(v) + rest;
        lemma_u64_round_trip(v.timestamp, tail1);
        lemma_u32_round_trip(v.sensor_id, tail2);
        lemma_u32_round_trip(v.temperature, tail3);
        lemma_u32_round_trip(v.humidity, tail4);
        lemma_u32_round_trip(v.pressure, rest);
        assert(all =~= u64_le(v.timestamp) + tail1);
        assert(all.skip(8) =~= tail1);
        assert(all.skip(12) =~= tail2);
        assert(all.skip(16) =~= tail3);
        assert(all.skip(20) =~= tail4);
    }

    proof fn lemma_cut_short(v: SensorReading, n: int) {
    }
}

} // verus!
