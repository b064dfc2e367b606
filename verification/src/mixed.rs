//! Mixed records: a type byte, then a sensor reading or a log entry. This is
//! the record of the `MIXD` container.

use crate::error::DecodeError;
use crate::log_entry::{LogEntry, LogEntryView};
use crate::record::{ContainerKind, Parsed, Record};
use crate::sensor::SensorReading;
use vstd::prelude::*;

verus! {

/// The type byte of a sensor reading inside a mixed container.
pub const TYPE_SENSOR: u8 = 0;

/// The type byte of a log entry inside a mixed container.
pub const TYPE_LOG: u8 = 1;

/// A record of a mixed container.
#[derive(Clone, Debug, PartialEq, Eq)]
pub enum MixedRecord {
    /// A sensor reading, type byte 0.
    Sensor(SensorReading),
    /// A log entry, type byte 1.
    Log(LogEntry),
}

/// A mixed record as a mathematical value.
pub enum MixedRecordView {
    Sensor(SensorReading),
    Log(LogEntryView),
}

impl View for MixedRecord {
    type V = MixedRecordView;

    open spec fn view(&self) -> MixedRecordView {
        match self {
            MixedRecord::Sensor(reading) => MixedRecordView::Sensor(*reading),
            MixedRecord::Log(entry) => MixedRecordView::Log(entry@),
        }
    }
}

impl MixedRecordView {
    /// The byte that tells the decoder which body follows.
    pub open spec fn type_byte(self) -> u8 {
        match self {
            MixedRecordView::Sensor(_) => TYPE_SENSOR,
            MixedRecordView::Log(_) => TYPE_LOG,
        }
    }
}

impl MixedRecord {
    /// The byte that tells the decoder which body follows.
    pub fn type_byte(&self) -> (t: u8)
        ensures
            t == self@.type_byte(),
    {
        match self {
            MixedRecord::Sensor(_) => TYPE_SENSOR,
            MixedRecord::Log(_) => TYPE_LOG,
        }
    }

    /// The bytes of the record: the type byte, then the body.
    pub fn to_bytes(&self) -> (bytes: Vec<u8>)
        ensures
            bytes@ == Self::encoding(self@),
    {
        let mut bytes: Vec<u8> = Vec::new();
        self.encode(&mut bytes);
        bytes
    }
}

impl Record for MixedRecord {
    open spec fn valid(v: MixedRecordView) -> bool {
        match v {
            MixedRecordView::Sensor(reading) => SensorReading::valid(reading),
            MixedRecordView::Log(entry) => LogEntry::valid(entry),
        }
    }

    open spec fn encoding(v: MixedRecordView) -> Seq<u8> {
        match v {
            MixedRecordView::Sensor(reading) => seq![TYPE_SENSOR] + SensorReading::encoding(reading),
            MixedRecordView::Log(entry) => seq![TYPE_LOG] + LogEntry::encoding(entry),
        }
    }

    open spec fn parse(bytes: Seq<u8>) -> Parsed<MixedRecordView> {
        if bytes.len() == 0 {
            Parsed { outcome: Err(DecodeError::UnexpectedEnd), consumed: 0 }
        } else if bytes[0] == TYPE_SENSOR {
            let body = SensorReading::parse(bytes.skip(1));
            Parsed {
                outcome: match body.outcome {
                    Ok(reading) => Ok(MixedRecordView::Sensor(reading)),
                    Err(e) => Err(e),
                },
                consumed: 1 + body.consumed,
            }
        } else if bytes[0] == TYPE_LOG {
            let body = LogEntry::parse(bytes.skip(1));
            Parsed {
                outcome: match body.outcome {
                    Ok(entry) => Ok(MixedRecordView::Log(entry)),
                    Err(e) => Err(e),
                },
                consumed: 1 + body.consumed,
            }
        } else {
            Parsed { outcome: Err(DecodeError::UnknownRecordType), consumed: 1 }
        }
    }

    open spec fn kind() -> ContainerKind {
        ContainerKind::Mixed
    }

    fn container_kind() -> (k: ContainerKind) {
        ContainerKind::Mixed
    }

    fn encode(&self, out: &mut Vec<u8>) {
        match self {
            MixedRecord::Sensor(reading) => {
                out.push(TYPE_SENSOR);
                reading.encode(out);
            },
            MixedRecord::Log(entry) => {
                out.push(TYPE_LOG);
                entry.encode(out);
            },
        }
        assert(out@ =~= old(out)@ + Self::encoding(self@));
    }

    fn decode(bytes: &[u8], pos: usize) -> (r: (Result<Self, DecodeError>, usize)) {
        if pos == bytes.len() {
            return (Err(DecodeError::UnexpectedEnd), pos);
        }
        proof {
            assert(bytes@.skip(pos as int).skip(1) =~= bytes@.skip(pos + 1));
        }
        let type_byte: u8 = bytes[pos];
        if type_byte == TYPE_SENSOR {
            let (body, next) = SensorReading::decode(bytes, pos + 1);
            match body {
                Ok(reading) => (Ok(MixedRecord::Sensor(reading)), next),
                Err(e) => (Err(e), next),
            }
        } else if type_byte == TYPE_LOG {
            let (body, next) = LogEntry::decode(bytes, pos + 1);
            match body {
                Ok(entry) => (Ok(MixedRecord::Log(entry)), next),
                Err(e) => (Err(e), next),
            }
        } else {
            (Err(DecodeError::UnknownRecordType), pos + 1)
        }
    }

    proof fn lemma_parse_bounds(bytes: Seq<u8>) {
        if bytes.len() > 0 {
            SensorReading::lemma_parse_bounds(bytes.skip(1));
            LogEntry::lemma_parse_bounds(bytes.skip(1));
        }
    }

    proof fn lemma_round_trip(v: MixedRecordView, rest: Seq<u8>) {
        let all = Self::encoding(v) + rest;
        match v {
            MixedRecordView::Sensor(reading) => {
                SensorReading::lemma_round_trip(reading, rest);
                assert(all.skip(1) =~= SensorReading::encoding(reading) + rest);
            },
            MixedRecordView::Log(entry) => {
                LogEntry::lemma_round_trip(entry, rest);
                assert(all.skip(1) =~= LogEntry::encoding(entry) + rest);
            },
        }
    }

    proof fn lemma_cut_short(v: MixedRecordView, n: int) {
        let cut = Self::encoding(v).take(n);
        if n > 0 {
            match v {
                MixedRecordView::Sensor(reading) => {
                    SensorReading::lemma_cut_short(reading, n - 1);
                    assert(cut.skip(1) =~= SensorReading::encoding(reading).take(n - 1));
                },
                MixedRecordView::Log(entry) => {
                    LogEntry::lemma_cut_short(entry, n - 1);
                    assert(cut.skip(1) =~= LogEntry::encoding(entry).take(n - 1));
                },
            }
        }
    }
}

} // verus!
