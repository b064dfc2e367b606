use webway::container::{write_container, Item, Reader};
use webway::error::DecodeError;
use webway::log_entry::LogEntry;
use webway::mixed::MixedRecord;
use webway::pipeline::{decode_container, drain, Failure, PipelineState, Policy};
use webway::sensor::SensorReading;

fn reading(n: u32) -> SensorReading {
    SensorReading {
        timestamp: 1_700_000_000 + n as u64,
        sensor_id: 1000 + n,
        temperature: (15.0f32 + n as f32 * 0.5).to_bits(),
        humidity: (30.0f32 + n as f32 * 1.25).to_bits(),
        pressure: (990.0f32 + n as f32 * 2.0).to_bits(),
    }
}

fn entry(n: u32) -> LogEntry {
    let text = format!("event number {} happened", n);
    LogEntry::new(1_700_000_000 + n as u64, (n % 4) as u8, text).unwrap()
}

fn mixed(n: u32) -> MixedRecord {
    if n % 3 == 1 {
        MixedRecord::Log(entry(n))
    } else {
        MixedRecord::Sensor(reading(n))
    }
}

#[test]
fn three_sensor_readings_come_back_identical() {
    let written = vec![
        SensorReading {
            timestamp: 1_700_000_000,
            sensor_id: 1001,
            temperature: 20.5f32.to_bits(),
            humidity: 55.0f32.to_bits(),
            pressure: 1013.25f32.to_bits(),
        },
        SensorReading {
            timestamp: 1_700_000_060,
            sensor_id: 4242,
            temperature: 34.999f32.to_bits(),
            humidity: 30.0f32.to_bits(),
            pressure: 990.0f32.to_bits(),
        },
        SensorReading {
            timestamp: 1_700_003_599,
            sensor_id: 9998,
            temperature: 15.0f32.to_bits(),
            humidity: 79.9f32.to_bits(),
            pressure: 1029.5f32.to_bits(),
        },
    ];
    let bytes = write_container(&written).unwrap();
    assert_eq!(bytes.len(), 12 + 3 * 24);
    assert_eq!(&bytes[..12], b"SENS\x01\x00\x00\x00\x03\x00\x00\x00");
    let report = decode_container::<SensorReading>(&bytes, Policy::StopOnError).unwrap();
    assert_eq!(report.records, written);
    assert_eq!(report.failed(), 0);
    assert_eq!(report.end, PipelineState::Done { truncated: false });
    assert_eq!(report.error(), None);
    for (read, wrote) in report.records.iter().zip(written.iter()) {
        assert_eq!(read.timestamp, wrote.timestamp);
        assert_eq!(read.sensor_id, wrote.sensor_id);
        assert_eq!(f32::from_bits(read.temperature).to_bits(), f32::from_bits(wrote.temperature).to_bits());
        assert_eq!(f32::from_bits(read.humidity).to_bits(), f32::from_bits(wrote.humidity).to_bits());
        assert_eq!(f32::from_bits(read.pressure).to_bits(), f32::from_bits(wrote.pressure).to_bits());
    }
}

#[test]
fn container_declares_the_number_of_its_records() {
    for n in [0u32, 1, 2, 17, 300] {
        let written: Vec<SensorReading> = (0..n).map(reading).collect();
        let bytes = write_container(&written).unwrap();
        assert_eq!(&bytes[8..12], &n.to_le_bytes());
        assert_eq!(bytes.len(), 12 + 24 * n as usize);
        let reader = Reader::<SensorReading>::open(&bytes).unwrap();
        assert_eq!(reader.header().record_count, n);
        assert_eq!(reader.remaining(), n);
        let report = decode_container::<SensorReading>(&bytes, Policy::SkipOnError).unwrap();
        assert_eq!(report.records.len(), n as usize);
        assert_eq!(report.records, written);
        assert_eq!(report.end, PipelineState::Done { truncated: false });
    }
}

#[test]
fn log_container_round_trips() {
    let written: Vec<LogEntry> = (0..25).map(entry).collect();
    let bytes = write_container(&written).unwrap();
    assert_eq!(&bytes[..4], b"LOGS");
    let report = decode_container::<LogEntry>(&bytes, Policy::StopOnError).unwrap();
    assert_eq!(report.records, written);
    assert_eq!(report.failed(), 0);
    assert_eq!(report.end, PipelineState::Done { truncated: false });
}

#[test]
fn mixed_container_round_trips_with_its_type_bytes() {
    let written: Vec<MixedRecord> = (0..40).map(mixed).collect();
    let bytes = write_container(&written).unwrap();
    assert_eq!(&bytes[..4], b"MIXD");
    let report = decode_container::<MixedRecord>(&bytes, Policy::StopOnError).unwrap();
    assert_eq!(report.records, written);
    let tags_written: Vec<u8> = written.iter().map(|r| r.type_byte()).collect();
    let tags_read: Vec<u8> = report.records.iter().map(|r| r.type_byte()).collect();
    assert_eq!(tags_read, tags_written);
}

#[test]
fn reader_of_another_kind_refuses_the_container() {
    let sensors = write_container(&(0..3).map(reading).collect::<Vec<_>>()).unwrap();
    let logs = write_container(&(0..3).map(entry).collect::<Vec<_>>()).unwrap();
    let mixeds = write_container(&(0..3).map(mixed).collect::<Vec<_>>()).unwrap();
    assert_eq!(decode_container::<LogEntry>(&sensors, Policy::StopOnError).unwrap_err(), DecodeError::InvalidMagic);
    assert_eq!(decode_container::<MixedRecord>(&sensors, Policy::SkipOnError).unwrap_err(), DecodeError::InvalidMagic);
    assert_eq!(decode_container::<SensorReading>(&logs, Policy::StopOnError).unwrap_err(), DecodeError::InvalidMagic);
    assert_eq!(decode_container::<MixedRecord>(&logs, Policy::StopOnError).unwrap_err(), DecodeError::InvalidMagic);
    assert_eq!(decode_container::<SensorReading>(&mixeds, Policy::StopOnError).unwrap_err(), DecodeError::InvalidMagic);
    assert_eq!(decode_container::<LogEntry>(&mixeds, Policy::SkipOnError).unwrap_err(), DecodeError::InvalidMagic);
    assert!(Reader::<LogEntry>::open(&sensors).is_err());
    assert!(Reader::<SensorReading>::open(&sensors).is_ok());
}

#[test]
fn container_with_a_broken_header_is_refused() {
    assert_eq!(decode_container::<SensorReading>(b"", Policy::StopOnError).unwrap_err(), DecodeError::UnexpectedEnd);
    assert_eq!(decode_container::<SensorReading>(b"SENS\x01\x00\x00", Policy::StopOnError).unwrap_err(), DecodeError::UnexpectedEnd);
    assert_eq!(decode_container::<SensorReading>(b"NOPE\x01\x00\x00\x00\x00\x00\x00\x00", Policy::StopOnError).unwrap_err(), DecodeError::InvalidMagic);
}

#[test]
fn container_cut_between_records_is_truncated() {
    let written: Vec<SensorReading> = (0..5).map(reading).collect();
    let bytes = write_container(&written).unwrap();
    for k in 0..5usize {
        let cut = &bytes[..12 + 24 * k];
        for policy in [Policy::StopOnError, Policy::SkipOnError] {
            let report = decode_container::<SensorReading>(cut, policy).unwrap();
            assert_eq!(report.records, written[..k].to_vec());
            assert_eq!(report.failed(), 0);
            assert_eq!(report.end, PipelineState::Done { truncated: true });
            assert_eq!(report.error(), Some(DecodeError::Truncated));
        }
    }
}

#[test]
fn container_cut_inside_a_record_ends_unexpectedly() {
    let written: Vec<LogEntry> = (0..4).map(entry).collect();
    let bytes = write_container(&written).unwrap();
    let mut start = 12;
    for k in 0..4usize {
        let len = written[k].to_bytes().len();
        for n in 1..len {
            let cut = &bytes[..start + n];
            let stopped = decode_container::<LogEntry>(cut, Policy::StopOnError).unwrap();
            assert_eq!(stopped.records, written[..k].to_vec());
            assert_eq!(stopped.failed(), 1);
            assert_eq!(stopped.failures, vec![Failure { position: k as u32, error: DecodeError::UnexpectedEnd }]);
            assert_eq!(stopped.end, PipelineState::Aborted { error: DecodeError::UnexpectedEnd });
            assert_eq!(stopped.error(), Some(DecodeError::UnexpectedEnd));
            let skipped = decode_container::<LogEntry>(cut, Policy::SkipOnError).unwrap();
            assert_eq!(skipped.records, written[..k].to_vec());
            assert_eq!(skipped.failed(), 1);
            assert_eq!(skipped.failures, stopped.failures);
            assert_eq!(skipped.end, PipelineState::Done { truncated: k + 1 < 4 });
        }
        start += len;
    }
    assert_eq!(start, bytes.len());
}

#[test]
fn container_that_declares_more_than_it_holds_is_truncated() {
    let written: Vec<SensorReading> = (0..2).map(reading).collect();
    let mut bytes = write_container(&written).unwrap();
    bytes[8..12].copy_from_slice(&u32::MAX.to_le_bytes());
    let report = decode_container::<SensorReading>(&bytes, Policy::StopOnError).unwrap();
    assert_eq!(report.records, written);
    assert_eq!(report.end, PipelineState::Done { truncated: true });
}

#[test]
fn container_that_declares_less_than_it_holds_stops_at_the_count() {
    let written: Vec<SensorReading> = (0..6).map(reading).collect();
    let mut bytes = write_container(&written).unwrap();
    bytes[8..12].copy_from_slice(&4u32.to_le_bytes());
    let report = decode_container::<SensorReading>(&bytes, Policy::StopOnError).unwrap();
    assert_eq!(report.records, written[..4].to_vec());
    assert_eq!(report.end, PipelineState::Done { truncated: false });
}

#[test]
fn reader_hands_out_one_record_at_a_time() {
    let written: Vec<SensorReading> = (0..3).map(reading).collect();
    let bytes = write_container(&written).unwrap();
    let mut reader = Reader::<SensorReading>::open(&bytes).unwrap();
    assert_eq!(reader.remaining(), 3);
    assert!(matches!(reader.next(), Item::Record(r) if r == written[0]));
    assert_eq!(reader.remaining(), 2);
    assert!(matches!(reader.next(), Item::Record(r) if r == written[1]));
    let rest = drain(&mut reader, Policy::StopOnError);
    assert_eq!(rest.records, vec![written[2]]);
    assert!(matches!(reader.next(), Item::End { truncated: false }));
    assert!(matches!(reader.next(), Item::End { truncated: false }));
    assert_eq!(reader.remaining(), 0);
}

#[test]
fn reader_reports_the_end_of_a_truncated_container_again_and_again() {
    let written: Vec<SensorReading> = (0..3).map(reading).collect();
    let bytes = write_container(&written).unwrap();
    let mut reader = Reader::<SensorReading>::open(&bytes[..12 + 24]).unwrap();
    assert!(matches!(reader.next(), Item::Record(_)));
    assert!(matches!(reader.next(), Item::End { truncated: true }));
    assert!(matches!(reader.next(), Item::End { truncated: true }));
    assert_eq!(reader.remaining(), 2);
}

#[test]
fn stop_policy_gives_up_at_the_first_bad_record() {
    let written: Vec<LogEntry> = (0..5).map(entry).collect();
    let mut bytes = write_container(&written).unwrap();
    let at = 12 + written[0].to_bytes().len() + written[1].to_bytes().len() + 11;
    bytes[at] = 0xff;
    let report = decode_container::<LogEntry>(&bytes, Policy::StopOnError).unwrap();
    assert_eq!(report.records, written[..2].to_vec());
    assert_eq!(report.failed(), 1);
    assert_eq!(report.end, PipelineState::Aborted { error: DecodeError::InvalidUtf8 });
    assert_eq!(report.error(), Some(DecodeError::InvalidUtf8));
}

#[test]
fn skip_policy_counts_the_bad_record_and_goes_on() {
    let written: Vec<LogEntry> = (0..5).map(entry).collect();
    let mut bytes = write_container(&written).unwrap();
    let at = 12 + written[0].to_bytes().len() + written[1].to_bytes().len() + 11;
    bytes[at] = 0xff;
    let report = decode_container::<LogEntry>(&bytes, Policy::SkipOnError).unwrap();
    let mut kept = written.clone();
    kept.remove(2);
    assert_eq!(report.records, kept);
    assert_eq!(report.failed(), 1);
    assert_eq!(report.failures, vec![Failure { position: 2, error: DecodeError::InvalidUtf8 }]);
    assert_eq!(report.end, PipelineState::Done { truncated: false });
    assert_eq!(report.error(), None);
}

#[test]
fn skip_policy_steps_over_an_unknown_type_byte() {
    let written: Vec<MixedRecord> = vec![mixed(0), mixed(1)];
    let good = write_container(&written).unwrap();
    let mut bytes = good[..12].to_vec();
    bytes[8..12].copy_from_slice(&3u32.to_le_bytes());
    bytes.push(9);
    bytes.extend_from_slice(&good[12..]);
    let skipped = decode_container::<MixedRecord>(&bytes, Policy::SkipOnError).unwrap();
    assert_eq!(skipped.records, written);
    assert_eq!(skipped.failures, vec![Failure { position: 0, error: DecodeError::UnknownRecordType }]);
    assert_eq!(skipped.end, PipelineState::Done { truncated: false });
    let stopped = decode_container::<MixedRecord>(&bytes, Policy::StopOnError).unwrap();
    assert_eq!(stopped.records, vec![]);
    assert_eq!(stopped.failed(), 1);
    assert_eq!(stopped.end, PipelineState::Aborted { error: DecodeError::UnknownRecordType });
}

#[test]
fn empty_container_is_done_at_once() {
    let bytes = write_container::<LogEntry>(&Vec::new()).unwrap();
    assert_eq!(bytes, b"LOGS\x01\x00\x00\x00\x00\x00\x00\x00".to_vec());
    let report = decode_container::<LogEntry>(&bytes, Policy::StopOnError).unwrap();
    assert_eq!(report.records, vec![]);
    assert_eq!(report.failed(), 0);
    assert_eq!(report.end, PipelineState::Done { truncated: false });
}

#[test]
fn skip_policy_notes_every_failure_with_its_position() {
    let written: Vec<LogEntry> = (0..6).map(entry).collect();
    let mut bytes = write_container(&written).unwrap();
    let mut at = 12;
    for (i, e) in written.iter().enumerate() {
        if i == 1 || i == 4 {
            bytes[at + 11] = 0xc0;
        }
        at += e.to_bytes().len();
    }
    bytes.truncate(at - 3);
    let report = decode_container::<LogEntry>(&bytes, Policy::SkipOnError).unwrap();
    assert_eq!(report.records, vec![written[0].clone(), written[2].clone(), written[3].clone()]);
    assert_eq!(
        report.failures,
        vec![
            Failure { position: 1, error: DecodeError::InvalidUtf8 },
            Failure { position: 4, error: DecodeError::InvalidUtf8 },
            Failure { position: 5, error: DecodeError::UnexpectedEnd },
        ]
    );
    assert_eq!(report.failed(), 3);
    assert_eq!(report.end, PipelineState::Done { truncated: false });
}
