use webway::error::DecodeError;
use webway::header::{Header, FORMAT_VERSION, HEADER_LEN};
use webway::le::{get_u16, get_u32, get_u64, put_u16, put_u32, put_u64};
use webway::log_entry::{LogEntry, LOG_ENTRY_FIXED_LEN};
use webway::mixed::{MixedRecord, TYPE_LOG, TYPE_SENSOR};
use webway::record::{ContainerKind, Record};
use webway::sensor::{SensorReading, SENSOR_READING_LEN};

fn sample_reading() -> SensorReading {
    SensorReading {
        timestamp: 0x0102_0304_0506_0708,
        sensor_id: 0x0a0b_0c0d,
        temperature: 21.5f32.to_bits(),
        humidity: 45.25f32.to_bits(),
        pressure: 1013.25f32.to_bits(),
    }
}

fn sample_entry() -> LogEntry {
    LogEntry::new(1_700_000_000, 2, "Warning: disk".to_string()).unwrap()
}

#[test]
fn little_endian_puts_least_significant_byte_first() {
    let mut out = vec![0xffu8];
    put_u16(&mut out, 0x1234);
    put_u32(&mut out, 0x89ab_cdef);
    put_u64(&mut out, 0x0102_0304_0506_0708);
    assert_eq!(
        out,
        vec![
            0xff, 0x34, 0x12, 0xef, 0xcd, 0xab, 0x89, 0x08, 0x07, 0x06, 0x05, 0x04, 0x03, 0x02,
            0x01
        ]
    );
}

#[test]
fn little_endian_matches_the_standard_library() {
    for x in [0u64, 1, 255, 256, 65535, 65536, 0xdead_beef, u32::MAX as u64, u64::MAX, 1 << 40, 0x8000_0000_0000_0000] {
        let mut out = Vec::new();
        put_u64(&mut out, x);
        assert_eq!(out, x.to_le_bytes().to_vec());
        assert_eq!(get_u64(&out, 0), x);
        let small = x as u32;
        let mut out = Vec::new();
        put_u32(&mut out, small);
        assert_eq!(out, small.to_le_bytes().to_vec());
        assert_eq!(get_u32(&out, 0), small);
        let tiny = x as u16;
        let mut out = Vec::new();
        put_u16(&mut out, tiny);
        assert_eq!(out, tiny.to_le_bytes().to_vec());
        assert_eq!(get_u16(&out, 0), tiny);
    }
}

#[test]
fn little_endian_reads_at_an_offset() {
    let bytes = [0xaa, 0x01, 0x02, 0x03, 0x04, 0x05, 0x06, 0x07, 0x08, 0xbb];
    assert_eq!(get_u16(&bytes, 1), 0x0201);
    assert_eq!(get_u32(&bytes, 1), 0x0403_0201);
    assert_eq!(get_u64(&bytes, 1), 0x0807_0605_0403_0201);
    assert_eq!(get_u64(&bytes, 2), 0xbb08_0706_0504_0302);
}

#[test]
fn sensor_reading_is_twenty_four_bytes() {
    let reading = sample_reading();
    let bytes = reading.to_bytes();
    assert_eq!(bytes.len(), 24);
    assert_eq!(SENSOR_READING_LEN, 24);
    let (decoded, next) = SensorReading::decode(&bytes, 0);
    assert_eq!(decoded, Ok(reading));
    assert_eq!(next, 24);
}

#[test]
fn sensor_reading_layout_is_exact() {
    let bytes = sample_reading().to_bytes();
    let expected: Vec<u8> = vec![
        0x08, 0x07, 0x06, 0x05, 0x04, 0x03, 0x02, 0x01, // timestamp
        0x0d, 0x0c, 0x0b, 0x0a, // sensor id
        0x00, 0x00, 0xac, 0x41, // 21.5
        0x00, 0x00, 0x35, 0x42, // 45.25
        0x00, 0x50, 0x7d, 0x44, // 1013.25
    ];
    assert_eq!(bytes, expected);
}

#[test]
fn sensor_reading_floats_travel_as_their_own_bytes() {
    let reading = sample_reading();
    let bytes = reading.to_bytes();
    assert_eq!(&bytes[12..16], &21.5f32.to_le_bytes());
    assert_eq!(&bytes[16..20], &45.25f32.to_le_bytes());
    assert_eq!(&bytes[20..24], &1013.25f32.to_le_bytes());
    let (decoded, _) = SensorReading::decode(&bytes, 0);
    let decoded = decoded.unwrap();
    assert_eq!(f32::from_bits(decoded.temperature), 21.5);
    assert_eq!(f32::from_bits(decoded.humidity), 45.25);
    assert_eq!(f32::from_bits(decoded.pressure), 1013.25);
}

#[test]
fn sensor_reading_round_trips_every_bit_pattern_tried() {
    for bits in [0u32, 1, 0x7f80_0000, 0x7fc0_0000, 0xffff_ffff, 0x8000_0000, 0x3f80_0000] {
        let reading = SensorReading {
            timestamp: u64::MAX,
            sensor_id: u32::MAX,
            temperature: bits,
            humidity: !bits,
            pressure: bits.rotate_left(7),
        };
        let mut out = vec![1, 2, 3];
        reading.encode(&mut out);
        assert_eq!(out.len(), 27);
        assert_eq!(SensorReading::decode(&out, 3), (Ok(reading), 27));
    }
}

#[test]
fn sensor_reading_cut_short_is_unexpected_end() {
    let bytes = sample_reading().to_bytes();
    for n in 0..24 {
        let (decoded, next) = SensorReading::decode(&bytes[..n], 0);
        assert_eq!(decoded, Err(DecodeError::UnexpectedEnd));
        assert_eq!(next, n);
    }
}

#[test]
fn log_entry_layout_is_exact() {
    let entry = sample_entry();
    assert_eq!(entry.message_length, 13);
    let bytes = entry.to_bytes();
    assert_eq!(bytes.len(), LOG_ENTRY_FIXED_LEN + 13);
    assert_eq!(LOG_ENTRY_FIXED_LEN, 11);
    let mut expected: Vec<u8> = vec![
        0x00, 0xf1, 0x53, 0x65, 0x00, 0x00, 0x00, 0x00, // 1_700_000_000
        0x02, // level
        0x0d, 0x00, // message length
    ];
    expected.extend_from_slice(b"Warning: disk");
    assert_eq!(bytes, expected);
}

#[test]
fn log_entry_round_trips() {
    let entry = sample_entry();
    let bytes = entry.to_bytes();
    let (decoded, next) = LogEntry::decode(&bytes, 0);
    assert_eq!(decoded, Ok(entry));
    assert_eq!(next, bytes.len());
}

#[test]
fn log_entry_round_trips_text_beyond_ascii() {
    let text = "Temperatur zu hoch: 35 °C – Lüfter an ✓";
    let entry = LogEntry::new(42, 3, text.to_string()).unwrap();
    assert_eq!(entry.message_length as usize, text.len());
    assert!(text.len() > text.chars().count());
    let mut out = vec![9u8; 5];
    entry.encode(&mut out);
    out.push(0xee);
    let (decoded, next) = LogEntry::decode(&out, 5);
    assert_eq!(decoded, Ok(entry));
    assert_eq!(next, out.len() - 1);
}

#[test]
fn log_entry_with_empty_message_is_eleven_bytes() {
    let entry = LogEntry::new(7, 0, String::new()).unwrap();
    let bytes = entry.to_bytes();
    assert_eq!(bytes.len(), 11);
    assert_eq!(LogEntry::decode(&bytes, 0), (Ok(entry), 11));
}

#[test]
fn log_entry_new_keeps_length_and_message_together() {
    let longest = "a".repeat(65535);
    let entry = LogEntry::new(1, 1, longest.clone()).unwrap();
    assert_eq!(entry.message_length, 65535);
    assert!(entry.is_valid());
    assert_eq!(entry.message, longest);
    assert_eq!(LogEntry::new(1, 1, "a".repeat(65536)), None);
}

#[test]
fn log_entry_with_a_wrong_length_field_is_not_valid() {
    let mut entry = sample_entry();
    assert!(entry.is_valid());
    entry.message_length = 12;
    assert!(!entry.is_valid());
    let bytes = entry.to_bytes();
    assert_eq!(bytes.len(), 11 + 13);
    let (decoded, next) = LogEntry::decode(&bytes, 0);
    assert_eq!(next, 11 + 12);
    assert_eq!(decoded.unwrap().message, "Warning: dis");
}

#[test]
fn log_entry_cut_short_is_unexpected_end() {
    let bytes = sample_entry().to_bytes();
    for n in 0..bytes.len() {
        let (decoded, next) = LogEntry::decode(&bytes[..n], 0);
        assert_eq!(decoded, Err(DecodeError::UnexpectedEnd));
        assert_eq!(next, n);
    }
}

#[test]
fn log_entry_with_invalid_utf8_is_rejected_and_stepped_over() {
    let mut bytes = sample_entry().to_bytes();
    bytes[11] = 0xff;
    bytes.extend_from_slice(&[1, 2, 3]);
    let (decoded, next) = LogEntry::decode(&bytes, 0);
    assert_eq!(decoded, Err(DecodeError::InvalidUtf8));
    assert_eq!(next, 11 + 13);
}

#[test]
fn mixed_record_carries_its_type_byte() {
    let sensor = MixedRecord::Sensor(sample_reading());
    let log = MixedRecord::Log(sample_entry());
    assert_eq!(sensor.type_byte(), 0);
    assert_eq!(log.type_byte(), 1);
    assert_eq!((TYPE_SENSOR, TYPE_LOG), (0, 1));
    let sensor_bytes = sensor.to_bytes();
    let log_bytes = log.to_bytes();
    assert_eq!(sensor_bytes[0], 0);
    assert_eq!(&sensor_bytes[1..], &sample_reading().to_bytes()[..]);
    assert_eq!(log_bytes[0], 1);
    assert_eq!(&log_bytes[1..], &sample_entry().to_bytes()[..]);
    assert_eq!(MixedRecord::decode(&sensor_bytes, 0), (Ok(sensor), 25));
    assert_eq!(MixedRecord::decode(&log_bytes, 0), (Ok(log), 25));
}

#[test]
fn mixed_record_with_unknown_type_byte_is_rejected() {
    let mut bytes = MixedRecord::Sensor(sample_reading()).to_bytes();
    bytes[0] = 2;
    assert_eq!(MixedRecord::decode(&bytes, 0), (Err(DecodeError::UnknownRecordType), 1));
    bytes[0] = 0xff;
    assert_eq!(MixedRecord::decode(&bytes, 0), (Err(DecodeError::UnknownRecordType), 1));
}

#[test]
fn mixed_record_cut_short_is_unexpected_end() {
    let bytes = MixedRecord::Log(sample_entry()).to_bytes();
    for n in 0..bytes.len() {
        assert_eq!(MixedRecord::decode(&bytes[..n], 0), (Err(DecodeError::UnexpectedEnd), n));
    }
    assert_eq!(MixedRecord::decode(&bytes, bytes.len()), (Err(DecodeError::UnexpectedEnd), bytes.len()));
}

#[test]
fn header_layout_is_exact() {
    let header = Header { kind: ContainerKind::Sensor, version: FORMAT_VERSION, record_count: 3 };
    let mut out = Vec::new();
    header.encode(&mut out);
    assert_eq!(out, b"SENS\x01\x00\x00\x00\x03\x00\x00\x00".to_vec());
    assert_eq!(out.len(), HEADER_LEN);
    assert_eq!(Header::decode(&out), Ok(header));
}

#[test]
fn header_tags_are_the_three_kinds() {
    assert_eq!(&ContainerKind::Sensor.tag(), b"SENS");
    assert_eq!(&ContainerKind::Log.tag(), b"LOGS");
    assert_eq!(&ContainerKind::Mixed.tag(), b"MIXD");
    assert_eq!(ContainerKind::from_tag(b"xxLOGS", 2), Some(ContainerKind::Log));
    assert_eq!(ContainerKind::from_tag(b"MIXD", 0), Some(ContainerKind::Mixed));
    assert_eq!(ContainerKind::from_tag(b"SENS", 0), Some(ContainerKind::Sensor));
    assert_eq!(ContainerKind::from_tag(b"sens", 0), None);
    assert_eq!(ContainerKind::from_tag(b"SENT", 0), None);
    assert_eq!(SensorReading::container_kind(), ContainerKind::Sensor);
    assert_eq!(LogEntry::container_kind(), ContainerKind::Log);
    assert_eq!(MixedRecord::container_kind(), ContainerKind::Mixed);
}

#[test]
fn header_round_trips_every_field() {
    for kind in [ContainerKind::Sensor, ContainerKind::Log, ContainerKind::Mixed] {
        let header = Header { kind, version: 0xdead_beef, record_count: u32::MAX };
        let mut out = Vec::new();
        header.encode(&mut out);
        out.extend_from_slice(&[7; 9]);
        assert_eq!(Header::decode(&out), Ok(header));
    }
}

#[test]
fn header_errors_are_typed() {
    assert_eq!(Header::decode(b""), Err(DecodeError::UnexpectedEnd));
    assert_eq!(Header::decode(b"SENS\x01\x00\x00\x00\x03\x00\x00"), Err(DecodeError::UnexpectedEnd));
    assert_eq!(Header::decode(b"JUNK\x01\x00\x00\x00\x03\x00\x00\x00"), Err(DecodeError::InvalidMagic));
    assert_eq!(Header::decode(b"JUNK"), Err(DecodeError::UnexpectedEnd));
}
