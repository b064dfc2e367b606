use rand::rngs::StdRng;
use rand::{Rng, SeedableRng};
use webway::container::write_container;
use webway::generator::{
    canned_message, kilobytes, next_chunk_len, random_chunk, random_log_entries,
    random_mixed_records, random_sensor_readings, Measurements, CANNED_MESSAGES, HUMIDITY_END,
    HUMIDITY_MIN, LEVELS, PRESSURE_END, PRESSURE_MIN, RAW_CHUNK_LEN, SENSOR_ID_END,
    SENSOR_ID_MIN, TEMPERATURE_END, TEMPERATURE_MIN, TIMESTAMP_WINDOW,
};
use webway::log_entry::LogEntry;
use webway::mixed::MixedRecord;
use webway::pipeline::{decode_container, Policy};
use webway::sensor::SensorReading;

const NOW: u64 = 1_700_000_000;

fn measure(rng: &mut StdRng) -> Measurements {
    Measurements {
        temperature: rng.gen_range(15.0f32..35.0).to_bits(),
        humidity: rng.gen_range(30.0f32..80.0).to_bits(),
        pressure: rng.gen_range(990.0f32..1030.0).to_bits(),
    }
}

fn fair() -> Measurements {
    Measurements {
        temperature: 21.5f32.to_bits(),
        humidity: 45.0f32.to_bits(),
        pressure: 1013.25f32.to_bits(),
    }
}

fn in_float_domain(m: &Measurements) -> bool {
    let t = f32::from_bits(m.temperature);
    let h = f32::from_bits(m.humidity);
    let p = f32::from_bits(m.pressure);
    (15.0..35.0).contains(&t) && (30.0..80.0).contains(&h) && (990.0..1030.0).contains(&p)
}

#[test]
fn domain_bounds_are_the_bit_patterns_of_the_declared_numbers() {
    assert_eq!(TEMPERATURE_MIN, 15.0f32.to_bits());
    assert_eq!(TEMPERATURE_END, 35.0f32.to_bits());
    assert_eq!(HUMIDITY_MIN, 30.0f32.to_bits());
    assert_eq!(HUMIDITY_END, 80.0f32.to_bits());
    assert_eq!(PRESSURE_MIN, 990.0f32.to_bits());
    assert_eq!(PRESSURE_END, 1030.0f32.to_bits());
    assert_eq!((TIMESTAMP_WINDOW, SENSOR_ID_MIN, SENSOR_ID_END, LEVELS, CANNED_MESSAGES), (3600, 1000, 9999, 4, 8));
}

#[test]
fn domain_of_bit_patterns_is_the_domain_of_numbers() {
    let mut rng = StdRng::seed_from_u64(11);
    let mut edge = vec![0u32, 1, 0x7f7f_ffff, 0x7f80_0000, 0x7fc0_0000, 0x8000_0000, 0xffff_ffff];
    for bound in [TEMPERATURE_MIN, TEMPERATURE_END, HUMIDITY_MIN, HUMIDITY_END, PRESSURE_MIN, PRESSURE_END] {
        edge.extend_from_slice(&[bound - 1, bound, bound + 1, bound | 0x8000_0000]);
    }
    for _ in 0..200_000 {
        edge.push(rng.gen::<u32>());
    }
    for &bits in &edge {
        let t = Measurements { temperature: bits, ..fair() };
        let h = Measurements { humidity: bits, ..fair() };
        let p = Measurements { pressure: bits, ..fair() };
        assert_eq!(t.is_in_domain(), in_float_domain(&t), "temperature {:#x}", bits);
        assert_eq!(h.is_in_domain(), in_float_domain(&h), "humidity {:#x}", bits);
        assert_eq!(p.is_in_domain(), in_float_domain(&p), "pressure {:#x}", bits);
    }
}

#[test]
fn random_sensor_reading_lies_in_its_domain() {
    let mut rng = StdRng::seed_from_u64(1);
    for _ in 0..2000 {
        let measured = measure(&mut rng);
        let reading = SensorReading::random(&mut rng, NOW, measured).unwrap();
        assert!(reading.timestamp >= NOW && reading.timestamp < NOW + 3600);
        assert!(reading.sensor_id >= 1000 && reading.sensor_id < 9999);
        let t = f32::from_bits(reading.temperature);
        let h = f32::from_bits(reading.humidity);
        let p = f32::from_bits(reading.pressure);
        assert!(t >= 15.0 && t < 35.0);
        assert!(h >= 30.0 && h < 80.0);
        assert!(p >= 990.0 && p < 1030.0);
        assert_eq!(reading.temperature, measured.temperature);
        assert_eq!(reading.humidity, measured.humidity);
        assert_eq!(reading.pressure, measured.pressure);
    }
}

#[test]
fn random_sensor_reading_refuses_measurements_outside_the_domain() {
    let mut rng = StdRng::seed_from_u64(2);
    let hot = Measurements { temperature: 35.0f32.to_bits(), ..fair() };
    let dry = Measurements { humidity: 29.999f32.to_bits(), ..fair() };
    let storm = Measurements { pressure: f32::NAN.to_bits(), ..fair() };
    let frost = Measurements { temperature: (-20.0f32).to_bits(), ..fair() };
    assert_eq!(SensorReading::random(&mut rng, NOW, hot), None);
    assert_eq!(SensorReading::random(&mut rng, NOW, dry), None);
    assert_eq!(SensorReading::random(&mut rng, NOW, storm), None);
    assert_eq!(SensorReading::random(&mut rng, NOW, frost), None);
    assert!(SensorReading::random(&mut rng, NOW, fair()).is_some());
    assert_eq!(SensorReading::random(&mut rng, u64::MAX - 3599, fair()), None);
    assert!(SensorReading::random(&mut rng, u64::MAX - 3600, fair()).is_some());
}

#[test]
fn sensor_reading_from_draws_is_exact() {
    let made = SensorReading::from_draws(NOW, 59, 4711, fair()).unwrap();
    assert_eq!(
        made,
        SensorReading {
            timestamp: NOW + 59,
            sensor_id: 4711,
            temperature: 21.5f32.to_bits(),
            humidity: 45.0f32.to_bits(),
            pressure: 1013.25f32.to_bits(),
        }
    );
    assert_eq!(SensorReading::from_draws(NOW, 3600, 4711, fair()), None);
    assert!(SensorReading::from_draws(NOW, 3599, 4711, fair()).is_some());
    assert_eq!(SensorReading::from_draws(NOW, 0, 999, fair()), None);
    assert!(SensorReading::from_draws(NOW, 0, 1000, fair()).is_some());
    assert!(SensorReading::from_draws(NOW, 0, 9998, fair()).is_some());
    assert_eq!(SensorReading::from_draws(NOW, 0, 9999, fair()), None);
    assert_eq!(SensorReading::from_draws(NOW, 0, 1 << 32 | 1000, fair()), None);
    assert_eq!(SensorReading::from_draws(u64::MAX, 1, 1000, fair()), None);
    assert_eq!(SensorReading::from_draws(u64::MAX, 0, 1000, fair()).unwrap().timestamp, u64::MAX);
}

#[test]
fn random_log_entry_keeps_length_and_message_together() {
    let mut rng = StdRng::seed_from_u64(3);
    let mut seen = [false; 8];
    let mut levels = [false; 4];
    for _ in 0..2000 {
        let entry = LogEntry::random(&mut rng, NOW).unwrap();
        assert_eq!(entry.message_length as usize, entry.message.len());
        assert!(entry.is_valid());
        assert!(entry.level < 4);
        assert!(entry.timestamp >= NOW && entry.timestamp < NOW + 3600);
        let choice = (0..8).find(|&i| canned_message(i) == entry.message).unwrap();
        seen[choice] = true;
        levels[entry.level as usize] = true;
    }
    assert_eq!(seen, [true; 8]);
    assert_eq!(levels, [true; 4]);
}

#[test]
fn canned_messages_are_the_eight() {
    let all: Vec<&str> = (0..8).map(canned_message).collect();
    assert_eq!(
        all,
        vec![
            "System startup completed",
            "Database connection established",
            "Processing batch job",
            "Warning: High memory usage detected",
            "Error: Failed to connect to external service",
            "User authentication successful",
            "Cache cleared successfully",
            "Backup process initiated",
        ]
    );
}

#[test]
fn log_entry_from_draws_is_exact() {
    let made = LogEntry::from_draws(NOW, 120, 3, 4).unwrap();
    assert_eq!(
        made,
        LogEntry {
            timestamp: NOW + 120,
            level: 3,
            message_length: 44,
            message: "Error: Failed to connect to external service".to_string(),
        }
    );
    assert_eq!(LogEntry::from_draws(NOW, 3600, 0, 0), None);
    assert_eq!(LogEntry::from_draws(NOW, 0, 4, 0), None);
    assert_eq!(LogEntry::from_draws(NOW, 0, 0, 8), None);
    assert_eq!(LogEntry::from_draws(u64::MAX - 5, 6, 0, 0), None);
    assert_eq!(LogEntry::from_draws(NOW, 3599, 3, 7).unwrap().message, "Backup process initiated");
    assert_eq!(LogEntry::random(&mut StdRng::seed_from_u64(0), u64::MAX - 100), None);
}

#[test]
fn random_mixed_records_are_of_both_kinds() {
    let mut rng = StdRng::seed_from_u64(4);
    let mut sensors = 0;
    let mut logs = 0;
    for _ in 0..5000 {
        let measured = measure(&mut rng);
        match MixedRecord::random(&mut rng, NOW, measured).unwrap() {
            MixedRecord::Sensor(reading) => {
                assert_eq!(reading.temperature, measured.temperature);
                assert!(reading.sensor_id >= 1000 && reading.sensor_id < 9999);
                sensors += 1;
            }
            MixedRecord::Log(entry) => {
                assert!(entry.is_valid());
                logs += 1;
            }
        }
    }
    assert!(sensors > 2700 && sensors < 3300, "{} sensor readings", sensors);
    assert_eq!(sensors + logs, 5000);
    let hot = Measurements { temperature: 40.0f32.to_bits(), ..fair() };
    assert_eq!(MixedRecord::random(&mut rng, NOW, hot), None);
}

#[test]
fn mixed_stream_reads_back_with_the_type_tags_it_was_written_with() {
    let mut measuring = StdRng::seed_from_u64(5);
    let measured: Vec<Measurements> = (0..750).map(|_| measure(&mut measuring)).collect();
    let first = random_mixed_records(&mut StdRng::seed_from_u64(6), NOW, &measured).unwrap();
    let again = random_mixed_records(&mut StdRng::seed_from_u64(6), NOW, &measured).unwrap();
    assert_eq!(first.len(), 750);
    assert_eq!(first, again);
    let tags: Vec<u8> = first.iter().map(|r| r.type_byte()).collect();
    assert!(tags.contains(&0) && tags.contains(&1));
    let bytes = write_container(&first).unwrap();
    let report = decode_container::<MixedRecord>(&bytes, Policy::StopOnError).unwrap();
    let read: Vec<u8> = report.records.iter().map(|r| r.type_byte()).collect();
    assert_eq!(read, tags);
    assert_eq!(report.records, first);
}

#[test]
fn batches_have_one_record_for_each_request() {
    let mut rng = StdRng::seed_from_u64(7);
    let measured: Vec<Measurements> = (0..1000).map(|_| measure(&mut rng)).collect();
    let readings = random_sensor_readings(&mut rng, NOW, &measured).unwrap();
    assert_eq!(readings.len(), 1000);
    for (reading, m) in readings.iter().zip(measured.iter()) {
        assert_eq!((reading.temperature, reading.humidity, reading.pressure), (m.temperature, m.humidity, m.pressure));
        assert!(reading.timestamp >= NOW && reading.timestamp < NOW + 3600);
    }
    let entries = random_log_entries(&mut rng, NOW, 500).unwrap();
    assert_eq!(entries.len(), 500);
    assert!(entries.iter().all(|e| e.is_valid() && e.level < 4));
    assert_eq!(random_log_entries(&mut rng, NOW, 0).unwrap(), vec![]);
    assert_eq!(random_log_entries(&mut rng, u64::MAX, 3), None);
    let mut spoiled = measured.clone();
    spoiled[999].pressure = 990.0f32.to_bits() - 1;
    assert_eq!(random_sensor_readings(&mut rng, NOW, &spoiled), None);
    assert_eq!(random_mixed_records(&mut rng, NOW, &spoiled), None);
    assert_eq!(random_sensor_readings(&mut rng, u64::MAX, &measured), None);
}

#[test]
fn generated_containers_read_back() {
    let mut rng = StdRng::seed_from_u64(8);
    let measured: Vec<Measurements> = (0..100).map(|_| measure(&mut rng)).collect();
    let readings = random_sensor_readings(&mut rng, NOW, &measured).unwrap();
    let bytes = write_container(&readings).unwrap();
    assert_eq!(bytes.len(), 12 + 100 * 24);
    assert_eq!(decode_container::<SensorReading>(&bytes, Policy::StopOnError).unwrap().records, readings);
    let entries = random_log_entries(&mut rng, NOW, 100).unwrap();
    let bytes = write_container(&entries).unwrap();
    assert_eq!(decode_container::<LogEntry>(&bytes, Policy::StopOnError).unwrap().records, entries);
}

#[test]
fn random_chunk_is_filled_with_random_bytes() {
    let mut rng = StdRng::seed_from_u64(9);
    let chunk = random_chunk(&mut rng, 1024);
    assert_eq!(chunk.len(), 1024);
    assert!(chunk.iter().any(|&b| b != 0));
    let other = random_chunk(&mut rng, 1024);
    assert_ne!(chunk, other);
    assert_eq!(random_chunk(&mut StdRng::seed_from_u64(9), 1024), chunk);
    assert_eq!(random_chunk(&mut rng, 0), Vec::<u8>::new());
    assert_eq!(random_chunk(&mut rng, 7).len(), 7);
}

#[test]
fn raw_data_comes_in_blocks_of_a_kilobyte() {
    assert_eq!(RAW_CHUNK_LEN, 1024);
    assert_eq!(kilobytes(100), Some(102_400));
    assert_eq!(kilobytes(0), Some(0));
    assert_eq!(kilobytes(usize::MAX / 1024), Some(usize::MAX / 1024 * 1024));
    assert_eq!(kilobytes(usize::MAX / 1024 + 1), None);
    assert_eq!(next_chunk_len(102_400), 1024);
    assert_eq!(next_chunk_len(1024), 1024);
    assert_eq!(next_chunk_len(1023), 1023);
    assert_eq!(next_chunk_len(0), 0);
    let mut remaining = kilobytes(100).unwrap();
    let mut blocks = 0;
    while remaining > 0 {
        remaining -= next_chunk_len(remaining);
        blocks += 1;
    }
    assert_eq!(blocks, 100);
}
