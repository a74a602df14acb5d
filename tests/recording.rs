use serial_brain::recording::{base_filename, segment_file_name, Format, RecordEntry, RecorderStep, RecordingSession};

fn entry(ts: u64, base: f32) -> RecordEntry {
    let values: Vec<f32> = (0..8).map(|i| base + i as f32).collect();
    let mut bits = [0u64; 8];
    for (i, v) in values.iter().enumerate() {
        bits[i] = (*v as f64).to_bits();
    }
    RecordEntry { timestamp_ms: ts, texts: values.iter().map(|v| v.to_string()).collect(), bits }
}

fn json_entry(ts: u64, base: f32) -> RecordEntry {
    let mut e = entry(ts, base);
    e.texts = (0..8).map(|i| serde_json::to_string(&(base + i as f32)).unwrap()).collect();
    e
}

#[test]
fn format_names_ignore_case() {
    assert_eq!(Format::try_from("csv"), Ok(Format::Csv));
    assert_eq!(Format::try_from("CSV"), Ok(Format::Csv));
    assert_eq!(Format::try_from("Json"), Ok(Format::Json));
    assert_eq!(Format::try_from("binary"), Ok(Format::Binary));
    assert_eq!(Format::try_from("BIN"), Ok(Format::Binary));
}

#[test]
fn unknown_format_is_refused_with_message() {
    assert_eq!(
        Format::try_from("xml"),
        Err("Invalid format 'xml'. Expected csv | json | binary".to_string())
    );
    assert!(Format::try_from("").is_err());
    assert!(Format::try_from("csv ").is_err());
}

#[test]
fn extensions() {
    assert_eq!(Format::Csv.extension(), "csv");
    assert_eq!(Format::Json.extension(), "json");
    assert_eq!(Format::Binary.extension(), "bin");
}

#[test]
fn file_names_from_timestamp() {
    assert_eq!(base_filename(1700000000123), "serial_recording_1700000000123");
    assert_eq!(base_filename(0), "serial_recording_0");
    assert_eq!(segment_file_name(42, Format::Binary), "serial_recording_42.bin");
    assert_eq!(segment_file_name(u64::MAX, Format::Csv), "serial_recording_18446744073709551615.csv");
}

#[test]
fn invalid_format_starts_no_session() {
    assert!(RecordingSession::start("yaml", 1000, 0).is_err());
}

#[test]
fn csv_recording_of_three_frames() {
    let (mut s, file) = RecordingSession::start("csv", 60000, 1000).unwrap();
    assert_eq!(file.file_name, "serial_recording_1000.csv");
    let mut bytes = file.opening.clone();
    bytes.extend(s.write_batch(&vec![entry(1001, 0.5), entry(1002, 1.5), entry(1003, -2.25)]));
    bytes.extend(s.finish(&vec![]));
    let text = String::from_utf8(bytes).unwrap();
    let lines: Vec<&str> = text.lines().collect();
    assert_eq!(lines.len(), 4);
    assert_eq!(lines[0], "timestamp,channel_0,channel_1,channel_2,channel_3,channel_4,channel_5,channel_6,channel_7");
    for line in &lines[1..] {
        assert_eq!(line.split(',').count(), 9);
    }
    assert_eq!(lines[1], "1001,0.5,1.5,2.5,3.5,4.5,5.5,6.5,7.5");
    assert!(text.ends_with('\n'));
}

#[test]
fn json_document_layout() {
    let (mut s, file) = RecordingSession::start("json", 60000, 5).unwrap();
    assert_eq!(file.opening, b"[".to_vec());
    let mut bytes = file.opening.clone();
    bytes.extend(s.write_batch(&vec![json_entry(7, 0.0)]));
    bytes.extend(s.write_batch(&vec![json_entry(8, 1.0)]));
    bytes.extend(s.finish(&vec![]));
    let text = String::from_utf8(bytes).unwrap();
    assert_eq!(
        text,
        "[{\"timestamp\":7,\"values\":[0.0,1.0,2.0,3.0,4.0,5.0,6.0,7.0]},{\"timestamp\":8,\"values\":[1.0,2.0,3.0,4.0,5.0,6.0,7.0,8.0]}]"
    );
    let parsed: serde_json::Value = serde_json::from_str(&text).unwrap();
    assert_eq!(parsed.as_array().unwrap().len(), 2);
}

#[test]
fn empty_json_segment_is_an_empty_array() {
    let (s, file) = RecordingSession::start("json", 60000, 5).unwrap();
    let mut bytes = file.opening.clone();
    bytes.extend(s.finish(&vec![]));
    assert_eq!(bytes, b"[]".to_vec());
}

#[test]
fn binary_record_layout() {
    let (mut s, file) = RecordingSession::start("binary", 60000, 5).unwrap();
    assert!(file.opening.is_empty());
    let e = entry(0x0102030405060708, 1.0);
    let expected_bits = e.bits;
    let out = s.write_batch(&vec![e]);
    assert_eq!(out.len(), 8 + 4 + 64);
    assert_eq!(out[..8].to_vec(), 0x0102030405060708u64.to_le_bytes().to_vec());
    assert_eq!(out[8..12].to_vec(), vec![8, 0, 0, 0]);
    for i in 0..8 {
        let got = f64::from_le_bytes(out[12 + 8 * i..20 + 8 * i].try_into().unwrap());
        assert_eq!(got.to_bits(), expected_bits[i]);
        assert_eq!(got, 1.0 + i as f64);
    }
    assert!(s.finish(&vec![]).is_empty());
}

#[test]
fn next_step_decisions() {
    let (s, _) = RecordingSession::start("csv", 1000, 10_000).unwrap();
    assert_eq!(s.next_step(false, 10_000), RecorderStep::Finish);
    assert_eq!(s.next_step(false, 50_000), RecorderStep::Finish);
    assert_eq!(s.next_step(true, 10_999), RecorderStep::Drain);
    assert_eq!(s.next_step(true, 11_000), RecorderStep::Rotate);
    assert_eq!(s.next_step(true, 5_000), RecorderStep::Drain);
}

#[test]
fn rotation_closes_old_file_and_loses_nothing() {
    let (mut s, first) = RecordingSession::start("json", 1000, 0).unwrap();
    let mut old_file = first.opening.clone();
    old_file.extend(s.write_batch(&vec![json_entry(100, 0.0), json_entry(200, 1.0)]));
    assert_eq!(s.next_step(true, 600), RecorderStep::Drain);
    old_file.extend(s.write_batch(&vec![json_entry(600, 2.0)]));
    assert_eq!(s.next_step(true, 1000), RecorderStep::Rotate);
    let next = s.next_segment(1000);
    assert_eq!(next.file_name, "serial_recording_1000.json");
    old_file.extend(s.rotate(1000));
    let mut new_file = next.opening.clone();
    assert_eq!(s.next_step(true, 1500), RecorderStep::Drain);
    new_file.extend(s.write_batch(&vec![json_entry(1001, 3.0)]));
    new_file.extend(s.finish(&vec![json_entry(1500, 4.0)]));
    let a: serde_json::Value = serde_json::from_slice(&old_file).unwrap();
    let b: serde_json::Value = serde_json::from_slice(&new_file).unwrap();
    let stamps = |v: &serde_json::Value| -> Vec<u64> {
        v.as_array().unwrap().iter().map(|o| o["timestamp"].as_u64().unwrap()).collect()
    };
    assert_eq!(stamps(&a), vec![100, 200, 600]);
    assert_eq!(stamps(&b), vec![1001, 1500]);
}

#[test]
fn session_reports_format() {
    let (s, _) = RecordingSession::start("Binary", 1, 1).unwrap();
    assert_eq!(s.format(), Format::Binary);
}

#[test]
fn postponed_rotation_keeps_segment() {
    let (mut s, first) = RecordingSession::start("json", 1000, 0).unwrap();
    let mut file = first.opening.clone();
    file.extend(s.write_batch(&vec![json_entry(10, 0.0)]));
    assert_eq!(s.next_step(true, 1200), RecorderStep::Rotate);
    s.postpone_rotation(1200);
    assert_eq!(s.next_step(true, 1300), RecorderStep::Drain);
    assert_eq!(s.next_step(true, 2200), RecorderStep::Rotate);
    file.extend(s.write_batch(&vec![json_entry(1300, 1.0)]));
    file.extend(s.finish(&vec![]));
    let v: serde_json::Value = serde_json::from_slice(&file).unwrap();
    assert_eq!(v.as_array().unwrap().len(), 2);
}

#[test]
fn finish_writes_the_last_drain() {
    let (mut s, file) = RecordingSession::start("csv", 60000, 0).unwrap();
    let mut bytes = file.opening.clone();
    bytes.extend(s.write_batch(&vec![entry(1, 0.0)]));
    bytes.extend(s.finish(&vec![entry(2, 1.0), entry(3, 2.0)]));
    let text = String::from_utf8(bytes).unwrap();
    let lines: Vec<&str> = text.lines().collect();
    assert_eq!(lines.len(), 4);
    assert!(lines[3].starts_with("3,"));
}
