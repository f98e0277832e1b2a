//! Recordings of panes.
use std::time::{Duration, Instant};
use tear::cast::{CastParseError, CastRow, CastRowKind};
use tear::clock::millis_from;
use tear::rawtext::bytes_of_text;
use tear::recording::PaneRecording;

#[test]
fn the_cast_header_timestamp_is_the_recording_start_not_the_export_time() {
    let mut r = PaneRecording::default();
    r.enable(80, 24);
    r.push(b"x");
    let anchor = r.epoch_anchor().expect("enabled recording has an anchor");

    let json = r.to_cast_json("/bin/sh", 1_900_000_000);
    let header: serde_json::Value =
        serde_json::from_str(json.lines().next().unwrap()).unwrap();
    let ts = header["timestamp"].as_u64().unwrap();

    assert_eq!(
        ts,
        anchor / 1000,
        "header timestamp must be the recording start ({}), not the \
         export time — a cast that misreports when it was recorded is \
         worse than one with no timestamp",
        anchor / 1000
    );
}

#[test]
fn the_epoch_anchor_appears_on_enable_and_clears_on_disable() {
    let mut r = PaneRecording::default();
    assert!(r.epoch_anchor().is_none(), "nothing recorded, nothing to anchor");
    r.enable(80, 24);
    let a = r.epoch_anchor().expect("enabled");
    assert!(a > 1_700_000_000_000, "anchor must be epoch MS, got {a}");
    r.disable();
    assert!(
        r.epoch_anchor().is_none(),
        "a stopped recording must not keep advertising a live anchor"
    );
}

#[test]
fn disabled_recording_drops_pushes() {
    let mut r = PaneRecording::default();
    r.push(b"hello");
    assert_eq!(r.event_count(), 0);
}

#[test]
fn enable_then_push_captures_events() {
    let mut r = PaneRecording::default();
    r.enable(80, 24);
    r.push(b"hello");
    r.push(b" world");
    assert_eq!(r.event_count(), 2);
}

#[test]
fn recording_ring_buffer_caps_at_max() {
    let mut r = PaneRecording::new(3);
    r.enable(80, 24);
    r.push(b"a");
    r.push(b"b");
    r.push(b"c");
    r.push(b"d");
    r.push(b"e");
    assert_eq!(r.event_count(), 3);
}

#[test]
fn cast_export_has_header_plus_one_line_per_event() {
    let mut r = PaneRecording::default();
    r.enable(120, 40);
    r.push(b"$ ls\n");
    r.push(b"file1 file2\n");
    let cast = r.to_cast_json("/bin/sh", 1_900_000_000);
    let lines: Vec<&str> = cast.lines().collect();
    assert_eq!(lines.len(), 3, "expected header + 2 events, got {cast}");
    let header: serde_json::Value = serde_json::from_str(lines[0]).unwrap();
    assert_eq!(header["version"], 2);
    assert_eq!(header["width"], 120);
    assert_eq!(header["height"], 40);
    let ev: serde_json::Value = serde_json::from_str(lines[1]).unwrap();
    let arr = ev.as_array().unwrap();
    assert_eq!(arr[1], "o");
    assert_eq!(arr[2].as_str().unwrap(), "$ ls\n");
}

#[test]
fn disable_then_enable_clears_old_events() {
    let mut r = PaneRecording::default();
    r.enable(80, 24);
    r.push(b"x");
    assert_eq!(r.event_count(), 1);
    r.disable();
    r.enable(80, 24);
    assert_eq!(r.event_count(), 0);
}

#[test]
fn read_around_returns_events_near_cursor() {
    let mut r = PaneRecording::default();
    r.enable(80, 24);
    for i in 0..5u64 {
        r.push_at(&[b'a' + i as u8], i * 1000);
    }
    let around = r.read_around(2500, 4);
    assert_eq!(around.len(), 4);
    assert_eq!(around[0].ts_ms, 1000);
    assert_eq!(around[3].ts_ms, 4000);
}

#[test]
fn the_cast_of_a_known_recording_is_exact() {
    let mut r = PaneRecording::new(10);
    r.enable_at(80, 24, std::time::Instant::now(), 1_700_000_000_123);
    r.push_at(b"hi \"x\"\n", 0);
    r.push_at(b"\xff", 1_500);
    r.push_at(b"z", 60_250);
    assert_eq!(
        r.to_cast_json("/bin/zsh", 5),
        "{\"env\":{\"SHELL\":\"/bin/zsh\",\"TERM\":\"xterm-256color\"},\"height\":24,\"timestamp\":1700000000,\"version\":2,\"width\":80}\n[0.0,\"o\",\"hi \\\"x\\\"\\n\"]\n[1.5,\"o\",\"\u{10feff}\"]\n[60.25,\"o\",\"z\"]\n"
    );
}

#[test]
fn a_recording_without_a_start_is_dated_at_its_export() {
    let r = PaneRecording::new(10);
    let header = r.to_cast_json("/bin/sh", 77);
    assert!(header.contains("\"timestamp\":77"), "{header}");
}

#[test]
fn reading_past_the_end_gives_the_last_events() {
    let mut r = PaneRecording::new(10);
    r.enable(80, 24);
    for i in 0..5u64 {
        r.push_at(&[b'a' + i as u8], i * 1000);
    }
    let end: Vec<u64> = r.read_around(99_999, 2).iter().map(|e| e.ts_ms).collect();
    assert_eq!(end, vec![4000]);
    assert!(r.read_around(0, 0).is_empty());
    assert!(PaneRecording::new(4).read_around(0, 3).is_empty());
}

#[test]
fn the_newest_events_are_kept() {
    let mut r = PaneRecording::new(2);
    r.enable(80, 24);
    r.push_at(b"a", 1);
    r.push_at(b"b", 2);
    r.push_at(b"c", 3);
    let kept: Vec<Vec<u8>> = r.read_around(0, 10).into_iter().map(|e| e.bytes).collect();
    assert_eq!(kept, vec![b"b".to_vec(), b"c".to_vec()]);
}

#[test]
fn exported_lines_read_back() {
    let mut r = PaneRecording::default();
    r.enable(80, 24);
    let chunks = ["plain", "\u{1b}[31mred\u{1b}[0m\r\n", "quote \" back \\ slash", "\u{7}\u{0}h\u{e9}"];
    for (i, c) in chunks.iter().enumerate() {
        r.push_at(c.as_bytes(), i as u64 * 1_234);
    }
    let cast = r.to_cast_json("/bin/sh", 0);
    let mut lines = cast.lines();
    assert_eq!(CastRow::parse(lines.next().unwrap()), Err(CastParseError::HeaderRow));
    for (i, c) in chunks.iter().enumerate() {
        let row = CastRow::parse(lines.next().unwrap()).unwrap();
        assert_eq!(row.kind, CastRowKind::Output);
        assert_eq!(row.payload, *c);
        assert_eq!(row.time.parse::<f64>().unwrap(), (i as f64 * 1_234.0) / 1000.0);
    }
    assert!(lines.next().is_none());
}

#[test]
fn a_stopped_recording_is_dated_at_its_start() {
    let mut r = PaneRecording::new(10);
    r.enable_at(80, 24, std::time::Instant::now(), 1_700_000_000_999);
    r.push_at(b"x", 1);
    let running = r.to_cast_json("/bin/sh", 5);
    r.disable();
    assert!(r.epoch_anchor().is_none());
    assert_eq!(r.to_cast_json("/bin/sh", 9_999), running);
    assert!(running.contains("\"timestamp\":1700000000,"), "{running}");
    r.disable();
    assert_eq!(r.to_cast_json("/bin/sh", 9_999), running);
}

#[test]
fn bytes_outside_utf8_are_exported_without_loss() {
    let export = |bytes: &[u8]| {
        let mut r = PaneRecording::new(10);
        r.enable_at(80, 24, std::time::Instant::now(), 0);
        r.push_at(bytes, 0);
        let cast = r.to_cast_json("", 0);
        let row = CastRow::parse(cast.lines().nth(1).unwrap()).unwrap();
        row.payload
    };
    assert_ne!(export(b"\xff"), export(b"\xfe"));
    let mut seen: Vec<String> = Vec::new();
    for b in 0..=255u8 {
        seen.push(export(&[b]));
    }
    seen.sort();
    seen.dedup();
    assert_eq!(seen.len(), 256);
    assert_eq!(export(b"a\x80b"), "a\u{10fe80}b");
    assert_eq!(export("h\u{e9}\u{20ac}\u{1f600}".as_bytes()), "h\u{e9}\u{20ac}\u{1f600}");
    assert_eq!(export(b"\xe2\x82"), "\u{10fee2}\u{10fe82}");
    assert_eq!(export(b"\xed\xa0\x80"), "\u{10feed}\u{10fea0}\u{10fe80}");
    assert_eq!(export(b"\xc0\xaf"), "\u{10fec0}\u{10feaf}");
    for bytes in [&b"\xffa\xfe"[..], b"\xf4\x8f\xbb\xbf", b"h\xc3\xa9\xc3", b"\x00\x1b[m"] {
        assert_eq!(bytes_of_text(&export(bytes)), bytes);
    }
    assert_eq!(
        export("\u{10feff}".as_bytes()),
        "\u{10fef4}\u{10fe8f}\u{10febb}\u{10febf}"
    );
}

#[test]
fn a_recording_for_no_chunks_holds_none() {
    let mut r = PaneRecording::new(0);
    r.enable(80, 24);
    r.push(b"a");
    r.push(b"b");
    r.push_at(b"c", 3);
    assert_eq!(r.event_count(), 0);
    assert!(r.is_enabled());
    assert_eq!(r.to_cast_json("", 0).lines().count(), 1);
}

#[test]
fn a_full_recording_drops_the_oldest_chunk() {
    let mut r = PaneRecording::new(2);
    r.enable(80, 24);
    for (i, chunk) in [b"a", b"b", b"c"].iter().enumerate() {
        r.push_at(*chunk, i as u64 * 10);
    }
    assert_eq!(r.event_count(), 2);
    let held = r.read_around(0, 8);
    assert_eq!(held.iter().map(|e| e.ts_ms).collect::<Vec<u64>>(), vec![10, 20]);
    assert_eq!(held[1].clone(), held[1]);
    assert_eq!(held[0].bytes, b"b");
}

#[test]
fn a_chunk_is_stamped_from_where_the_recording_began() {
    let start = Instant::now();
    let mut r = PaneRecording::new(8);
    r.enable_at(80, 24, start, 1_700_000_000_000);
    r.push_when(b"a", start);
    r.push_when(b"b", start + Duration::from_micros(1_999));
    r.push_when(b"c", start + Duration::from_secs(7));
    let stamps: Vec<u64> = r.read_around(0, 8).iter().map(|e| e.ts_ms).collect();
    assert_eq!(stamps, vec![0, 1, 7_000]);
    r.disable();
    r.push_when(b"d", start + Duration::from_secs(9));
    assert_eq!(r.event_count(), 3);
}

#[test]
fn the_present_chunk_is_stamped_from_where_the_recording_began() {
    let mut r = PaneRecording::new(8);
    let start = Instant::now().checked_sub(Duration::from_secs(5)).unwrap();
    r.enable_at(80, 24, start, 1);
    r.push(b"late");
    let stamp = r.read_around(0, 8)[0].ts_ms;
    assert!((5_000..24_000).contains(&stamp), "{stamp}");
}

#[test]
fn the_span_between_two_points_is_counted_one_way() {
    let a = Instant::now();
    let b = a + Duration::from_millis(1_234);
    assert_eq!(millis_from(a, b), 1_234);
    assert_eq!(millis_from(b, a), 0);
    assert_eq!(millis_from(a, a), 0);
}
