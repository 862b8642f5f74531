use red_panda_chat::args::DataFormat;
use red_panda_chat::publisher::{prepare_chat, prepare_delete, prepare_replace};
use red_panda_chat::scan::{AdminScan, PollEvent, ScanState};
use red_panda_chat::ChatError;

fn record(offset: i64, timestamp: i64, payload: Vec<u8>) -> PollEvent {
    PollEvent::Record { offset, timestamp, payload }
}

fn fresh_scan(format: DataFormat, budget_ms: u64) -> AdminScan {
    let mut scan = AdminScan::new(format, budget_ms);
    scan.start_polling();
    scan
}

#[test]
fn overlay_replace_then_delete_empties_view() {
    // Window: (10, "hi"), (11, replaces=10, "hi v2"), (12, delete=11).
    // 10's original is superseded by 11, whose replacement is then
    // deleted, so nothing survives.
    let f = DataFormat::Json;
    let mut scan = fresh_scan(f, 60_000);
    scan.step(record(10, 1000, prepare_chat("alice", "hi", f).unwrap()), 1);
    assert_eq!(scan.view.message_count(), 1);
    scan.step(record(11, 2000, prepare_replace("alice", "hi v2", 10, f).unwrap()), 1);
    assert_eq!(scan.view.message_count(), 1);
    let e = &scan.view.entries()[0];
    assert_eq!(e.offset, 10);
    assert_eq!(e.source_offset, 11);
    assert_eq!(e.message, "hi v2");
    assert_eq!(e.replaces, Some(10));
    scan.step(record(12, 3000, prepare_delete(11, f).unwrap()), 1);
    assert_eq!(scan.view.message_count(), 0);
    assert_eq!(scan.state, ScanState::Polling);
}

#[test]
fn delete_of_original_offset_also_wins() {
    let f = DataFormat::Json;
    let mut scan = fresh_scan(f, 60_000);
    scan.step(record(10, 0, prepare_chat("a", "hi", f).unwrap()), 1);
    scan.step(record(11, 0, prepare_replace("a", "hi v2", 10, f).unwrap()), 1);
    scan.step(record(12, 0, prepare_delete(10, f).unwrap()), 1);
    assert_eq!(scan.view.message_count(), 0);
}

#[test]
fn delete_wins_over_later_records() {
    let f = DataFormat::Json;
    let mut scan = fresh_scan(f, 60_000);
    scan.step(record(5, 0, prepare_delete(9, f).unwrap()), 1);
    scan.step(record(9, 0, prepare_chat("a", "late", f).unwrap()), 1);
    assert_eq!(scan.view.message_count(), 0);
    scan.step(record(10, 0, prepare_replace("a", "revived?", 9, f).unwrap()), 1);
    assert_eq!(scan.view.message_count(), 0);
}

#[test]
fn replace_without_original_creates_entry() {
    let f = DataFormat::Json;
    let mut scan = fresh_scan(f, 60_000);
    scan.step(record(11, 0, prepare_replace("a", "v2", 3, f).unwrap()), 1);
    assert_eq!(scan.view.message_count(), 1);
    assert_eq!(scan.view.entries()[0].offset, 3);
}

#[test]
fn entries_stay_ordered_by_offset() {
    let f = DataFormat::Json;
    let mut scan = fresh_scan(f, 60_000);
    scan.step(record(5, 0, prepare_chat("a", "five", f).unwrap()), 1);
    scan.step(record(7, 0, prepare_chat("a", "seven", f).unwrap()), 1);
    scan.step(record(8, 0, prepare_replace("a", "six", 6, f).unwrap()), 1);
    let offsets: Vec<i64> = scan.view.entries().iter().map(|e| e.offset).collect();
    assert_eq!(offsets, vec![5, 6, 7]);
}

#[test]
fn chat_records_accumulate_in_view() {
    let f = DataFormat::Protobuf;
    let mut scan = fresh_scan(f, 60_000);
    scan.step(record(0, 10, prepare_chat("a", "first", f).unwrap()), 1);
    scan.step(record(1, 20, prepare_chat("b", "second", f).unwrap()), 1);
    assert_eq!(scan.view.message_count(), 2);
    assert_eq!(scan.view.entries()[0].username, "a");
    assert_eq!(scan.view.entries()[0].timestamp, 10);
    assert_eq!(scan.view.entries()[1].message, "second");
}

#[test]
fn timeout_with_empty_stream_reports_zero_messages() {
    // Budget of one unit, a subscription that never yields: the scan
    // must reach its terminal state in bounded time, with nothing found.
    let mut scan = fresh_scan(DataFormat::Json, 1);
    let mut steps: u32 = 0;
    while !scan.finished() {
        scan.step(PollEvent::Empty, 1);
        steps += 1;
        assert!(steps <= 2, "scan did not terminate within budget + 1 polls");
    }
    assert_eq!(scan.state, ScanState::TimedOut);
    assert_eq!(scan.view.message_count(), 0);
    assert_eq!(steps, 2);
}

#[test]
fn timeout_preserves_accumulated_view() {
    let f = DataFormat::Json;
    let mut scan = fresh_scan(f, 10);
    scan.step(record(1, 0, prepare_chat("a", "kept", f).unwrap()), 4);
    scan.step(PollEvent::Empty, 20);
    assert_eq!(scan.state, ScanState::TimedOut);
    assert_eq!(scan.view.message_count(), 1);
}

#[test]
fn stream_error_stops_immediately() {
    let f = DataFormat::Json;
    let mut scan = fresh_scan(f, 60_000);
    scan.step(record(1, 0, prepare_chat("a", "kept", f).unwrap()), 1);
    scan.step(PollEvent::StreamFailure, 1);
    assert_eq!(scan.state, ScanState::StreamError);
    assert_eq!(scan.view.message_count(), 1);
}

#[test]
fn undecodable_record_is_skipped_not_fatal() {
    let f = DataFormat::Json;
    let mut scan = fresh_scan(f, 60_000);
    scan.step(record(1, 0, b"garbage".to_vec()), 1);
    assert_eq!(scan.state, ScanState::Polling);
    assert_eq!(scan.decode_failures, 1);
    assert_eq!(scan.view.message_count(), 0);
    scan.step(record(2, 0, prepare_chat("a", "fine", f).unwrap()), 1);
    assert_eq!(scan.view.message_count(), 1);
}

#[test]
fn text_format_scan_has_no_mutations() {
    // Under the text format every record is a plain message: admin
    // mutations cannot even be encoded.
    let f = DataFormat::Text;
    let mut scan = fresh_scan(f, 60_000);
    scan.step(record(0, 0, prepare_chat("a", "one", f).unwrap()), 1);
    scan.step(record(1, 0, prepare_chat("b", "two", f).unwrap()), 1);
    assert_eq!(scan.view.message_count(), 2);
    assert!(matches!(prepare_delete(0, f), Err(ChatError::UnsupportedOperation)));
}
