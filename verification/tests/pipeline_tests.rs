use uwb_telemetry::buffer::SharedBuffer;
use uwb_telemetry::gauges::run_cycle;
use uwb_telemetry::gauges::GaugeSet;
use uwb_telemetry::record::Dec64;
use uwb_telemetry::record::TelemetryRecord;

fn dec(neg: bool, mant: u64, exp: i64) -> Dec64 {
    Dec64 { neg, mant, exp }
}

fn record(tag: u64) -> TelemetryRecord {
    TelemetryRecord {
        distance: dec(false, tag, -2),
        raw: dec(false, tag + 1, -2),
        rssi: dec(true, 700, -1),
        fp_rssi: dec(true, 750, -1),
        round_time: tag,
        reply_time: tag + 1,
        clock_offset: dec(false, 1, -3),
    }
}

#[test]
fn appends_then_drain_returns_all_in_order_then_nothing() {
    let mut buf = SharedBuffer::new();
    for tag in 0..5u64 {
        buf.append(record(tag));
    }
    assert_eq!(buf.len(), 5);
    let drained = buf.drain_all();
    assert_eq!(drained.len(), 5);
    for (k, rec) in drained.iter().enumerate() {
        assert_eq!(*rec, record(k as u64));
    }
    assert_eq!(buf.len(), 0);
    let again = buf.drain_all();
    assert!(again.is_empty());
}

#[test]
fn no_record_lost_across_two_drains() {
    let mut buf = SharedBuffer::new();
    buf.append(record(1));
    buf.append(record(2));
    let first = buf.drain_all();
    buf.append(record(3));
    let second = buf.drain_all();
    let combined: Vec<TelemetryRecord> = first.into_iter().chain(second.into_iter()).collect();
    assert_eq!(combined, vec![record(1), record(2), record(3)]);
    assert_eq!(buf.len(), 0);
}

#[test]
fn malformed_payload_leaves_buffer_unchanged() {
    let mut buf = SharedBuffer::new();
    assert!(buf.ingest(b"{\"distance\":1.23,\"raw\":1.30,\"rssi\":-70.0,\"fp_rssi\":-75.0,\"round_time\":100,\"reply_time\":50,\"clock_offset\":0.001}"));
    assert_eq!(buf.len(), 1);
    assert!(!buf.ingest(b"garbage"));
    assert!(!buf.ingest(b"{\"distance\":1.23}"));
    assert!(!buf.ingest(&[0xff, 0x00, 0x41]));
    assert_eq!(buf.len(), 1);
}

#[test]
fn startup_gauges_read_the_sentinel() {
    let gauges = GaugeSet::new();
    let sentinel = dec(true, 10, 0);
    assert_eq!(gauges.distance, sentinel);
    assert_eq!(gauges.raw, sentinel);
    assert_eq!(gauges.rssi, sentinel);
    assert_eq!(gauges.fp_rssi, sentinel);
    assert_eq!(gauges.round_time, sentinel);
    assert_eq!(gauges.reply_time, sentinel);
    assert_eq!(gauges.clock_offset, sentinel);
    // the sentinel reads as minus ten on a dashboard
    assert_eq!(-(sentinel.mant as f64), -10.0);
}

#[test]
fn publish_cycle_sets_gauges_from_the_payload() {
    let mut buf = SharedBuffer::new();
    let mut gauges = GaugeSet::new();
    assert!(buf.ingest(b"{\"distance\":1.23,\"raw\":1.30,\"rssi\":-70.0,\"fp_rssi\":-75.0,\"round_time\":100,\"reply_time\":50,\"clock_offset\":0.001}"));
    let drained = run_cycle(&mut buf, &mut gauges);
    assert_eq!(drained.len(), 1);
    assert_eq!(buf.len(), 0);
    assert_eq!(gauges.distance, dec(false, 123, -2));
    assert_eq!(gauges.round_time, dec(false, 100, 0));
    // the duration gauge reads 100.0 once mirrored to a float registry
    assert_eq!(gauges.round_time.mant as f64, 100.0);
}

#[test]
fn garbage_changes_no_gauge_after_the_next_cycle() {
    let mut buf = SharedBuffer::new();
    let mut gauges = GaugeSet::new();
    assert!(!buf.ingest(b"garbage"));
    let drained = run_cycle(&mut buf, &mut gauges);
    assert!(drained.is_empty());
    assert_eq!(gauges, GaugeSet::new());
}

#[test]
fn two_messages_one_cycle_keeps_only_the_second() {
    let mut buf = SharedBuffer::new();
    let mut gauges = GaugeSet::new();
    assert!(buf.ingest(b"{\"distance\":1.23,\"raw\":1.30,\"rssi\":-70.0,\"fp_rssi\":-75.0,\"round_time\":100,\"reply_time\":50,\"clock_offset\":0.001}"));
    assert!(buf.ingest(b"{\"distance\":4.56,\"raw\":4.60,\"rssi\":-60.0,\"fp_rssi\":-65.0,\"round_time\":200,\"reply_time\":80,\"clock_offset\":0.002}"));
    let drained = run_cycle(&mut buf, &mut gauges);
    assert_eq!(drained.len(), 2);
    assert_eq!(gauges.distance, dec(false, 456, -2));
    assert_eq!(gauges.raw, dec(false, 460, -2));
    assert_eq!(gauges.rssi, dec(true, 600, -1));
    assert_eq!(gauges.fp_rssi, dec(true, 650, -1));
    assert_eq!(gauges.round_time, dec(false, 200, 0));
    assert_eq!(gauges.reply_time, dec(false, 80, 0));
    assert_eq!(gauges.clock_offset, dec(false, 2, -3));
}

#[test]
fn empty_drain_is_a_no_op_on_gauges() {
    let mut buf = SharedBuffer::new();
    let mut gauges = GaugeSet::new();
    assert!(buf.ingest(b"{\"distance\":1.23,\"raw\":1.30,\"rssi\":-70.0,\"fp_rssi\":-75.0,\"round_time\":100,\"reply_time\":50,\"clock_offset\":0.001}"));
    let _ = run_cycle(&mut buf, &mut gauges);
    let before = gauges;
    let drained = run_cycle(&mut buf, &mut gauges);
    assert!(drained.is_empty());
    assert_eq!(gauges, before);
}
