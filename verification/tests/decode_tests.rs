use uwb_telemetry::decode::decode;
use uwb_telemetry::record::Dec64;
use uwb_telemetry::record::TelemetryRecord;

fn dec(neg: bool, mant: u64, exp: i64) -> Dec64 {
    Dec64 { neg, mant, exp }
}

fn full_payload() -> &'static [u8] {
    b"{\"distance\":1.23,\"raw\":1.30,\"rssi\":-70.0,\"fp_rssi\":-75.0,\"round_time\":100,\"reply_time\":50,\"clock_offset\":0.001}"
}

#[test]
fn decode_valid_payload_roundtrips_all_fields() {
    let rec = decode(full_payload()).expect("valid payload must decode");
    assert_eq!(rec.distance, dec(false, 123, -2));
    assert_eq!(rec.raw, dec(false, 130, -2));
    assert_eq!(rec.rssi, dec(true, 700, -1));
    assert_eq!(rec.fp_rssi, dec(true, 750, -1));
    assert_eq!(rec.round_time, 100u64);
    assert_eq!(rec.reply_time, 50u64);
    assert_eq!(rec.clock_offset, dec(false, 1, -3));
}

#[test]
fn decode_accepts_any_member_order() {
    let reordered: &[u8] = b"{\"clock_offset\":0.001,\"reply_time\":50,\"round_time\":100,\"fp_rssi\":-75.0,\"rssi\":-70.0,\"raw\":1.30,\"distance\":1.23}";
    let a = decode(full_payload()).expect("valid payload must decode");
    let b = decode(reordered).expect("reordered payload must decode");
    assert_eq!(a, b);
}

#[test]
fn decode_accepts_whitespace() {
    let spaced: &[u8] = b" {\n \"distance\" : 1.23 ,\t\"raw\": 1.30, \"rssi\": -70.0, \"fp_rssi\": -75.0,\r\n \"round_time\": 100, \"reply_time\": 50, \"clock_offset\": 0.001 } ";
    let a = decode(full_payload()).expect("valid payload must decode");
    let b = decode(spaced).expect("spaced payload must decode");
    assert_eq!(a, b);
}

#[test]
fn decode_exponent_forms() {
    let p: &[u8] = b"{\"distance\":1.5e3,\"raw\":2E-3,\"rssi\":1e+2,\"fp_rssi\":-0,\"round_time\":0,\"reply_time\":18446744073709551615,\"clock_offset\":7}";
    let rec = decode(p).expect("exponent forms must decode");
    assert_eq!(rec.distance, dec(false, 15, 2));
    assert_eq!(rec.raw, dec(false, 2, -3));
    assert_eq!(rec.rssi, dec(false, 1, 2));
    assert_eq!(rec.fp_rssi, dec(true, 0, 0));
    assert_eq!(rec.round_time, 0u64);
    assert_eq!(rec.reply_time, u64::MAX);
    assert_eq!(rec.clock_offset, dec(false, 7, 0));
}

#[test]
fn decode_reads_back_a_canonically_encoded_record() {
    // the canonical wire form of a record: members in declaration order, no
    // whitespace, each number as mantissa and power-of-ten exponent
    let canonical: &[u8] = b"{\"distance\":123e-2,\"raw\":130e-2,\"rssi\":-700e-1,\"fp_rssi\":-750e-1,\"round_time\":100,\"reply_time\":50,\"clock_offset\":1e-3}";
    let rec = decode(canonical).expect("its own encoding must decode");
    let expected = TelemetryRecord {
        distance: dec(false, 123, -2),
        raw: dec(false, 130, -2),
        rssi: dec(true, 700, -1),
        fp_rssi: dec(true, 750, -1),
        round_time: 100,
        reply_time: 50,
        clock_offset: dec(false, 1, -3),
    };
    assert_eq!(rec, expected);
}

#[test]
fn decode_rejects_malformed() {
    let bad: &[&[u8]] = &[
        b"",
        b"garbage",
        b"{}",
        b"null",
        b"[1,2]",
        // missing one field
        b"{\"distance\":1.23,\"raw\":1.30,\"rssi\":-70.0,\"fp_rssi\":-75.0,\"round_time\":100,\"reply_time\":50}",
        // a field twice
        b"{\"distance\":1.23,\"distance\":1.23,\"raw\":1.30,\"rssi\":-70.0,\"fp_rssi\":-75.0,\"round_time\":100,\"reply_time\":50,\"clock_offset\":0.001}",
        // unknown member name
        b"{\"distance\":1.23,\"raw\":1.30,\"rssi\":-70.0,\"fp_rssi\":-75.0,\"round_time\":100,\"reply_time\":50,\"clock\":0.001}",
        // durations must be unsigned integer literals
        b"{\"distance\":1.23,\"raw\":1.30,\"rssi\":-70.0,\"fp_rssi\":-75.0,\"round_time\":1.5,\"reply_time\":50,\"clock_offset\":0.001}",
        b"{\"distance\":1.23,\"raw\":1.30,\"rssi\":-70.0,\"fp_rssi\":-75.0,\"round_time\":-1,\"reply_time\":50,\"clock_offset\":0.001}",
        b"{\"distance\":1.23,\"raw\":1.30,\"rssi\":-70.0,\"fp_rssi\":-75.0,\"round_time\":1e2,\"reply_time\":50,\"clock_offset\":0.001}",
        // mantissa one past u64::MAX
        b"{\"distance\":1.23,\"raw\":1.30,\"rssi\":-70.0,\"fp_rssi\":-75.0,\"round_time\":18446744073709551616,\"reply_time\":50,\"clock_offset\":0.001}",
        // malformed numbers
        b"{\"distance\":01,\"raw\":1.30,\"rssi\":-70.0,\"fp_rssi\":-75.0,\"round_time\":100,\"reply_time\":50,\"clock_offset\":0.001}",
        b"{\"distance\":+1,\"raw\":1.30,\"rssi\":-70.0,\"fp_rssi\":-75.0,\"round_time\":100,\"reply_time\":50,\"clock_offset\":0.001}",
        b"{\"distance\":.5,\"raw\":1.30,\"rssi\":-70.0,\"fp_rssi\":-75.0,\"round_time\":100,\"reply_time\":50,\"clock_offset\":0.001}",
        b"{\"distance\":1.,\"raw\":1.30,\"rssi\":-70.0,\"fp_rssi\":-75.0,\"round_time\":100,\"reply_time\":50,\"clock_offset\":0.001}",
        b"{\"distance\":1e,\"raw\":1.30,\"rssi\":-70.0,\"fp_rssi\":-75.0,\"round_time\":100,\"reply_time\":50,\"clock_offset\":0.001}",
        // a string where a number belongs
        b"{\"distance\":\"1.23\",\"raw\":1.30,\"rssi\":-70.0,\"fp_rssi\":-75.0,\"round_time\":100,\"reply_time\":50,\"clock_offset\":0.001}",
        // broken framing
        b"{\"distance\":1.23,\"raw\":1.30,\"rssi\":-70.0,\"fp_rssi\":-75.0,\"round_time\":100,\"reply_time\":50,\"clock_offset\":0.001",
        b"{\"distance\":1.23,\"raw\":1.30,\"rssi\":-70.0,\"fp_rssi\":-75.0,\"round_time\":100,\"reply_time\":50,\"clock_offset\":0.001,}",
        b"{\"distance\":1.23,\"raw\":1.30,\"rssi\":-70.0,\"fp_rssi\":-75.0,\"round_time\":100,\"reply_time\":50,\"clock_offset\":0.001}x",
        // not UTF-8 at all
        &[0xff, 0xfe, 0x00],
    ];
    for payload in bad {
        assert_eq!(decode(payload), None);
    }
}

#[test]
fn decode_agrees_with_reference_json_parser() {
    let text = std::str::from_utf8(full_payload()).expect("payload is UTF-8");
    let value: serde_json::Value = serde_json::from_str(text).expect("reference parser accepts it");
    let rec = decode(full_payload()).expect("decoder accepts it");
    assert_eq!(value.get("distance").and_then(|v| v.as_f64()), Some(dec_to_f64(&rec.distance)));
    assert_eq!(value.get("rssi").and_then(|v| v.as_f64()), Some(dec_to_f64(&rec.rssi)));
    assert_eq!(value.get("round_time").and_then(|v| v.as_u64()), Some(rec.round_time));
    assert_eq!(value.get("reply_time").and_then(|v| v.as_u64()), Some(rec.reply_time));
    assert!(serde_json::from_str::<serde_json::Value>("garbage").is_err());
}

fn dec_to_f64(d: &Dec64) -> f64 {
    let magnitude = if d.exp < 0 {
        d.mant as f64 / 10f64.powi((-d.exp) as i32)
    } else {
        d.mant as f64 * 10f64.powi(d.exp as i32)
    };
    if d.neg { -magnitude } else { magnitude }
}

#[test]
fn decoded_fields_equal_written_values_as_floats() {
    let rec: TelemetryRecord = decode(full_payload()).expect("valid payload must decode");
    assert_eq!(dec_to_f64(&rec.distance), 1.23);
    assert_eq!(dec_to_f64(&rec.raw), 1.30);
    assert_eq!(dec_to_f64(&rec.rssi), -70.0);
    assert_eq!(dec_to_f64(&rec.fp_rssi), -75.0);
    assert_eq!(dec_to_f64(&rec.clock_offset), 0.001);
}
