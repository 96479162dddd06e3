use smart_brain::ais::{
    bits, bits_signed, decode, decode_6bit, sixbit_str, AisError, AisMessage, NavStatus,
};

fn push_bits(out: &mut Vec<u8>, value: u32, nbits: u32) {
    for i in (0..nbits).rev() {
        out.push(((value >> i) & 1) as u8);
    }
}

fn encode_payload(fields: &[(u32, u32)]) -> String {
    let mut bits_buf: Vec<u8> = Vec::new();
    for (val, nbits) in fields {
        push_bits(&mut bits_buf, *val, *nbits);
    }
    while bits_buf.len() % 6 != 0 {
        bits_buf.push(0);
    }
    bits_buf
        .chunks(6)
        .map(|chunk| {
            let mut v = 0u8;
            for &b in chunk {
                v = (v << 1) | b;
            }
            let c = if v <= 39 { 48 + v } else { 96 + (v - 40) };
            c as char
        })
        .collect()
}

fn mk_type1(mmsi: u32, sog: u32, lon: i32, lat: i32, cog: u32, heading: u32) -> String {
    encode_payload(&[
        (1, 6),
        (0, 2),
        (mmsi, 30),
        (0, 4),
        (0, 8),
        (sog, 10),
        (0, 1),
        (lon as u32, 28),
        (lat as u32, 27),
        (cog, 12),
        (heading, 9),
        (0, 6),
    ])
}

fn knots(t: Option<u32>) -> f32 {
    t.map(|t| t as f32 / 10.0).unwrap_or(-1.0)
}

fn degrees(raw: Option<i32>) -> Option<f32> {
    raw.map(|r| r as f32 / 600_000.0)
}

#[test]
fn decode_6bit_single_char() {
    assert_eq!(decode_6bit("1").unwrap(), vec![0x04]);
    assert_eq!(decode_6bit("`").unwrap(), vec![0xA0]);
}

#[test]
fn bits_reader_is_msb_first() {
    let bytes = [0b10110000, 0b00001111];
    assert_eq!(bits(&bytes, 0, 4), 0b1011);
    assert_eq!(bits(&bytes, 1, 3), 0b011);
    assert_eq!(bits(&bytes, 12, 4), 0b1111);
    assert_eq!(bits_signed(&bytes, 12, 4), -1);
}

#[test]
fn sixbit_string_trims_and_stops_at_at() {
    let bytes = vec![0b00000100, 0b00100000, 0b00000000];
    let s = sixbit_str(&bytes, 0, 3);
    assert_eq!(s, "AB");
}

#[test]
fn round_trip_type1_position_report() {
    let mmsi = 366_999_000u32;
    let lon_raw = (10.0f32 * 600_000.0) as i32;
    let lat_raw = (20.0f32 * 600_000.0) as i32;
    let payload = mk_type1(mmsi, 123, lon_raw, lat_raw, 456, 90);
    let sentence = format!("!AIVDM,1,1,,B,{payload},0*00");
    let msg = decode(&sentence).unwrap();
    let AisMessage::PositionReport(p) = msg else {
        panic!("expected position report");
    };
    assert_eq!(p.msg_type, 1);
    assert!(!p.class_b);
    assert_eq!(p.mmsi, mmsi);
    assert_eq!(p.nav_status, NavStatus::UnderWayUsingEngine);
    assert!((knots(p.sog_tenths) - 12.3).abs() < 1e-4);
    assert!((knots(p.cog_tenths) - 45.6).abs() < 1e-3);
    assert_eq!(p.heading_deg.map(|h| h as f32), Some(90.0));
    assert!((degrees(p.longitude_raw).unwrap() - 10.0).abs() < 1e-4);
    assert!((degrees(p.latitude_raw).unwrap() - 20.0).abs() < 1e-4);
}

#[test]
fn negative_longitude_decodes() {
    let lon_raw = (-73.98765f32 * 600_000.0) as i32;
    let lat_raw = (40.01234f32 * 600_000.0) as i32;
    let payload = mk_type1(123_456_789, 0, lon_raw, lat_raw, 0, 511);
    let msg = decode(&format!("!AIVDM,1,1,,A,{payload},0")).unwrap();
    let AisMessage::PositionReport(p) = msg else {
        panic!()
    };
    assert!((degrees(p.longitude_raw).unwrap() - (-73.98765)).abs() < 1e-4);
    assert!((degrees(p.latitude_raw).unwrap() - 40.01234).abs() < 1e-4);
    assert_eq!(p.heading_deg, None);
}

#[test]
fn not_available_sog_cog() {
    let payload = mk_type1(111_111_111, 1023, 0, 0, 3600, 511);
    let msg = decode(&format!("!AIVDM,1,1,,B,{payload},0")).unwrap();
    let AisMessage::PositionReport(p) = msg else {
        panic!()
    };
    assert!(knots(p.sog_tenths) < 0.0);
    assert!(knots(p.cog_tenths) < 0.0);
    assert_eq!(p.heading_deg, None);
}

#[test]
fn class_b_type18() {
    let mmsi = 338_000_000u32;
    let lon_raw = (-80.123f32 * 600_000.0) as i32;
    let lat_raw = (26.5f32 * 600_000.0) as i32;
    let payload = encode_payload(&[
        (18, 6),
        (0, 2),
        (mmsi, 30),
        (0, 8),
        (250, 10),
        (0, 1),
        (lon_raw as u32, 28),
        (lat_raw as u32, 27),
        (1200, 12),
        (0, 9),
        (0, 6),
    ]);
    let msg = decode(&format!("!AIVDM,1,1,,A,{payload},0")).unwrap();
    let AisMessage::PositionReport(p) = msg else {
        panic!()
    };
    assert_eq!(p.msg_type, 18);
    assert!(p.class_b);
    assert_eq!(p.nav_status, NavStatus::Other);
    assert!((knots(p.sog_tenths) - 25.0).abs() < 1e-4);
    assert!((knots(p.cog_tenths) - 120.0).abs() < 1e-3);
    assert!((degrees(p.longitude_raw).unwrap() - (-80.123)).abs() < 1e-4);
    assert!((degrees(p.latitude_raw).unwrap() - 26.5).abs() < 1e-4);
}

#[test]
fn rejects_non_ais_sentence() {
    assert!(matches!(decode("$GPGGA,123"), Err(AisError::NotAisSentence)));
}

#[test]
fn rejects_multipart() {
    assert!(matches!(
        decode("!AIVDM,2,1,3,B,ABC,0*00"),
        Err(AisError::MultipartNotSupported { total: 2 })
    ));
}

#[test]
fn truncated_payload_reports_truncated() {
    let payload = encode_payload(&[(1, 6)]);
    let got = decode(&format!("!AIVDM,1,1,,B,{payload},0"));
    assert!(matches!(got, Err(AisError::Truncated { msg_type: 1, .. })));
}

#[test]
fn missing_fields_and_bad_count_errors() {
    match decode("!AIVDM,1,1,,B") {
        Err(AisError::InvalidPayload(m)) => assert_eq!(m, "missing fields"),
        other => panic!("unexpected {other:?}"),
    }
    match decode("!AIVDM,x,1,,B,15M,0") {
        Err(AisError::InvalidPayload(m)) => assert_eq!(m, "bad fragment count"),
        other => panic!("unexpected {other:?}"),
    }
    match decode("!AIVDO,1,1,,B,,0") {
        Err(AisError::InvalidPayload(m)) => assert_eq!(m, "empty payload"),
        other => panic!("unexpected {other:?}"),
    }
}

#[test]
fn invalid_payload_characters_are_named() {
    match decode_6bit("1X") {
        Err(AisError::InvalidPayload(m)) => assert_eq!(m, "invalid 6-bit char: X"),
        other => panic!("unexpected {other:?}"),
    }
    match decode_6bit("1é") {
        Err(AisError::InvalidPayload(m)) => assert_eq!(m, "non-ascii char: é"),
        other => panic!("unexpected {other:?}"),
    }
}

#[test]
fn whitespace_around_sentence_is_trimmed() {
    let payload = mk_type1(7, 0, 0, 0, 0, 0);
    let msg = decode(&format!("  \t!AIVDM,+1,1,,B,{payload},0\r\n")).unwrap();
    assert_eq!(msg.mmsi(), 7);
}

#[test]
fn static_voyage_type5_decodes_names() {
    // "AB" call sign then '@' terminator; ship name "X Y" padded with spaces.
    let mut fields: Vec<(u32, u32)> = vec![(5, 6), (0, 2), (244_000_123, 30), (0, 2), (9_074_729, 30)];
    let call = [1u32, 2, 0, 0, 0, 0, 0];
    for c in call {
        fields.push((c, 6));
    }
    let name = [24u32, 32, 25, 32, 32, 32, 32, 32, 32, 32, 32, 32, 32, 32, 32, 32, 32, 32, 32, 32];
    for c in name {
        fields.push((c, 6));
    }
    fields.push((70, 8)); // ship type
    fields.push((100, 9)); // dim_b
    fields.push((20, 9)); // dim_a
    fields.push((5, 6)); // dim_c
    fields.push((0, 1)); // dim_d is read from bit 265
    fields.push((6, 6)); // dim_d
    fields.push((0, 30)); // rest of the message
    let payload = encode_payload(&fields);
    let msg = decode(&format!("!AIVDM,1,1,,A,{payload},2")).unwrap();
    let AisMessage::StaticVoyage(d) = msg else {
        panic!()
    };
    assert_eq!(d.mmsi, 244_000_123);
    assert_eq!(d.imo, 9_074_729);
    assert_eq!(d.callsign, "AB");
    assert_eq!(d.ship_name, "X Y");
    assert_eq!(d.ship_type, 70);
    assert_eq!((d.dim_b, d.dim_a, d.dim_c, d.dim_d), (100, 20, 5, 6));
}

#[test]
fn other_message_types_are_kept() {
    let payload = encode_payload(&[(4, 6), (0, 30)]);
    let msg = decode(&format!("!AIVDM,1,1,,A,{payload},0")).unwrap();
    assert_eq!(msg, AisMessage::Other { msg_type: 4 });
    assert_eq!(msg.mmsi(), 0);
    assert_eq!(msg.position_raw(), None);
}

#[test]
fn nav_status_codes_round_trip() {
    for b in 0..16u32 {
        let s = NavStatus::from_bits(b);
        if b <= 8 {
            assert_eq!(s.to_bits(), b);
        } else {
            assert_eq!(s, NavStatus::Other);
        }
    }
}

#[test]
fn error_messages() {
    assert_eq!(AisError::NotAisSentence.message(), "not an AIVDM/AIVDO sentence");
    assert_eq!(
        AisError::MultipartNotSupported { total: 2 }.message(),
        "multipart AIS message (fragments=2) not supported"
    );
    assert_eq!(AisError::InvalidPayload("x".into()).message(), "invalid AIS payload: x");
    assert_eq!(
        AisError::Truncated { msg_type: 5, have_bits: 168 }.message(),
        "AIS type 5 truncated: have 168 bits"
    );
}

#[test]
fn message_accessors() {
    let lon_raw = 6_000_000;
    let lat_raw = 12_000_000;
    let payload = mk_type1(366_999_000, 123, lon_raw, lat_raw, 456, 90);
    let msg = decode(&format!("!AIVDM,1,1,,B,{payload},0")).unwrap();
    assert_eq!(msg.mmsi(), 366_999_000);
    assert_eq!(msg.position_raw(), Some((lon_raw, lat_raw)));
    assert_eq!(msg.motion_raw(), Some((Some(123), Some(456))));
}
