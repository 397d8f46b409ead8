use valhalla::codec::{fixed_value, read_fixed, read_str, str_value};
use valhalla::data::{Contour, Feature, Geometry, IsochroneInput, IsochroneOutput, Point, Summary};
use valhalla::facade::{encode_isochrone_output, finish_isochrone, DecodeError, FacadeError};
use valhalla::codec::CodecError;
use valhalla::wire::{decode_message, encode_message, WireError, WireField, WireValue};

#[test]
fn varint_field_bytes() {
    let fs = vec![WireField { tag: 1, value: WireValue::Varint(300) }];
    assert_eq!(encode_message(&fs), vec![0x08, 0xAC, 0x02]);
}

#[test]
fn bytes_field_bytes() {
    let fs = vec![WireField { tag: 2, value: WireValue::Bytes(b"hi".to_vec()) }];
    assert_eq!(encode_message(&fs), vec![0x12, 0x02, b'h', b'i']);
}

#[test]
fn largest_varint_round_trips() {
    let fs = vec![
        WireField { tag: 536_870_911, value: WireValue::Varint(u64::MAX) },
        WireField { tag: 3, value: WireValue::Bytes(vec![]) },
        WireField { tag: 1, value: WireValue::Varint(0) },
    ];
    let bytes = encode_message(&fs);
    assert_eq!(bytes.len(), 5 + 10 + 2 + 2);
    assert_eq!(decode_message(&bytes), Ok(fs));
}

#[test]
fn empty_message() {
    assert_eq!(encode_message(&vec![]), Vec::<u8>::new());
    assert_eq!(decode_message(&[]), Ok(vec![]));
}

#[test]
fn malformed_messages() {
    assert_eq!(decode_message(&[0x08]), Err(WireError::BadVarint));
    assert_eq!(decode_message(&[0x08, 0x80]), Err(WireError::BadVarint));
    assert_eq!(decode_message(&[0x00, 0x01]), Err(WireError::BadKey));
    assert_eq!(decode_message(&[0x0D, 0x01]), Err(WireError::BadKey));
    assert_eq!(decode_message(&[0x12, 0x05, 0x01]), Err(WireError::Truncated));
    let eleven = [0x08, 0xFF, 0xFF, 0xFF, 0xFF, 0xFF, 0xFF, 0xFF, 0xFF, 0xFF, 0xFF, 0x01];
    assert_eq!(decode_message(&eleven), Err(WireError::BadVarint));
    let too_big = [0x08, 0xFF, 0xFF, 0xFF, 0xFF, 0xFF, 0xFF, 0xFF, 0xFF, 0xFF, 0x02];
    assert_eq!(decode_message(&too_big), Err(WireError::BadVarint));
}

#[test]
fn zigzag_values() {
    assert_eq!(fixed_value(0), WireValue::Varint(0));
    assert_eq!(fixed_value(-1), WireValue::Varint(1));
    assert_eq!(fixed_value(1), WireValue::Varint(2));
    assert_eq!(fixed_value(i64::MIN), WireValue::Varint(u64::MAX));
    assert_eq!(read_fixed(&WireValue::Varint(u64::MAX)), Some(i64::MIN));
    assert_eq!(read_fixed(&fixed_value(-13_418_230)), Some(-13_418_230));
    assert_eq!(read_fixed(&WireValue::Bytes(vec![])), None);
}

#[test]
fn strings_as_utf8() {
    let v = str_value(&"Straße".to_string());
    assert_eq!(v, WireValue::Bytes("Straße".as_bytes().to_vec()));
    assert_eq!(read_str(&v), Some("Straße".to_string()));
    assert_eq!(read_str(&WireValue::Bytes(vec![0xFF])), None);
}

#[test]
fn summary_fields_round_trip() {
    let s = Summary { min_lat: -5, min_lon: 6, max_lat: 7, max_lon: 8, time: 9, length: 10 };
    let fs = s.to_wire_fields();
    assert_eq!(fs.len(), 6);
    assert_eq!(fs[0], WireField { tag: 1, value: WireValue::Varint(9) });
    assert_eq!(Summary::from_wire_fields(&fs), Ok(s));
}

#[test]
fn contour_optional_color() {
    let c = Contour { time: 15_000_000, color: None };
    assert_eq!(c.to_wire_fields().len(), 1);
    let back = Contour::from_wire_fields(&c.to_wire_fields()).unwrap();
    assert_eq!(back.time, 15_000_000);
    assert_eq!(back.color, None);
    let c = Contour { time: 1, color: Some("ff0000".to_string()) };
    let back = Contour::from_wire_fields(&c.to_wire_fields()).unwrap();
    assert_eq!(back.color, Some("ff0000".to_string()));
}

#[test]
fn decoder_rejects_unknown_and_missing_fields() {
    let unknown = vec![WireField { tag: 3, value: WireValue::Varint(0) }];
    assert_eq!(Point::from_wire_fields(&unknown), Err(CodecError::UnknownField(3)));
    let missing = vec![WireField { tag: 1, value: WireValue::Varint(0) }];
    assert_eq!(Point::from_wire_fields(&missing), Err(CodecError::MissingField(2)));
    let wrong = vec![
        WireField { tag: 1, value: WireValue::Bytes(vec![]) },
        WireField { tag: 2, value: WireValue::Varint(0) },
    ];
    assert_eq!(Point::from_wire_fields(&wrong), Err(CodecError::BadValue(1)));
}

#[test]
fn later_field_wins() {
    let fs = vec![
        WireField { tag: 1, value: WireValue::Varint(2) },
        WireField { tag: 2, value: WireValue::Varint(4) },
        WireField { tag: 1, value: WireValue::Varint(6) },
    ];
    assert_eq!(Point::from_wire_fields(&fs), Ok(Point { lon: 3, lat: 2 }));
}

fn ring() -> IsochroneOutput {
    IsochroneOutput {
        features: vec![
            Feature {
                geometry: Geometry {
                    coordinates: vec![Point { lon: 13_418_230, lat: 52_499_078 }, Point { lon: -1, lat: 2 }],
                },
            },
            Feature { geometry: Geometry { coordinates: vec![] } },
        ],
    }
}

fn two_contours() -> IsochroneInput {
    IsochroneInput {
        contours: vec![Contour { time: 10_000_000, color: None }, Contour { time: 20_000_000, color: None }],
        ..Default::default()
    }
}

#[test]
fn isochrone_feature_count_is_checked() {
    let bytes = encode_isochrone_output(&ring());
    let one = IsochroneInput { contours: vec![Contour { time: 10_000_000, color: None }], ..Default::default() };
    match finish_isochrone(&one, &bytes) {
        Err(FacadeError::Decode(DecodeError::ContourCount)) => {}
        other => panic!("unexpected {:?}", other),
    }
}

#[test]
fn isochrone_output_round_trip() {
    let out = ring();
    let bytes = encode_isochrone_output(&out);
    let back = finish_isochrone(&two_contours(), &bytes).unwrap();
    assert_eq!(back.features.len(), 2);
    assert_eq!(back.features[0].geometry.coordinates, out.features[0].geometry.coordinates);
    assert!(back.features[1].geometry.coordinates.is_empty());
}

#[test]
fn isochrone_reply_errors() {
    match finish_isochrone(&two_contours(), &[0x08]) {
        Err(FacadeError::Decode(DecodeError::Codec(CodecError::Wire(WireError::BadVarint)))) => {}
        other => panic!("unexpected {:?}", other),
    }
    match finish_isochrone(&two_contours(), &[0x10, 0x01]) {
        Err(FacadeError::Decode(DecodeError::Codec(CodecError::UnknownField(2)))) => {}
        other => panic!("unexpected {:?}", other),
    }
}
