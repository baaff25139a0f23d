use error_details::Any;
use error_details::BadRequest;
use error_details::DecodeError;
use error_details::ErrorDetail;
use error_details::error_detail::Help;
use error_details::error_detail::HelpLink;
use error_details::error_detail::RetryInfo;
use error_details::wire::decode_bad_request;
use error_details::wire::encode_bad_request;

fn envelope(value: Vec<u8>) -> Any {
    Any {
        type_url: String::from("type.googleapis.com/google.rpc.BadRequest"),
        value,
    }
}

#[test]
fn encode_is_deterministic() {
    let mut a = BadRequest::empty();
    a.add_violation("field_a", "description_a");
    let mut b = BadRequest::empty();
    b.add_violation("field_a", "description_a");
    let bytes_a = encode_bad_request(&a);
    let bytes_b = encode_bad_request(&b);
    assert_eq!(bytes_a, bytes_b);
    assert_eq!(
        bytes_a,
        vec![
            10, 24, 10, 7, 102, 105, 101, 108, 100, 95, 97, 18, 13, 100, 101, 115, 99, 114, 105,
            112, 116, 105, 111, 110, 95, 97
        ]
    );
}

#[test]
fn decode_of_empty_buffer_is_empty_message() {
    let br = decode_bad_request(&Vec::new()).unwrap();
    assert!(!br.has_violations());
}

#[test]
fn decode_rejects_truncated_bytes() {
    let mut br = BadRequest::empty();
    br.add_violation("field_a", "description_a")
        .add_violation("field_b", "description_b");
    let any = br.into_any().unwrap();
    let mut bytes = any.value.clone();
    bytes.pop();
    assert!(matches!(
        BadRequest::from_any(envelope(bytes)),
        Err(DecodeError)
    ));

    // Cutting in the middle of a record fails as well.
    let short: Vec<u8> = any.value[..5].to_vec();
    assert!(matches!(
        BadRequest::from_any(envelope(short)),
        Err(DecodeError)
    ));
}

#[test]
fn decode_rejects_wrong_wire_type_for_known_field() {
    // Field number 1 with wire type 0 (varint) instead of the expected
    // length-delimited record.
    assert!(matches!(
        BadRequest::from_any(envelope(vec![0x08, 0x01])),
        Err(DecodeError)
    ));
    // Field number 1 with wire type 5 (32-bit).
    assert!(matches!(
        BadRequest::from_any(envelope(vec![0x0d, 0, 0, 0, 0])),
        Err(DecodeError)
    ));
}

#[test]
fn decode_rejects_invalid_wire_types() {
    // Wire types 3 and 4 (group markers) and 6/7 are invalid here.
    for tag in [0x13u8, 0x14, 0x16, 0x17] {
        assert!(matches!(
            BadRequest::from_any(envelope(vec![tag])),
            Err(DecodeError)
        ));
    }
}

#[test]
fn decode_rejects_field_number_zero() {
    assert!(matches!(
        BadRequest::from_any(envelope(vec![0x02, 0x00])),
        Err(DecodeError)
    ));
}

#[test]
fn decode_rejects_unterminated_varint() {
    assert!(matches!(
        BadRequest::from_any(envelope(vec![0x80])),
        Err(DecodeError)
    ));
}

#[test]
fn decode_rejects_oversized_length_varint() {
    // A record length of 2^64 - 1: far more bytes than the buffer holds.
    let mut bytes = vec![0x0a];
    bytes.extend_from_slice(&[0xff, 0xff, 0xff, 0xff, 0xff, 0xff, 0xff, 0xff, 0xff, 0x01]);
    assert!(matches!(
        BadRequest::from_any(envelope(bytes)),
        Err(DecodeError)
    ));
}

#[test]
fn decode_rejects_overlong_varint() {
    // Eleven continuation-marked bytes: longer than any accepted varint.
    let mut bytes = vec![0x0a];
    bytes.extend_from_slice(&[0x80; 10]);
    bytes.push(0x00);
    assert!(matches!(
        BadRequest::from_any(envelope(bytes)),
        Err(DecodeError)
    ));
}

#[test]
fn decode_rejects_invalid_utf8_in_string() {
    // One record whose `field` string holds bytes that are not UTF-8.
    let bytes = vec![0x0a, 0x04, 0x0a, 0x02, 0xff, 0xfe];
    assert!(matches!(
        BadRequest::from_any(envelope(bytes)),
        Err(DecodeError)
    ));
}

#[test]
fn decode_skips_unknown_fields() {
    // An unknown varint field (number 3) before a record, and an unknown
    // length-delimited field (number 3) inside the record's payload.
    let bytes = vec![
        0x18, 0x07, // field 3, varint, value 7: skipped
        0x0a, 0x07, // field 1, record of 7 payload bytes
        0x1a, 0x01, 0x41, // field 3, length-delimited, 1 byte: skipped
        0x0a, 0x02, 0x68, 0x69, // field 1, string "hi"
    ];
    let br = BadRequest::from_any(envelope(bytes)).unwrap();
    assert_eq!(br.field_violations.len(), 1);
    assert_eq!(br.field_violations[0].field, "hi");
    assert_eq!(br.field_violations[0].description, "");
}

#[test]
fn decode_lets_last_string_occurrence_win() {
    let bytes = vec![
        0x0a, 0x06, // one record, 6 payload bytes
        0x0a, 0x01, 0x61, // field = "a"
        0x0a, 0x01, 0x62, // field = "b" (repeated: last wins)
    ];
    let br = BadRequest::from_any(envelope(bytes)).unwrap();
    assert_eq!(br.field_violations.len(), 1);
    assert_eq!(br.field_violations[0].field, "b");
}

#[test]
fn union_injection_recovers_bad_request() {
    let mut br = BadRequest::empty();
    br.add_violation("field_a", "description_a");
    let detail = ErrorDetail::from(br);
    match detail {
        ErrorDetail::BadRequest(inner) => {
            assert_eq!(inner.field_violations.len(), 1);
            assert_eq!(inner.field_violations[0].field, "field_a");
            assert_eq!(inner.field_violations[0].description, "description_a");
        },
        other => panic!("expected the BadRequest variant, got {:?}", other),
    }
}

#[test]
fn union_injects_other_kinds() {
    let retry = RetryInfo { retry_delay_secs: 3, retry_delay_nanos: 500_000_000 };
    match ErrorDetail::from(retry) {
        ErrorDetail::RetryInfo(inner) => {
            assert_eq!(inner.retry_delay_secs, 3);
            assert_eq!(inner.retry_delay_nanos, 500_000_000);
        },
        other => panic!("expected the RetryInfo variant, got {:?}", other),
    }
    let help = Help {
        links: vec![HelpLink {
            description: String::from("quota docs"),
            url: String::from("https://example.com/quota"),
        }],
    };
    match ErrorDetail::from(help) {
        ErrorDetail::Help(inner) => {
            assert_eq!(inner.links.len(), 1);
            assert_eq!(inner.links[0].description, "quota docs");
        },
        other => panic!("expected the Help variant, got {:?}", other),
    }
}
