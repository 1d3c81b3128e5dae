use omni::message::error::{
    EncodeError, ErrorCategory, OmniError, OmniErrorCode, RESERVED_OMNI_ERROR_CODE,
};
use omni::message::fields::Fields;
use omni::message::DecodeError;

fn fields_of(pairs: &[(&str, &str)]) -> Fields {
    let mut fields = Fields::new();
    for (k, v) in pairs {
        fields.insert(k.to_string(), v.to_string());
    }
    fields
}

fn entries(fields: &Fields) -> Vec<(String, String)> {
    (0..fields.len()).map(|i| (fields.key(i).clone(), fields.value(i).clone())).collect()
}

fn assert_round_trip(e: &OmniError) {
    let bytes = e.to_bytes().unwrap();
    let back = OmniError::from_bytes(&bytes).unwrap();
    assert_eq!(back.code, e.code);
    assert_eq!(back.message, e.message);
    assert_eq!(entries(&back.fields), entries(&e.fields));
}

#[test]
fn code_table_matches_the_registry() {
    let table = [
        (0u32, OmniErrorCode::Unknown),
        (1, OmniErrorCode::MessageTooLong),
        (1000, OmniErrorCode::InvalidMethodName),
        (1001, OmniErrorCode::InvalidFromIdentity),
        (1002, OmniErrorCode::CouldNotVerifySignature),
        (1003, OmniErrorCode::UnknownDestination),
        (1004, OmniErrorCode::EmptyEnvelope),
        (2000, OmniErrorCode::InternalServerError),
    ];
    for (number, code) in table {
        assert_eq!(OmniErrorCode::from_u32(number), code);
        assert_eq!(OmniErrorCode::from(number), code);
        assert_eq!(code.value(), number);
        assert_eq!(u32::from(code), number);
        assert!(!code.is_application_specific());
        assert!(code.message().is_some());
        assert_eq!(OmniErrorCode::message_of(number), code.message());
    }
}

#[test]
fn unassigned_numbers_are_unknown() {
    for number in [2u32, 5, 999, 1005, 1999, 2001, 2999, 3000, 9999] {
        assert_eq!(OmniErrorCode::from_u32(number), OmniErrorCode::Unknown);
        assert_eq!(OmniErrorCode::message_of(number), Some("Unknown error."));
    }
}

#[test]
fn application_codes_start_at_ten_thousand() {
    assert_eq!(RESERVED_OMNI_ERROR_CODE, 10000);
    for number in [10000u32, 10001, 65536, u32::MAX] {
        let code = OmniErrorCode::from_u32(number);
        assert_eq!(code, OmniErrorCode::ApplicationSpecific(number));
        assert!(code.is_application_specific());
        assert_eq!(code.value(), number);
        assert_eq!(code.message(), None);
        assert_eq!(OmniErrorCode::message_of(number), None);
    }
    assert!(!OmniErrorCode::ApplicationSpecific(9999).is_application_specific());
    assert!(!OmniErrorCode::ApplicationSpecific(0).is_application_specific());
    let e = OmniError {
        code: OmniErrorCode::ApplicationSpecific(12345),
        message: Some("x".to_string()),
        fields: Fields::new(),
    };
    assert!(e.is_application_specific());
    assert!(!OmniError::unknown().is_application_specific());
}

#[test]
fn codes_lie_in_their_ranges() {
    assert_eq!(OmniErrorCode::Unknown.category(), ErrorCategory::Transport);
    assert_eq!(OmniErrorCode::MessageTooLong.category(), ErrorCategory::Transport);
    assert_eq!(OmniErrorCode::InvalidMethodName.category(), ErrorCategory::Request);
    assert_eq!(OmniErrorCode::InvalidFromIdentity.category(), ErrorCategory::Request);
    assert_eq!(OmniErrorCode::CouldNotVerifySignature.category(), ErrorCategory::Request);
    assert_eq!(OmniErrorCode::UnknownDestination.category(), ErrorCategory::Request);
    assert_eq!(OmniErrorCode::EmptyEnvelope.category(), ErrorCategory::Request);
    assert_eq!(OmniErrorCode::InternalServerError.category(), ErrorCategory::Server);
    assert_eq!(
        OmniErrorCode::ApplicationSpecific(10000).category(),
        ErrorCategory::ApplicationSpecific
    );
    assert_eq!(OmniErrorCode::ApplicationSpecific(999).category(), ErrorCategory::Transport);
    assert_eq!(OmniErrorCode::ApplicationSpecific(1999).category(), ErrorCategory::Request);
    assert_eq!(OmniErrorCode::ApplicationSpecific(2999).category(), ErrorCategory::Server);
    assert_eq!(OmniErrorCode::ApplicationSpecific(3000).category(), ErrorCategory::Unassigned);
    assert_eq!(OmniErrorCode::ApplicationSpecific(9999).category(), ErrorCategory::Unassigned);
    assert_eq!(OmniErrorCode::default(), OmniErrorCode::Unknown);
}

#[test]
fn error_without_message_and_fields_round_trips() {
    let e = OmniError::internal_server_error();
    assert_eq!(e.to_bytes().unwrap(), vec![0x81, 0x19, 0x07, 0xd0]);
    assert_round_trip(&e);
}

#[test]
fn error_with_message_round_trips() {
    let e = OmniError {
        code: OmniErrorCode::ApplicationSpecific(10000),
        message: Some("Hi".to_string()),
        fields: Fields::new(),
    };
    assert_eq!(e.to_bytes().unwrap(), vec![0x82, 0x19, 0x27, 0x10, 0x62, b'H', b'i']);
    assert_round_trip(&e);
}

#[test]
fn error_with_fields_round_trips() {
    let e = OmniError::unknown_destination("AA".to_string(), "BB".to_string());
    assert_eq!(
        e.to_bytes().unwrap(),
        vec![
            0x82, 0x19, 0x03, 0xeb, 0xa2, 0x64, b't', b'h', b'i', b's', 0x62, b'B', b'B', 0x62,
            b't', b'o', 0x62, b'A', b'A'
        ]
    );
    assert_round_trip(&e);
    assert_round_trip(&OmniError::message_too_long("12".to_string()));
}

#[test]
fn error_with_message_and_fields_round_trips() {
    let e = OmniError {
        code: OmniErrorCode::ApplicationSpecific(70000),
        message: Some("Balance of {account} is too low: {balance}.".to_string()),
        fields: fields_of(&[("balance", "12"), ("account", "é")]),
    };
    let bytes = e.to_bytes().unwrap();
    assert_eq!(&bytes[..6], &[0x83, 0x1a, 0x00, 0x01, 0x11, 0x70]);
    assert_round_trip(&e);
    assert_eq!(
        OmniError::from_bytes(&bytes).unwrap().to_string(),
        "Balance of é is too low: 12."
    );
}

#[test]
fn bytes_are_those_of_the_cbor_encoder() {
    let e = OmniError {
        code: OmniErrorCode::ApplicationSpecific(4_000_000_000),
        message: Some("a message that is longer than twenty-three bytes".to_string()),
        fields: fields_of(&[("k", "v"), ("a", "b")]),
    };
    let mut expected = Vec::new();
    let mut encoder = minicbor::Encoder::new(&mut expected);
    encoder
        .array(3)
        .unwrap()
        .u32(4_000_000_000)
        .unwrap()
        .str("a message that is longer than twenty-three bytes")
        .unwrap()
        .map(2)
        .unwrap()
        .str("a")
        .unwrap()
        .str("b")
        .unwrap()
        .str("k")
        .unwrap()
        .str("v")
        .unwrap();
    assert_eq!(e.to_bytes().unwrap(), expected);
}

#[test]
fn application_code_needs_a_message() {
    let e = OmniError {
        code: OmniErrorCode::ApplicationSpecific(10000),
        message: None,
        fields: Fields::new(),
    };
    assert_eq!(e.to_bytes().unwrap_err(), EncodeError::MissingMessage);
}

#[test]
fn message_of_a_registered_code_is_not_written() {
    let e = OmniError {
        code: OmniErrorCode::Unknown,
        message: Some("not on the wire".to_string()),
        fields: Fields::new(),
    };
    assert_eq!(e.to_bytes().unwrap(), vec![0x81, 0x00]);
}

#[test]
fn malformed_errors_are_refused() {
    // Nothing at all, no array, no code, a code beyond 32 bits.
    assert_eq!(OmniError::from_bytes(&[]).unwrap_err(), DecodeError::Malformed);
    assert_eq!(OmniError::from_bytes(&[0x00]).unwrap_err(), DecodeError::Malformed);
    assert_eq!(OmniError::from_bytes(&[0x81]).unwrap_err(), DecodeError::Malformed);
    assert_eq!(OmniError::from_bytes(&[0x81, 0x61, b'a']).unwrap_err(), DecodeError::Malformed);
    assert_eq!(
        OmniError::from_bytes(&[0x81, 0x1b, 0, 0, 0, 1, 0, 0, 0, 0]).unwrap_err(),
        DecodeError::Malformed
    );
    // An application's code without message, a truncated message, a message
    // that is no UTF-8.
    assert_eq!(
        OmniError::from_bytes(&[0x81, 0x19, 0x27, 0x10]).unwrap_err(),
        DecodeError::Malformed
    );
    assert_eq!(
        OmniError::from_bytes(&[0x82, 0x19, 0x27, 0x10, 0x62, b'H']).unwrap_err(),
        DecodeError::Malformed
    );
    assert_eq!(
        OmniError::from_bytes(&[0x82, 0x19, 0x27, 0x10, 0x61, 0xff]).unwrap_err(),
        DecodeError::Malformed
    );
    // A map that ends too early, and one with a value that is no text.
    assert_eq!(
        OmniError::from_bytes(&[0x82, 0x00, 0xa1, 0x61, b'a']).unwrap_err(),
        DecodeError::Malformed
    );
    assert_eq!(
        OmniError::from_bytes(&[0x82, 0x00, 0xa1, 0x61, b'a', 0x01]).unwrap_err(),
        DecodeError::Malformed
    );
}

#[test]
fn lenient_reading_of_errors() {
    // A code in a longer form than needed, an array of indefinite length, an
    // announced length that is not kept, and bytes behind the error.
    let e = OmniError::from_bytes(&[0x9f, 0x19, 0x00, 0x01, 0xff]).unwrap();
    assert_eq!(e.code, OmniErrorCode::MessageTooLong);
    let e = OmniError::from_bytes(&[0x85, 0x18, 0x00, 0x00]).unwrap();
    assert_eq!(e.code, OmniErrorCode::Unknown);
    assert!(e.message.is_none());
    assert!(e.fields.is_empty());
    // A number that is assigned to nothing is read as the unknown error.
    let e = OmniError::from_bytes(&[0x81, 0x19, 0x0b, 0xb8]).unwrap();
    assert_eq!(e.code, OmniErrorCode::Unknown);
    // A later entry replaces an earlier one of the same name, and the
    // entries come out in the order of their names.
    let e = OmniError::from_bytes(&[
        0x82, 0x00, 0xa3, 0x61, b'b', 0x61, b'1', 0x61, b'a', 0x61, b'2', 0x61, b'b', 0x61, b'3',
    ])
    .unwrap();
    assert_eq!(
        entries(&e.fields),
        vec![("a".to_string(), "2".to_string()), ("b".to_string(), "3".to_string())]
    );
    // A map of indefinite length is not read as fields.
    let e = OmniError::from_bytes(&[0x82, 0x00, 0xbf, 0xff]).unwrap();
    assert!(e.fields.is_empty());
}

#[test]
fn fields_keep_the_order_of_their_names() {
    let mut fields = Fields::new();
    assert!(fields.is_empty());
    for (k, v) in [("m", "1"), ("z", "2"), ("a", "3"), ("mm", "4"), ("", "5"), ("é", "6")] {
        fields.insert(k.to_string(), v.to_string());
    }
    fields.insert("z".to_string(), "7".to_string());
    let names: Vec<String> = (0..fields.len()).map(|i| fields.key(i).clone()).collect();
    assert_eq!(names, vec!["", "a", "m", "mm", "z", "é"]);
    assert_eq!(fields.len(), 6);
    assert_eq!(fields.get("z"), Some(&"7".to_string()));
    assert_eq!(fields.get("mm"), Some(&"4".to_string()));
    assert_eq!(fields.get(""), Some(&"5".to_string()));
    assert_eq!(fields.get("q"), None);
    // The order is that of a sorted map of strings.
    let mut expected = std::collections::BTreeMap::new();
    for k in ["m", "z", "a", "mm", "", "é"] {
        expected.insert(k.to_string(), ());
    }
    assert_eq!(names, expected.keys().cloned().collect::<Vec<String>>());
}
