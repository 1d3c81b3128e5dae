use omni::message::attributes::{put_attributes, read_attributes, Attribute};
use omni::message::DecodeError;
use omni::{Identity, RequestMessage, ResponseMessage};

fn alice() -> Identity {
    Identity::from_public_key(&[0xaa; 32]).unwrap()
}

fn bob() -> Identity {
    Identity::from_public_key_hash(b"bob")
}

fn full_request() -> RequestMessage {
    RequestMessage {
        from: Some(alice()),
        to: bob(),
        method: "account.send".to_string(),
        data: vec![0xde, 0xad, 0xbe, 0xef],
        timestamp: Some(0x0001_0000_0000),
        nonce: Some(vec![1, 2, 3, 4, 5, 6, 7, 8]),
        attributes: vec![
            Attribute { id: 7, value: vec![] },
            Attribute { id: 4_000_000_000, value: vec![1; 30] },
        ],
    }
}

fn same_attributes(a: &[Attribute], b: &[Attribute]) -> bool {
    a.len() == b.len() && a.iter().zip(b).all(|(x, y)| x.id == y.id && x.value == y.value)
}

fn same_request(a: &RequestMessage, b: &RequestMessage) -> bool {
    a.from == b.from
        && a.to == b.to
        && a.method == b.method
        && a.data == b.data
        && a.timestamp == b.timestamp
        && a.nonce == b.nonce
        && same_attributes(&a.attributes, &b.attributes)
}

fn same_response(a: &ResponseMessage, b: &ResponseMessage) -> bool {
    a.from == b.from
        && a.to == b.to
        && a.data == b.data
        && a.timestamp == b.timestamp
        && same_attributes(&a.attributes, &b.attributes)
}

#[test]
fn requests_round_trip() {
    let plain = RequestMessage {
        from: None,
        to: Identity::anonymous(),
        method: String::new(),
        data: vec![],
        timestamp: None,
        nonce: None,
        attributes: vec![],
    };
    let long = RequestMessage {
        from: Some(bob()),
        to: alice(),
        method: "é".repeat(200),
        data: vec![7; 70_000],
        timestamp: Some(u64::MAX),
        nonce: Some(vec![]),
        attributes: (0..30).map(|i| Attribute { id: i * 1000, value: vec![i as u8; i as usize] }).collect(),
    };
    for m in [plain, full_request(), long] {
        let bytes = m.to_bytes();
        let back = RequestMessage::from_bytes(&bytes).unwrap();
        assert!(same_request(&back, &m));
        assert_eq!(back.to_bytes(), bytes);
    }
}

#[test]
fn responses_round_trip() {
    let plain = ResponseMessage {
        from: Identity::anonymous(),
        to: None,
        data: vec![],
        timestamp: None,
        attributes: vec![],
    };
    let full = ResponseMessage {
        from: bob(),
        to: Some(alice()),
        data: vec![9; 300],
        timestamp: Some(1_650_000_000),
        attributes: vec![Attribute { id: 1, value: vec![0xff] }],
    };
    for m in [plain, full] {
        let bytes = m.to_bytes();
        let back = ResponseMessage::from_bytes(&bytes).unwrap();
        assert!(same_response(&back, &m));
        assert_eq!(back.to_bytes(), bytes);
    }
}

#[test]
fn request_in_bytes() {
    let m = RequestMessage {
        from: None,
        to: Identity::anonymous(),
        method: "ab".to_string(),
        data: vec![5],
        timestamp: Some(24),
        nonce: None,
        attributes: vec![Attribute { id: 2, value: vec![6] }],
    };
    assert_eq!(
        m.to_bytes(),
        vec![
            0x87, 0x80, 0x41, 0x00, 0x62, b'a', b'b', 0x41, 0x05, 0x81, 0x18, 0x18, 0x80, 0xa1,
            0x02, 0x41, 0x06
        ]
    );
    let named = RequestMessage { from: Some(Identity::from_public_key(&[3]).unwrap()), ..m };
    assert_eq!(&named.to_bytes()[..5], &[0x87, 0x81, 0x42, 0x01, 0x03]);
}

#[test]
fn response_in_bytes() {
    let m = ResponseMessage {
        from: Identity::from_public_key(&[3]).unwrap(),
        to: Some(Identity::anonymous()),
        data: vec![],
        timestamp: None,
        attributes: vec![],
    };
    assert_eq!(m.to_bytes(), vec![0x85, 0x42, 0x01, 0x03, 0x81, 0x41, 0x00, 0x40, 0x80, 0xa0]);
}

#[test]
fn request_bytes_are_those_of_the_cbor_encoder() {
    let m = full_request();
    let mut expected = Vec::new();
    let mut e = minicbor::Encoder::new(&mut expected);
    e.array(7).unwrap();
    e.array(1).unwrap().bytes(&alice().to_vec()).unwrap();
    e.bytes(&bob().to_vec()).unwrap();
    e.str("account.send").unwrap();
    e.bytes(&[0xde, 0xad, 0xbe, 0xef]).unwrap();
    e.array(1).unwrap().u64(0x0001_0000_0000).unwrap();
    e.array(1).unwrap().bytes(&[1, 2, 3, 4, 5, 6, 7, 8]).unwrap();
    e.map(2).unwrap();
    e.u32(7).unwrap().bytes(&[]).unwrap();
    e.u32(4_000_000_000).unwrap().bytes(&[1; 30]).unwrap();
    assert_eq!(m.to_bytes(), expected);
}

#[test]
fn truncated_messages_are_malformed() {
    let bytes = full_request().to_bytes();
    for cut in 0..bytes.len() {
        assert_eq!(RequestMessage::from_bytes(&bytes[..cut]).unwrap_err(), DecodeError::Malformed);
    }
    let mut longer = bytes.clone();
    longer.push(0x00);
    assert_eq!(RequestMessage::from_bytes(&longer).unwrap_err(), DecodeError::Malformed);

    let bytes = ResponseMessage {
        from: bob(),
        to: Some(alice()),
        data: vec![1, 2],
        timestamp: Some(3),
        attributes: vec![Attribute { id: 1, value: vec![2] }],
    }
    .to_bytes();
    for cut in 0..bytes.len() {
        assert_eq!(ResponseMessage::from_bytes(&bytes[..cut]).unwrap_err(), DecodeError::Malformed);
    }
    let mut longer = bytes.clone();
    longer.push(0x00);
    assert_eq!(ResponseMessage::from_bytes(&longer).unwrap_err(), DecodeError::Malformed);
}

#[test]
fn ill_typed_messages_are_malformed() {
    let good = vec![0x87, 0x80, 0x41, 0x00, 0x60, 0x40, 0x80, 0x80, 0xa0];
    assert!(RequestMessage::from_bytes(&good).is_ok());
    let cases: Vec<Vec<u8>> = vec![
        // Six items announced, an array of indefinite length, a map in
        // place of the array.
        vec![0x86, 0x80, 0x41, 0x00, 0x60, 0x40, 0x80, 0x80, 0xa0],
        vec![0x9f, 0x80, 0x41, 0x00, 0x60, 0x40, 0x80, 0x80, 0xa0],
        vec![0xa7, 0x80, 0x41, 0x00, 0x60, 0x40, 0x80, 0x80, 0xa0],
        // A sender that is not optional, two senders.
        vec![0x87, 0x41, 0x00, 0x41, 0x00, 0x60, 0x40, 0x80, 0x80, 0xa0],
        vec![0x87, 0x82, 0x41, 0x00, 0x41, 0x00, 0x41, 0x00, 0x60, 0x40, 0x80, 0x80, 0xa0],
        // A recipient that is text, a method that is bytes, a method that
        // is no UTF-8, data that is a number.
        vec![0x87, 0x80, 0x61, 0x00, 0x60, 0x40, 0x80, 0x80, 0xa0],
        vec![0x87, 0x80, 0x41, 0x00, 0x40, 0x40, 0x80, 0x80, 0xa0],
        vec![0x87, 0x80, 0x41, 0x00, 0x61, 0xc3, 0x40, 0x80, 0x80, 0xa0],
        vec![0x87, 0x80, 0x41, 0x00, 0x60, 0x00, 0x80, 0x80, 0xa0],
        // A time that is negative, a nonce that is text, attributes that
        // are an array, attributes of indefinite length.
        vec![0x87, 0x80, 0x41, 0x00, 0x60, 0x40, 0x81, 0x20, 0x80, 0xa0],
        vec![0x87, 0x80, 0x41, 0x00, 0x60, 0x40, 0x80, 0x81, 0x60, 0xa0],
        vec![0x87, 0x80, 0x41, 0x00, 0x60, 0x40, 0x80, 0x80, 0x80],
        vec![0x87, 0x80, 0x41, 0x00, 0x60, 0x40, 0x80, 0x80, 0xbf, 0xff],
    ];
    for bytes in cases {
        assert_eq!(RequestMessage::from_bytes(&bytes).unwrap_err(), DecodeError::Malformed);
    }
    let good = vec![0x85, 0x41, 0x00, 0x80, 0x40, 0x80, 0xa0];
    assert!(ResponseMessage::from_bytes(&good).is_ok());
    for bytes in [
        vec![0x84, 0x41, 0x00, 0x80, 0x40, 0x80, 0xa0],
        vec![0x85, 0x80, 0x80, 0x40, 0x80, 0xa0],
        vec![0x85, 0x41, 0x00, 0x40, 0x40, 0x80, 0xa0],
        vec![0x85, 0x41, 0x00, 0x80, 0x60, 0x80, 0xa0],
        vec![0x85, 0x41, 0x00, 0x80, 0x40, 0x81, 0x40, 0xa0],
        vec![0x85, 0x41, 0x00, 0x80, 0x40, 0x80, 0xa1, 0x00],
    ] {
        assert_eq!(ResponseMessage::from_bytes(&bytes).unwrap_err(), DecodeError::Malformed);
    }
}

#[test]
fn identities_of_a_message_must_be_identities() {
    // A well-built request whose recipient has an unknown tag, and one whose
    // sender is an address that is too short.
    assert_eq!(
        RequestMessage::from_bytes(&[0x87, 0x80, 0x41, 0x09, 0x60, 0x40, 0x80, 0x80, 0xa0])
            .unwrap_err(),
        DecodeError::InvalidIdentity
    );
    assert_eq!(
        RequestMessage::from_bytes(&[
            0x87, 0x81, 0x42, 0x02, 0x01, 0x41, 0x00, 0x60, 0x40, 0x80, 0x80, 0xa0
        ])
        .unwrap_err(),
        DecodeError::InvalidIdentity
    );
    assert_eq!(
        ResponseMessage::from_bytes(&[0x85, 0x40, 0x80, 0x40, 0x80, 0xa0]).unwrap_err(),
        DecodeError::InvalidIdentity
    );
    assert_eq!(
        ResponseMessage::from_bytes(&[0x85, 0x41, 0x00, 0x81, 0x41, 0x01, 0x40, 0x80, 0xa0])
            .unwrap_err(),
        DecodeError::InvalidIdentity
    );
    // What is malformed is told first.
    assert_eq!(
        RequestMessage::from_bytes(&[0x87, 0x80, 0x41, 0x09, 0x60, 0x40, 0x80, 0x80]).unwrap_err(),
        DecodeError::Malformed
    );
}

#[test]
fn unknown_attributes_are_carried() {
    let attributes = vec![
        Attribute { id: u32::MAX, value: vec![1, 2, 3] },
        Attribute { id: 0, value: vec![] },
        Attribute { id: 0, value: vec![9] },
    ];
    let mut bytes = vec![0x55];
    put_attributes(&mut bytes, &attributes);
    assert_eq!(
        bytes,
        vec![0x55, 0xa3, 0x1a, 0xff, 0xff, 0xff, 0xff, 0x43, 1, 2, 3, 0x00, 0x40, 0x00, 0x41, 9]
    );
    let (back, next) = read_attributes(&bytes, 1).unwrap();
    assert_eq!(next, bytes.len());
    assert!(same_attributes(&back, &attributes));
    assert!(same_attributes(&back[..1], &[attributes[0].clone()]));

    assert!(read_attributes(&bytes, 0).is_none());
    assert!(read_attributes(&bytes, bytes.len()).is_none());
    assert!(read_attributes(&bytes[..bytes.len() - 1], 1).is_none());
    // A number beyond 32 bits, and a value that is text.
    assert!(read_attributes(&[0xa1, 0x1b, 0, 0, 0, 1, 0, 0, 0, 0, 0x40], 0).is_none());
    assert!(read_attributes(&[0xa1, 0x01, 0x60], 0).is_none());
    let (none, next) = read_attributes(&[0xa0, 0x01], 0).unwrap();
    assert!(none.is_empty());
    assert_eq!(next, 1);
}
