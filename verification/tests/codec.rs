use copresence::wire::{decode_packet, encode_packet, ExtraValue, Packet};

fn sample(extra: Vec<(Vec<u8>, ExtraValue)>) -> Packet {
    Packet {
        id: b"3c9d2a50-8f1e-4a4b-9d7a-2f6c1b0e5a11".to_vec(),
        color: b"hsl(210, 70%, 70%)".to_vec(),
        x_per_myria: 5000,
        y_per_myria: 250,
        extra,
    }
}

fn assert_same(a: &Packet, b: &Packet) {
    assert_eq!(a.id, b.id);
    assert_eq!(a.color, b.color);
    assert_eq!(a.x_per_myria, b.x_per_myria);
    assert_eq!(a.y_per_myria, b.y_per_myria);
    assert_eq!(a.extra.len(), b.extra.len());
    for (ka, kb) in a.extra.iter().zip(b.extra.iter()) {
        assert_eq!(ka.0, kb.0);
        match (&ka.1, &kb.1) {
            (ExtraValue::Null, ExtraValue::Null) => {}
            (ExtraValue::Bool(x), ExtraValue::Bool(y)) => assert_eq!(x, y),
            (ExtraValue::Text(x), ExtraValue::Text(y)) => assert_eq!(x, y),
            _ => panic!("variant mismatch"),
        }
    }
}

#[test]
fn round_trip_plain() {
    let p = sample(vec![]);
    let bytes = encode_packet(&p);
    let q = decode_packet(&bytes).expect("an encoded report must decode");
    assert_same(&p, &q);
}

#[test]
fn round_trip_with_extra_fields() {
    let p = sample(vec![
        (b"pressure".to_vec(), ExtraValue::Text(b"0.75".to_vec())),
        (b"drawing".to_vec(), ExtraValue::Bool(true)),
        (b"idle".to_vec(), ExtraValue::Bool(false)),
        (b"tool".to_vec(), ExtraValue::Null),
    ]);
    let bytes = encode_packet(&p);
    let q = decode_packet(&bytes).expect("an encoded report must decode");
    assert_same(&p, &q);
}

#[test]
fn round_trip_empty_id_and_color() {
    // a client sends an empty id; the relay fills it in later
    let p = Packet {
        id: Vec::new(),
        color: Vec::new(),
        x_per_myria: 0,
        y_per_myria: 99_999,
        extra: vec![(Vec::new(), ExtraValue::Text(Vec::new()))],
    };
    let bytes = encode_packet(&p);
    let q = decode_packet(&bytes).expect("an encoded report must decode");
    assert_same(&p, &q);
}

#[test]
fn wire_form_is_readable_json_shape() {
    let p = sample(vec![(b"k".to_vec(), ExtraValue::Null)]);
    let text = String::from_utf8(encode_packet(&p)).unwrap();
    assert_eq!(
        text,
        "{\"id\":\"3c9d2a50-8f1e-4a4b-9d7a-2f6c1b0e5a11\",\"color\":\"hsl(210, 70%, 70%)\",\"x\":05000,\"y\":00250,\"k\":null}"
    );
}

#[test]
fn malformed_payloads_are_rejected() {
    // empty, truncated, wrong key, bad digit, unescapable byte, garbage tail
    assert!(decode_packet(&Vec::new()).is_none());
    assert!(decode_packet(&b"{".to_vec()).is_none());
    assert!(decode_packet(&b"{\"id\":\"a\",\"color\":\"b\",\"x\":00001,\"y\":0000".to_vec()).is_none());
    assert!(decode_packet(&b"{\"di\":\"a\",\"color\":\"b\",\"x\":00001,\"y\":00002}".to_vec()).is_none());
    assert!(decode_packet(&b"{\"id\":\"a\",\"color\":\"b\",\"x\":0000x,\"y\":00002}".to_vec()).is_none());
    assert!(decode_packet(&b"{\"id\":\"a\\b\",\"color\":\"c\",\"x\":00001,\"y\":00002}".to_vec()).is_none());
    assert!(decode_packet(&b"{\"id\":\"a\",\"color\":\"b\",\"x\":00001,\"y\":00002}junk".to_vec()).is_none());
    assert!(decode_packet(&b"{\"id\":\"a\",\"color\":\"b\",\"x\":00001,\"y\":00002,\"k\":nul}".to_vec()).is_none());
}

#[test]
fn decoding_recovers_exact_field_values() {
    let bytes = b"{\"id\":\"p1\",\"color\":\"red\",\"x\":01234,\"y\":09999,\"note\":\"hi\"}".to_vec();
    let q = decode_packet(&bytes).expect("well-formed text must decode");
    assert_eq!(q.id, b"p1".to_vec());
    assert_eq!(q.color, b"red".to_vec());
    assert_eq!(q.x_per_myria, 1234);
    assert_eq!(q.y_per_myria, 9999);
    assert_eq!(q.extra.len(), 1);
    assert_eq!(q.extra[0].0, b"note".to_vec());
    match &q.extra[0].1 {
        ExtraValue::Text(t) => assert_eq!(t, &b"hi".to_vec()),
        _ => panic!("expected a text value"),
    }
}
