//! Values as cleartexts, and back.
use dag_jwe::cbor::lengths_fit;
use dag_jwe::cid::{CidError, SimpleCid};
use dag_jwe::dag::{
    decode_cleartext, decode_cleartext_checked, decode_identity_cid, encode_identity_cid, pad,
    prepare_cleartext, prepare_cleartext_checked, DagError, DAG_CBOR_CODE,
};
use dag_jwe::ipld::{decode_ipld, encode_ipld, from_libipld, IpldValue};
use dag_jwe::js::{
    ipld_to_js_value, js_value_to_ipld, JsBuild, JsProperty, JsShape, JsValue,
};
use dag_jwe::varint::VarintError;
use libipld::cbor::DagCborCodec;
use libipld::codec::Codec;
use libipld::Ipld;

fn shaped(shape: JsShape) -> JsValue {
    JsValue { converted: None, shape }
}

fn text(s: &str) -> JsValue {
    shaped(JsShape::String(s.to_string()))
}

fn property(key: &str, value: JsValue) -> JsProperty {
    JsProperty { key: Some(key.to_string()), value: Some(value) }
}

fn entry(key: &str, value: IpldValue) -> (String, IpldValue) {
    (key.to_string(), value)
}

#[test]
fn padding_fills_the_last_block() {
    assert_eq!(pad(&[1, 2, 3], Some(4)), vec![1, 2, 3, 0]);
    assert_eq!(pad(&[1, 2, 3], Some(3)), vec![1, 2, 3]);
    assert_eq!(pad(&[1, 2, 3], Some(1)), vec![1, 2, 3]);
    assert_eq!(pad(&[], Some(5)), Vec::<u8>::new());
    assert_eq!(pad(&[7; 25], None).len(), 48);
    assert_eq!(pad(&[7; 24], None), vec![7; 24]);
    let padded = pad(&[7; 10], None);
    assert_eq!(padded[..10], [7; 10]);
    assert_eq!(padded[10..], [0; 14]);
}

#[test]
fn identifiers_have_exact_bytes() {
    let cid = SimpleCid::new_v1(0x71, vec![9, 8]);
    assert_eq!(cid.to_bytes(), vec![1, 0x71, 0, 2, 9, 8]);
    let mut bytes = vec![5];
    assert_eq!(cid.write_bytes(&mut bytes), 6);
    assert_eq!(bytes, vec![5, 1, 0x71, 0, 2, 9, 8]);
    let cid = SimpleCid::new_v1(0x0129, vec![3; 200]);
    assert_eq!(cid.to_bytes()[..6], [1, 0xa9, 0x02, 0, 0xc8, 0x01]);
    assert_eq!(cid.to_bytes().len(), 206);
}

#[test]
fn identifiers_read_back() {
    let cid = SimpleCid::new_v1(u64::MAX, vec![3; 300]);
    let mut bytes = cid.to_bytes();
    assert_eq!(SimpleCid::from_bytes(&bytes), Ok(cid.clone()));
    bytes.extend_from_slice(&[0, 1, 2]);
    assert_eq!(SimpleCid::from_bytes_checked(&bytes), Ok(cid));
}

#[test]
fn bytes_that_are_no_identifier() {
    let error = |bytes: &[u8]| SimpleCid::from_bytes_checked(bytes).unwrap_err();
    assert_eq!(error(&[]), CidError::Varint(VarintError::Insufficient));
    assert_eq!(error(&[2, 0x71, 0, 0]), CidError::UnsupportedVersion);
    assert_eq!(error(&[1, 0x71, 0x12, 0]), CidError::UnsupportedHash);
    assert_eq!(error(&[1, 0x80, 0]), CidError::Varint(VarintError::NotMinimal));
    assert_eq!(error(&[1, 0xff]), CidError::Varint(VarintError::Insufficient));
    assert_eq!(error(&[0xff; 11]), CidError::Varint(VarintError::Overflow));
    assert_eq!(error(&[1, 0x71, 0, 3, 1, 2]), CidError::Truncated);
    assert_eq!(SimpleCid::from_bytes(&[1, 0x71, 0, 0]).unwrap().digest, Vec::<u8>::new());
}

#[test]
fn javascript_values_by_kind() {
    let of = |shape: JsShape| js_value_to_ipld(&shaped(shape));
    assert_eq!(of(JsShape::Undefined), IpldValue::Null);
    assert_eq!(of(JsShape::Null), IpldValue::Null);
    assert_eq!(of(JsShape::Bool(true)), IpldValue::Bool(true));
    assert_eq!(of(JsShape::Integer(-5)), IpldValue::Integer(-5));
    assert_eq!(of(JsShape::Float(1.5f64.to_bits())), IpldValue::Float(1.5f64.to_bits()));
    assert_eq!(of(JsShape::String("s".to_string())), IpldValue::String("s".to_string()));
    assert_eq!(
        of(JsShape::Array(vec![text("a"), shaped(JsShape::Undefined)])),
        IpldValue::List(vec![IpldValue::String("a".to_string()), IpldValue::Null])
    );
}

#[test]
fn direct_deserialization_comes_first() {
    let value = JsValue {
        converted: Some(IpldValue::List(vec![
            IpldValue::Bytes(vec![1]),
            IpldValue::StringMap(vec![entry("k", IpldValue::Bool(false))]),
        ])),
        shape: JsShape::Null,
    };
    assert_eq!(Some(js_value_to_ipld(&value)), value.converted);
}

#[test]
fn properties_by_increasing_key() {
    let object = shaped(JsShape::Object(vec![
        property("b", text("1")),
        property("a", text("2")),
        property("\u{e9}", text("5")),
        property("b", text("3")),
        property("c", shaped(JsShape::Undefined)),
        property("ab", shaped(JsShape::Null)),
        JsProperty { key: None, value: Some(text("4")) },
        JsProperty { key: Some("d".to_string()), value: None },
    ]));
    assert_eq!(
        js_value_to_ipld(&object),
        IpldValue::StringMap(vec![
            entry("a", IpldValue::String("2".to_string())),
            entry("ab", IpldValue::Null),
            entry("b", IpldValue::String("3".to_string())),
            entry("\u{e9}", IpldValue::String("5".to_string())),
        ])
    );
}

#[test]
fn ipld_values_by_kind() {
    let ipld = IpldValue::List(vec![
        IpldValue::Null,
        IpldValue::Bool(true),
        IpldValue::Integer(3),
        IpldValue::Float(0.5f64.to_bits()),
        IpldValue::String("s".to_string()),
        IpldValue::Bytes(vec![1, 2]),
        IpldValue::StringMap(vec![entry("k", IpldValue::List(vec![]))]),
    ]);
    assert_eq!(
        ipld_to_js_value(ipld),
        JsBuild::Array(vec![
            JsBuild::Null,
            JsBuild::Bool(true),
            JsBuild::Integer(3),
            JsBuild::Float(0.5f64.to_bits()),
            JsBuild::String("s".to_string()),
            JsBuild::Uint8Array(vec![1, 2]),
            JsBuild::Object(vec![("k".to_string(), JsBuild::Array(vec![]))]),
        ])
    );
}

#[test]
fn cleartexts_have_exact_bytes() {
    let mut expected = vec![1, 0x71, 0, 3, 0x62, b'h', b'i'];
    assert_eq!(prepare_cleartext(&text("hi"), Some(1)), Ok(expected.clone()));
    expected.resize(24, 0);
    assert_eq!(prepare_cleartext(&text("hi"), None), Ok(expected.clone()));
    assert_eq!(prepare_cleartext_checked(&text("hi"), Some(24)), Ok(expected));
    let object = shaped(JsShape::Object(vec![
        property("b", shaped(JsShape::Integer(-1))),
        property("a", shaped(JsShape::Float(1.1f64.to_bits()))),
    ]));
    assert_eq!(
        prepare_cleartext(&object, Some(1)),
        Ok(vec![
            1, 0x71, 0, 15, 0xa2, 0x61, b'a', 0xfb, 0x3f, 0xf1, 0x99, 0x99, 0x99, 0x99, 0x99,
            0x9a, 0x61, b'b', 0x20
        ])
    );
}

#[test]
fn cleartexts_read_back() {
    let object = shaped(JsShape::Object(vec![
        property("list", shaped(JsShape::Array(vec![text("x"), shaped(JsShape::Null)]))),
        property("n", shaped(JsShape::Integer(1 << 60))),
        property("f", shaped(JsShape::Float((-0.0f64).to_bits()))),
    ]));
    let expected = || {
        JsBuild::Object(vec![
            ("f".to_string(), JsBuild::Float((-0.0f64).to_bits())),
            (
                "list".to_string(),
                JsBuild::Array(vec![JsBuild::String("x".to_string()), JsBuild::Null]),
            ),
            ("n".to_string(), JsBuild::Integer(1 << 60)),
        ])
    };
    for block_size in [None, Some(1), Some(7), Some(100)] {
        let bytes = prepare_cleartext(&object, block_size).unwrap();
        assert_eq!(bytes.len() % block_size.unwrap_or(24), 0);
        assert_eq!(decode_cleartext(&bytes), Ok(expected()));
        assert_eq!(decode_cleartext_checked(&bytes), Ok(expected()));
    }
}

#[test]
fn values_without_an_encoding() {
    for i in [1 << 64, -(1 << 64) - 1, i128::MAX, i128::MIN] {
        let value = shaped(JsShape::Array(vec![shaped(JsShape::Integer(i))]));
        assert_eq!(prepare_cleartext(&value, None), Err(DagError::Encode));
        assert_eq!(prepare_cleartext_checked(&value, Some(0)), Err(DagError::Encode));
    }
    for i in [(1 << 64) - 1, -(1 << 64)] {
        let value = shaped(JsShape::Integer(i));
        let bytes = prepare_cleartext(&value, None).unwrap();
        assert_eq!(decode_cleartext(&bytes), Ok(JsBuild::Integer(i)));
    }
}

#[test]
fn blocks_of_no_bytes_are_errors() {
    assert_eq!(prepare_cleartext_checked(&text("hi"), Some(0)), Err(DagError::ZeroBlockSize));
}

#[test]
fn infinite_floats_do_not_read_back() {
    let value = shaped(JsShape::Float(f64::INFINITY.to_bits()));
    let bytes = prepare_cleartext(&value, None).unwrap();
    assert_eq!(decode_cleartext(&bytes), Err(DagError::Decode));
}

#[test]
fn single_precision_floats_read_as_doubles() {
    assert_eq!(
        decode_ipld(&[0xfa, 0x3f, 0xc0, 0, 0]),
        Some(IpldValue::Float(1.5f64.to_bits()))
    );
    match decode_ipld(&[0xfa, 0xff, 0xc0, 0, 1]) {
        Some(IpldValue::Float(bits)) => assert!(f64::from_bits(bits).is_nan()),
        other => panic!("{:?}", other),
    }
}

#[test]
fn order_of_properties_plays_no_part() {
    let inner = |first: &str, second: &str| {
        shaped(JsShape::Object(vec![
            property(first, text(first)),
            property("u", shaped(JsShape::Undefined)),
            property(second, text(second)),
        ]))
    };
    let one = shaped(JsShape::Object(vec![
        property("x", inner("a", "b")),
        property("y", text("1")),
    ]));
    let two = shaped(JsShape::Object(vec![
        property("y", text("1")),
        property("z", shaped(JsShape::Undefined)),
        property("x", inner("b", "a")),
    ]));
    assert_eq!(encode_identity_cid(&one), encode_identity_cid(&two));
    assert_eq!(js_value_to_ipld(&one), js_value_to_ipld(&two));
}

#[test]
fn identifiers_begin_the_bytes() {
    let bytes = [1, 0xa9, 0x02, 0, 2, 9, 8, 7, 7];
    let cid = SimpleCid::from_bytes(&bytes).unwrap();
    assert!(bytes.starts_with(&cid.to_bytes()));
    // A number of more than 64 bits reads as its lowest 64 bits, which have other bytes.
    let bytes = [&[1][..], &[0x80; 9], &[0x02, 0, 0]].concat();
    let cid = SimpleCid::from_bytes(&bytes).unwrap();
    assert_eq!(cid.codec, 0);
    assert!(!bytes.starts_with(&cid.to_bytes()));
}

#[test]
fn bytes_behind_a_cleartext_play_no_part() {
    let mut bytes = prepare_cleartext(&text("hi"), Some(1)).unwrap();
    bytes.extend_from_slice(&[0xff, 1, 2, 3]);
    assert_eq!(decode_cleartext(&bytes), Ok(JsBuild::String("hi".to_string())));
}

#[test]
fn links_read_back() {
    let bytes = [
        &[0xd8, 0x2a, 0x58, 0x25, 0, 1, 0x55, 0x12, 0x20][..],
        &[0xab; 32][..],
    ]
    .concat();
    let link = match decode_ipld(&bytes) {
        Some(IpldValue::Link(link)) => link,
        other => panic!("{:?}", other),
    };
    assert_eq!(ipld_to_js_value(IpldValue::Link(link.clone())), JsBuild::Link(link.clone()));
    assert_eq!(encode_ipld(&IpldValue::Link(link.clone())), Some(bytes));
    let value = JsValue {
        converted: Some(IpldValue::List(vec![IpldValue::Link(link.clone())])),
        shape: JsShape::Null,
    };
    let cleartext = prepare_cleartext(&value, None).unwrap();
    assert_eq!(decode_cleartext(&cleartext), Ok(JsBuild::Array(vec![JsBuild::Link(link)])));
}

#[test]
fn identifiers_of_other_content() {
    let cid = encode_identity_cid(&text("hi")).unwrap();
    assert_eq!(cid, SimpleCid::new_v1(DAG_CBOR_CODE, vec![0x62, b'h', b'i']));
    assert_eq!(decode_identity_cid(&cid), Ok(JsBuild::String("hi".to_string())));
    let raw = SimpleCid::new_v1(0x55, vec![0x62, b'h', b'i']);
    assert_eq!(decode_identity_cid(&raw), Err(DagError::UnsupportedCodec));
    assert_eq!(decode_cleartext(&raw.to_bytes()), Err(DagError::UnsupportedCodec));
    let broken = SimpleCid::new_v1(DAG_CBOR_CODE, vec![0x62, b'h']);
    assert_eq!(decode_identity_cid(&broken), Err(DagError::Decode));
}

#[test]
fn bytes_that_are_no_cleartext() {
    assert_eq!(decode_cleartext(&[]), Err(DagError::Cid(CidError::Varint(VarintError::Insufficient))));
    assert_eq!(decode_cleartext(&[0; 24]), Err(DagError::Cid(CidError::UnsupportedVersion)));
    assert_eq!(
        decode_cleartext_checked(&[1, 0x71, 0, 9]),
        Err(DagError::Cid(CidError::Truncated))
    );
}

#[test]
fn claimed_lengths_are_held_to_the_bytes() {
    let claims = [
        vec![0x5b, 0x7f, 0xff, 0xff, 0xff, 0xff, 0xff, 0xff, 0xff],
        vec![0x9b, 0x7f, 0xff, 0xff, 0xff, 0xff, 0xff, 0xff, 0xff],
        vec![0x81, 0x7a, 0xff, 0xff, 0xff, 0xff],
        vec![0xa1, 0x61, b'a', 0x99, 0xff, 0xff],
        vec![0x9f, 0x98, 0x02, 0xff],
    ];
    for bytes in claims {
        assert!(!lengths_fit(&bytes));
        assert_eq!(decode_ipld(&bytes), None);
    }
    for bytes in [&[][..], &[0xff], &[0x62, b'h', b'i'], &[0x9f, 1, 0xff], &[0xbf, 0xff]] {
        assert!(lengths_fit(bytes));
    }
    assert_eq!(
        decode_ipld(&[0x9f, 1, 0xff]),
        Some(IpldValue::List(vec![IpldValue::Integer(1)]))
    );
}

#[test]
fn libipld_values_convert_both_ways() {
    let ipld = Ipld::List(vec![
        Ipld::Null,
        Ipld::Float(2.5),
        Ipld::Bytes(vec![1]),
        Ipld::StringMap(vec![("k".to_string(), Ipld::Integer(7))].into_iter().collect()),
    ]);
    let value = from_libipld(ipld.clone());
    assert_eq!(
        value,
        IpldValue::List(vec![
            IpldValue::Null,
            IpldValue::Float(2.5f64.to_bits()),
            IpldValue::Bytes(vec![1]),
            IpldValue::StringMap(vec![entry("k", IpldValue::Integer(7))]),
        ])
    );
    assert_eq!(value.to_libipld(), ipld);
    assert_eq!(value.duplicate(), value);
    assert_eq!(encode_ipld(&value), DagCborCodec.encode(&ipld).ok());
}
