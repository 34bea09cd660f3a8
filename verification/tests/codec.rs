//! The canonical payload: exact bytes, round-trip stability, and the
//! inputs decode must reject.

use icq::codec::{decode, default_records, encode};
use icq::msg::{RequestQuery, RequestQueryJSON};

fn sample_records() -> Vec<RequestQueryJSON> {
    vec![
        RequestQueryJSON {
            data: vec![0, 1, 0, 1],
            path: "/store/bank/key".to_string(),
            height: 0,
            prove: false,
        },
        RequestQueryJSON {
            data: vec![],
            path: "/äßẞ".to_string(),
            height: -7,
            prove: true,
        },
        RequestQueryJSON {
            data: vec![255; 300],
            path: String::new(),
            height: i64::MAX,
            prove: false,
        },
    ]
}

#[test]
fn encode_is_exact_on_a_small_record() {
    let records = vec![RequestQueryJSON {
        data: vec![7],
        path: "A".to_string(),
        height: 5,
        prove: true,
    }];
    let bytes = encode(&records).unwrap();
    let expected: Vec<u8> = vec![
        1, 0, 0, 0, // one record
        1, 0, 0, 0, // one data byte
        7, // the data
        1, 0, 0, 0, // one path character
        65, 0, 0, 0, // 'A'
        5, 0, 0, 0, 0, 0, 0, 0, // height 5
        1, // prove
    ];
    assert_eq!(bytes, expected);
}

#[test]
fn encode_decode_encode_is_stable() {
    let records = sample_records();
    let bytes = encode(&records).unwrap();
    let decoded = decode(&bytes).expect("an encoded batch must decode");
    assert_eq!(decoded, records);
    let bytes_again = encode(&decoded).unwrap();
    assert_eq!(bytes_again, bytes);
}

#[test]
fn encoding_is_deterministic() {
    let a = encode(&sample_records()).unwrap();
    let b = encode(&sample_records()).unwrap();
    assert_eq!(a, b);
}

#[test]
fn defaults_are_applied_before_encoding() {
    let requests = vec![
        RequestQuery {
            data: vec![9],
            path: "/p".to_string(),
            height: None,
            prove: None,
        },
        RequestQuery {
            data: vec![],
            path: "/q".to_string(),
            height: Some(-1),
            prove: Some(true),
        },
    ];
    let records = default_records(&requests);
    assert_eq!(records[0].height, 0);
    assert!(!records[0].prove);
    assert_eq!(records[1].height, -1);
    assert!(records[1].prove);
    assert_eq!(records[0].data, vec![9]);
    assert_eq!(records[1].path, "/q".to_string());
}

#[test]
fn decode_rejects_short_input() {
    assert!(decode(&vec![]).is_none());
    assert!(decode(&vec![1, 0, 0]).is_none());
    // A count of one record, but no record follows.
    assert!(decode(&vec![1, 0, 0, 0]).is_none());
}

#[test]
fn decode_rejects_trailing_bytes() {
    let mut bytes = encode(&sample_records()).unwrap();
    bytes.push(0);
    assert!(decode(&bytes).is_none());
}

#[test]
fn decode_rejects_a_bad_proof_flag() {
    let records = vec![RequestQueryJSON {
        data: vec![],
        path: String::new(),
        height: 0,
        prove: false,
    }];
    let mut bytes = encode(&records).unwrap();
    let last = bytes.len() - 1;
    bytes[last] = 2;
    assert!(decode(&bytes).is_none());
}

#[test]
fn decode_rejects_an_invalid_character() {
    let records = vec![RequestQueryJSON {
        data: vec![],
        path: "A".to_string(),
        height: 0,
        prove: false,
    }];
    let mut bytes = encode(&records).unwrap();
    // Overwrite the character with a surrogate value, which no character
    // carries.
    bytes[12] = 0x00;
    bytes[13] = 0xd8;
    assert!(decode(&bytes).is_none());
    // And with a value beyond the Unicode range.
    bytes[12] = 0xff;
    bytes[13] = 0xff;
    bytes[14] = 0x11;
    assert!(decode(&bytes).is_none());
}

#[test]
fn decode_rejects_an_overlong_count() {
    let records = vec![RequestQueryJSON {
        data: vec![],
        path: String::new(),
        height: 0,
        prove: false,
    }];
    let mut bytes = encode(&records).unwrap();
    bytes[0] = 2;
    assert!(decode(&bytes).is_none());
}

#[test]
fn decode_accepts_the_empty_batch() {
    let records: Vec<RequestQueryJSON> = vec![];
    let bytes = encode(&records).unwrap();
    assert_eq!(bytes, vec![0, 0, 0, 0]);
    let decoded = decode(&bytes).unwrap();
    assert!(decoded.is_empty());
}
