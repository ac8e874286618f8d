use tracing_fluentd::fluent::{FieldMap, Message, Record, Severity, Value};
use tracing_fluentd::wire::{encode_message, TimeFormat};

fn s(text: &str) -> String {
    text.to_owned()
}

fn decode(bytes: &[u8]) -> rmpv::Value {
    rmp_serde::from_slice::<rmpv::Value>(bytes).expect("well-formed wire bytes")
}

fn rstr(text: &str) -> rmpv::Value {
    rmpv::Value::String(text.into())
}

#[test]
fn round_trip_single_record() {
    // ["rust", [[1700000000, {"msg": "hello"}]], {"size": 1}]
    let mut record = Record::with_timestamp(1_700_000_000, 0);
    record.insert(s("msg"), Value::Str(s("hello")));
    let mut message = Message::new("rust");
    message.add(record);

    let bytes = encode_message(&message, TimeFormat::Seconds).expect("encodable");
    let decoded = decode(&bytes);

    let expected = rmpv::Value::Array(vec![
        rstr("rust"),
        rmpv::Value::Array(vec![rmpv::Value::Array(vec![
            rmpv::Value::Integer(1_700_000_000u64.into()),
            rmpv::Value::Map(vec![(rstr("msg"), rstr("hello"))]),
        ])]),
        rmpv::Value::Map(vec![(rstr("size"), rmpv::Value::Integer(1u64.into()))]),
    ]);
    assert_eq!(decoded, expected);
}

#[test]
fn exact_bytes_single_record() {
    let mut record = Record::with_timestamp(1_700_000_000, 0);
    record.insert(s("msg"), Value::Str(s("hello")));
    let mut message = Message::new("rust");
    message.add(record);

    let bytes = encode_message(&message, TimeFormat::Seconds).expect("encodable");
    let expected: Vec<u8> = vec![
        0x93, // [tag, records, options]
        0xa4, b'r', b'u', b's', b't', // "rust"
        0x91, // one record
        0x92, // [timestamp, fields]
        0xce, 0x65, 0x53, 0xf1, 0x00, // 1700000000 as 32-bit uint
        0x81, // one field
        0xa3, b'm', b's', b'g', // "msg"
        0xa5, b'h', b'e', b'l', b'l', b'o', // "hello"
        0x81, // one option
        0xa4, b's', b'i', b'z', b'e', // "size"
        0x01, // 1
    ];
    assert_eq!(bytes, expected);
}

#[test]
fn exact_bytes_scalar_fields() {
    let mut record = Record::with_timestamp(3, 0);
    record.insert(s("b"), Value::Bool(true));
    record.insert(s("i"), Value::Int(-1));
    record.insert(s("u"), Value::Uint(300));
    let mut message = Message::new("t");
    message.add(record);

    let bytes = encode_message(&message, TimeFormat::Seconds).expect("encodable");
    let expected: Vec<u8> = vec![
        0x93, 0xa1, b't', // tag "t"
        0x91, 0x92, 0x03, // one record at second 3
        0x83, // three fields
        0xa1, b'b', 0xc3, // "b": true
        0xa1, b'i', 0xff, // "i": -1 as negative fixint
        0xa1, b'u', 0xcd, 0x01, 0x2c, // "u": 300 as 16-bit uint
        0x81, 0xa4, b's', b'i', b'z', b'e', 0x01,
    ];
    assert_eq!(bytes, expected);
}

#[test]
fn event_time_uses_fixext8() {
    let record = Record::with_timestamp(1_700_000_000, 123_456_789);
    let mut message = Message::new("t");
    message.add(record);

    let bytes = encode_message(&message, TimeFormat::EventTime).expect("encodable");
    // the timestamp must appear as fixext8 with type 0: seconds then
    // nanoseconds, each big-endian
    let ext: Vec<u8> = vec![
        0xd7, 0x00, 0x65, 0x53, 0xf1, 0x00, 0x07, 0x5b, 0xcd, 0x15,
    ];
    let found = bytes.windows(ext.len()).any(|w| w == ext.as_slice());
    assert!(found, "fixext8 timestamp missing from {:?}", bytes);

    let decoded = decode(&bytes);
    match &decoded {
        rmpv::Value::Array(parts) => match &parts[1] {
            rmpv::Value::Array(records) => match &records[0] {
                rmpv::Value::Array(record_parts) => {
                    assert_eq!(
                        record_parts[0],
                        rmpv::Value::Ext(0, ext[2..].to_vec()),
                    );
                },
                other => panic!("record is {:?}", other),
            },
            other => panic!("records are {:?}", other),
        },
        other => panic!("message is {:?}", other),
    }
}

#[test]
fn integer_edges_round_trip() {
    let cases: Vec<i64> = vec![
        0,
        1,
        127,
        128,
        255,
        256,
        65535,
        65536,
        -1,
        -32,
        -33,
        -128,
        -129,
        -32768,
        -32769,
        -2147483648,
        -2147483649,
        i64::MIN,
        i64::MAX,
    ];
    let mut record = Record::with_timestamp(1, 0);
    for (index, value) in cases.iter().enumerate() {
        record.insert(format!("k{}", index), Value::Int(*value));
    }
    let mut message = Message::new("ints");
    message.add(record);

    let bytes = encode_message(&message, TimeFormat::Seconds).expect("encodable");
    let decoded = decode(&bytes);
    match &decoded {
        rmpv::Value::Array(parts) => match (&parts[1], &parts[2]) {
            (rmpv::Value::Array(records), _) => match &records[0] {
                rmpv::Value::Array(record_parts) => match &record_parts[1] {
                    rmpv::Value::Map(fields) => {
                        assert_eq!(fields.len(), cases.len());
                        for (index, value) in cases.iter().enumerate() {
                            assert_eq!(
                                fields[index].1,
                                rmpv::Value::Integer((*value).into()),
                                "value {}",
                                value
                            );
                        }
                    },
                    other => panic!("fields are {:?}", other),
                },
                other => panic!("record is {:?}", other),
            },
            other => panic!("records are {:?}", other),
        },
        other => panic!("message is {:?}", other),
    }
}

#[test]
fn unsigned_edges_round_trip() {
    let cases: Vec<u64> = vec![0, 127, 128, 255, 256, 65535, 65536, 4294967295, 4294967296, u64::MAX];
    let mut record = Record::with_timestamp(1, 0);
    for (index, value) in cases.iter().enumerate() {
        record.insert(format!("k{}", index), Value::Uint(*value));
    }
    let mut message = Message::new("uints");
    message.add(record);

    let bytes = encode_message(&message, TimeFormat::Seconds).expect("encodable");
    let decoded = decode(&bytes);
    match &decoded {
        rmpv::Value::Array(parts) => match &parts[1] {
            rmpv::Value::Array(records) => match &records[0] {
                rmpv::Value::Array(record_parts) => match &record_parts[1] {
                    rmpv::Value::Map(fields) => {
                        for (index, value) in cases.iter().enumerate() {
                            assert_eq!(fields[index].1, rmpv::Value::Integer((*value).into()));
                        }
                    },
                    other => panic!("fields are {:?}", other),
                },
                other => panic!("record is {:?}", other),
            },
            other => panic!("records are {:?}", other),
        },
        other => panic!("message is {:?}", other),
    }
}

#[test]
fn severity_encodes_as_its_name() {
    let mut record = Record::with_timestamp(1, 0);
    record.insert(s("level"), Value::Severity(Severity::Info));
    let mut message = Message::new("t");
    message.add(record);

    let bytes = encode_message(&message, TimeFormat::Seconds).expect("encodable");
    let decoded = decode(&bytes);
    match &decoded {
        rmpv::Value::Array(parts) => match &parts[1] {
            rmpv::Value::Array(records) => match &records[0] {
                rmpv::Value::Array(record_parts) => {
                    assert_eq!(
                        record_parts[1],
                        rmpv::Value::Map(vec![(rstr("level"), rstr("INFO"))]),
                    );
                },
                other => panic!("record is {:?}", other),
            },
            other => panic!("records are {:?}", other),
        },
        other => panic!("message is {:?}", other),
    }
}

#[test]
fn nested_objects_round_trip() {
    let mut inner = FieldMap::new();
    inner.insert(s("line"), Value::Uint(42));
    inner.insert(s("module"), Value::Str(s("core")));
    let mut record = Record::with_timestamp(9, 0);
    record.insert(s("metadata"), Value::Object(inner));
    let mut message = Message::new("t");
    message.add(record);

    let bytes = encode_message(&message, TimeFormat::Seconds).expect("encodable");
    let decoded = decode(&bytes);
    let expected = rmpv::Value::Array(vec![
        rstr("t"),
        rmpv::Value::Array(vec![rmpv::Value::Array(vec![
            rmpv::Value::Integer(9u64.into()),
            rmpv::Value::Map(vec![(
                rstr("metadata"),
                rmpv::Value::Map(vec![
                    (rstr("line"), rmpv::Value::Integer(42u64.into())),
                    (rstr("module"), rstr("core")),
                ]),
            )]),
        ])]),
        rmpv::Value::Map(vec![(rstr("size"), rmpv::Value::Integer(1u64.into()))]),
    ]);
    assert_eq!(decoded, expected);
}

#[test]
fn empty_message_encodes_size_zero() {
    let message = Message::new("rust");
    let bytes = encode_message(&message, TimeFormat::Seconds).expect("encodable");
    let expected: Vec<u8> = vec![
        0x93, 0xa4, b'r', b'u', b's', b't', 0x90, // no records
        0x81, 0xa4, b's', b'i', b'z', b'e', 0x00,
    ];
    assert_eq!(bytes, expected);
}

#[test]
fn sixteen_fields_use_map16_header() {
    let mut record = Record::with_timestamp(1, 0);
    for index in 0..16 {
        record.insert(format!("k{:02}", index), Value::Uint(index as u64));
    }
    let mut message = Message::new("t");
    message.add(record);
    let bytes = encode_message(&message, TimeFormat::Seconds).expect("encodable");
    // map16 header for the 16-entry field map
    let found = bytes.windows(3).any(|w| w == [0xde, 0x00, 0x10]);
    assert!(found);
    let decoded = decode(&bytes);
    match &decoded {
        rmpv::Value::Array(parts) => match &parts[1] {
            rmpv::Value::Array(records) => match &records[0] {
                rmpv::Value::Array(record_parts) => match &record_parts[1] {
                    rmpv::Value::Map(fields) => assert_eq!(fields.len(), 16),
                    other => panic!("fields are {:?}", other),
                },
                other => panic!("record is {:?}", other),
            },
            other => panic!("records are {:?}", other),
        },
        other => panic!("message is {:?}", other),
    }
}

#[test]
fn long_strings_use_wide_headers() {
    let long_a = "a".repeat(40); // str8
    let long_b = "b".repeat(300); // str16
    let mut record = Record::with_timestamp(1, 0);
    record.insert(s("a"), Value::Str(long_a.clone()));
    record.insert(s("b"), Value::Str(long_b.clone()));
    let mut message = Message::new("t");
    message.add(record);
    let bytes = encode_message(&message, TimeFormat::Seconds).expect("encodable");
    assert!(bytes.windows(2).any(|w| w == [0xd9, 40]));
    assert!(bytes.windows(3).any(|w| w == [0xda, 0x01, 0x2c]));
    let decoded = decode(&bytes);
    match &decoded {
        rmpv::Value::Array(parts) => match &parts[1] {
            rmpv::Value::Array(records) => match &records[0] {
                rmpv::Value::Array(record_parts) => {
                    assert_eq!(
                        record_parts[1],
                        rmpv::Value::Map(vec![
                            (rstr("a"), rstr(&long_a)),
                            (rstr("b"), rstr(&long_b)),
                        ]),
                    );
                },
                other => panic!("record is {:?}", other),
            },
            other => panic!("records are {:?}", other),
        },
        other => panic!("message is {:?}", other),
    }
}
