use alkahest::buffer::Sizes;
use alkahest::deserialize::deserialize;
use alkahest::error::DeserializeError;
use alkahest::formula::{Formula, Primitive};
use alkahest::schema::Schema;
use alkahest::serialize::serialize;
use alkahest::value::Value;

fn record() -> Schema {
    Schema::new(Formula::Struct(vec![
        Formula::Primitive(Primitive::U32),
        Formula::Bytes,
        Formula::Primitive(Primitive::Float64),
    ]))
    .unwrap()
}

#[test]
fn record_is_laid_out_in_two_lanes() {
    let schema = record();
    let score: f64 = 2.5;
    let value = Value::Struct(vec![
        Value::Unsigned(0x0102_0304),
        Value::Bytes(b"ok".to_vec()),
        Value::Unsigned(score.to_bits() as u128),
    ]);
    assert!(schema.formula().admits_value(&value));
    let (bytes, sizes) = serialize(&schema, &value).unwrap();
    assert_eq!(sizes, Sizes { stack: 4 + 2 * 4 + 8, heap: 2 });
    let mut expected = vec![4u8, 3, 2, 1];
    expected.extend_from_slice(&[2, 0, 0, 0]);
    expected.extend_from_slice(&[0, 0, 0, 0]);
    expected.extend_from_slice(&score.to_le_bytes());
    expected.extend_from_slice(b"ok");
    assert_eq!(bytes, expected);
    let back = deserialize(&schema, &bytes, sizes.stack).unwrap();
    assert_eq!(back, value);
    match back {
        Value::Struct(fields) => match fields[2] {
            Value::Unsigned(bits) => assert_eq!(f64::from_bits(bits as u64), 2.5),
            _ => panic!("the last field is a number"),
        },
        _ => panic!("the value is an aggregate"),
    }
}

#[test]
fn truncated_record_is_refused() {
    let schema = record();
    let value = Value::Struct(vec![
        Value::Unsigned(7),
        Value::Bytes(b"ok".to_vec()),
        Value::Unsigned(0),
    ]);
    let (bytes, sizes) = serialize(&schema, &value).unwrap();
    for cut in 0..bytes.len() {
        let result = deserialize(&schema, &bytes[..cut], sizes.stack);
        assert_eq!(result, Err(DeserializeError::OutOfBounds), "cut at {}", cut);
    }
}
