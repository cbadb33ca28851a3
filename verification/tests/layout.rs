use alkahest::buffer::{Buffer, Sizes};
use alkahest::deserialize::{deserialize, deserialize_in_place, Deserializer};
use alkahest::encode::encode_value;
use alkahest::error::{DeserializeError, SerializeError};
use alkahest::formula::{Formula, Primitive};
use alkahest::schema::Schema;
use alkahest::serialize::{serialize, serialize_bounded, Serializer};
use alkahest::value::Value;

fn scalar(p: Primitive) -> Formula {
    Formula::Primitive(p)
}

fn blob(text: &str) -> Value {
    Value::Bytes(text.as_bytes().to_vec())
}

fn unequal() -> Formula {
    Formula::Enum(vec![
        vec![scalar(Primitive::U8)],
        vec![scalar(Primitive::U8), scalar(Primitive::U8)],
    ])
}

fn check(formula: Formula, value: Value, stack: &[u8], heap: &[u8]) {
    let schema = Schema::new(formula).unwrap();
    assert!(schema.formula().admits_value(&value));
    let (bytes, sizes) = serialize(&schema, &value).unwrap();
    assert_eq!(sizes, Sizes { stack: stack.len(), heap: heap.len() });
    assert_eq!(&bytes[..sizes.stack], stack);
    assert_eq!(&bytes[sizes.stack..], heap);
    assert_eq!(deserialize(&schema, &bytes, sizes.stack), Ok(value));
}

#[test]
fn scalars_are_little_endian() {
    check(scalar(Primitive::U8), Value::Unsigned(0xab), &[0xab], &[]);
    check(scalar(Primitive::U16), Value::Unsigned(0x0102), &[2, 1], &[]);
    check(scalar(Primitive::U32), Value::Unsigned(0x0102_0304), &[4, 3, 2, 1], &[]);
    check(
        scalar(Primitive::U64),
        Value::Unsigned(0x0102_0304_0506_0708),
        &[8, 7, 6, 5, 4, 3, 2, 1],
        &[],
    );
    check(scalar(Primitive::U128), Value::Unsigned(u128::MAX), &[0xff; 16], &[]);
    check(scalar(Primitive::I8), Value::Signed(-1), &[0xff], &[]);
    check(scalar(Primitive::I8), Value::Signed(-128), &[0x80], &[]);
    check(scalar(Primitive::I8), Value::Signed(127), &[0x7f], &[]);
    check(scalar(Primitive::I16), Value::Signed(-2), &[0xfe, 0xff], &[]);
    check(scalar(Primitive::I32), Value::Signed(-65_536), &[0, 0, 0xff, 0xff], &[]);
    check(scalar(Primitive::I64), Value::Signed(i64::MIN as i128), &[0, 0, 0, 0, 0, 0, 0, 0x80], &[]);
    check(scalar(Primitive::I128), Value::Signed(i128::MIN), &{
        let mut bytes = [0u8; 16];
        bytes[15] = 0x80;
        bytes
    }, &[]);
    check(scalar(Primitive::I128), Value::Signed(-1), &[0xff; 16], &[]);
    check(scalar(Primitive::Bool), Value::Bool(true), &[1], &[]);
    check(scalar(Primitive::Bool), Value::Bool(false), &[0], &[]);
    check(scalar(Primitive::Usize), Value::Unsigned(258), &[2, 1, 0, 0], &[]);
    check(scalar(Primitive::Isize), Value::Signed(-258), &[0xfe, 0xfe, 0xff, 0xff], &[]);
    let single: f32 = -1.5;
    check(
        scalar(Primitive::Float32),
        Value::Unsigned(single.to_bits() as u128),
        &single.to_le_bytes(),
        &[],
    );
    let double: f64 = 6.25e-3;
    check(
        scalar(Primitive::Float64),
        Value::Unsigned(double.to_bits() as u128),
        &double.to_le_bytes(),
        &[],
    );
}

#[test]
fn bytes_alone_are_written_as_they_are() {
    check(Formula::Bytes, blob("verbatim"), b"verbatim", &[]);
    check(Formula::Bytes, blob(""), &[], &[]);
}

#[test]
fn last_bytes_take_the_rest_of_the_region() {
    check(
        Formula::Struct(vec![scalar(Primitive::U16), Formula::Bytes]),
        Value::Struct(vec![Value::Unsigned(0x0102), blob("tail")]),
        &[2, 1, b't', b'a', b'i', b'l'],
        &[],
    );
    check(
        Formula::Struct(vec![scalar(Primitive::U16), Formula::Bytes]),
        Value::Struct(vec![Value::Unsigned(0x0102), blob("")]),
        &[2, 1],
        &[],
    );
}

#[test]
fn earlier_bytes_stand_in_the_trailing_lane() {
    check(
        Formula::Struct(vec![Formula::Bytes, Formula::Bytes, scalar(Primitive::U8)]),
        Value::Struct(vec![blob("ab"), blob("cde"), Value::Unsigned(9)]),
        &[2, 0, 0, 0, 0, 0, 0, 0, 3, 0, 0, 0, 2, 0, 0, 0, 9],
        b"abcde",
    );
    check(
        Formula::Struct(vec![Formula::Bytes, scalar(Primitive::U8)]),
        Value::Struct(vec![blob(""), Value::Unsigned(9)]),
        &[0, 0, 0, 0, 0, 0, 0, 0, 9],
        &[],
    );
}

#[test]
fn nested_aggregate_of_fixed_size_stands_in_place() {
    check(
        Formula::Struct(vec![
            Formula::Struct(vec![scalar(Primitive::U8), scalar(Primitive::U16)]),
            scalar(Primitive::U8),
        ]),
        Value::Struct(vec![
            Value::Struct(vec![Value::Unsigned(1), Value::Unsigned(0x0203)]),
            Value::Unsigned(4),
        ]),
        &[1, 3, 2, 4],
        &[],
    );
}

#[test]
fn nested_aggregate_without_bound_stands_in_the_trailing_lane() {
    check(
        Formula::Struct(vec![
            Formula::Struct(vec![Formula::Bytes, scalar(Primitive::U8)]),
            scalar(Primitive::U16),
        ]),
        Value::Struct(vec![
            Value::Struct(vec![blob("hi"), Value::Unsigned(7)]),
            Value::Unsigned(0x0102),
        ]),
        &[9, 0, 0, 0, 2, 0, 0, 0, 2, 1],
        &[b'h', b'i', 2, 0, 0, 0, 0, 0, 0, 0, 7],
    );
}

#[test]
fn aggregate_without_fields_is_empty() {
    check(Formula::Struct(vec![]), Value::Struct(vec![]), &[], &[]);
    let schema = Schema::new(Formula::Struct(vec![])).unwrap();
    assert_eq!(deserialize(&schema, &[0], 1), Err(DeserializeError::WrongLength));
}

#[test]
fn variant_follows_its_discriminant() {
    check(unequal(), Value::Variant(0, vec![Value::Unsigned(9)]), &[0, 0, 0, 0, 9], &[]);
    check(
        unequal(),
        Value::Variant(1, vec![Value::Unsigned(1), Value::Unsigned(2)]),
        &[1, 0, 0, 0, 1, 2],
        &[],
    );
    check(
        Formula::Enum(vec![vec![], vec![Formula::Bytes, scalar(Primitive::U8)]]),
        Value::Variant(1, vec![blob("xyz"), Value::Unsigned(5)]),
        &[1, 0, 0, 0, 3, 0, 0, 0, 0, 0, 0, 0, 5],
        b"xyz",
    );
    check(
        Formula::Enum(vec![vec![], vec![Formula::Bytes, scalar(Primitive::U8)]]),
        Value::Variant(0, vec![]),
        &[0, 0, 0, 0],
        &[],
    );
}

#[test]
fn sum_type_of_varying_size_is_last_or_behind_a_reference() {
    check(
        Formula::Struct(vec![scalar(Primitive::U8), unequal()]),
        Value::Struct(vec![Value::Unsigned(3), Value::Variant(0, vec![Value::Unsigned(9)])]),
        &[3, 0, 0, 0, 0, 9],
        &[],
    );
    check(
        Formula::Sequence(Box::new(unequal())),
        Value::Sequence(vec![
            Value::Variant(1, vec![Value::Unsigned(1), Value::Unsigned(2)]),
            Value::Variant(0, vec![Value::Unsigned(9)]),
        ]),
        &[2, 0, 0, 0, 0, 0, 0, 0],
        &[6, 0, 0, 0, 1, 0, 0, 0, 1, 2, 5, 0, 0, 0, 0, 0, 0, 0, 9],
    );
}

#[test]
fn exact_sum_type_stands_in_place() {
    let formula = || {
        Formula::Enum(vec![
            vec![scalar(Primitive::U16)],
            vec![scalar(Primitive::U8), scalar(Primitive::U8)],
        ])
    };
    check(
        Formula::Struct(vec![formula(), scalar(Primitive::U8)]),
        Value::Struct(vec![
            Value::Variant(1, vec![Value::Unsigned(1), Value::Unsigned(2)]),
            Value::Unsigned(0xee),
        ]),
        &[1, 0, 0, 0, 1, 2, 0xee],
        &[],
    );
    check(
        Formula::Struct(vec![formula(), scalar(Primitive::U8)]),
        Value::Struct(vec![Value::Variant(0, vec![Value::Unsigned(0x0102)]), Value::Unsigned(0xee)]),
        &[0, 0, 0, 0, 2, 1, 0xee],
        &[],
    );
}

#[test]
fn rows_of_fixed_size_stand_back_to_back() {
    check(
        Formula::Sequence(Box::new(scalar(Primitive::U16))),
        Value::Sequence(vec![Value::Unsigned(1), Value::Unsigned(2), Value::Unsigned(3)]),
        &[3, 0, 0, 0, 0, 0, 0, 0],
        &[1, 0, 2, 0, 3, 0],
    );
    check(
        Formula::Sequence(Box::new(scalar(Primitive::U16))),
        Value::Sequence(vec![]),
        &[0, 0, 0, 0, 0, 0, 0, 0],
        &[],
    );
}

#[test]
fn rows_of_varying_size_carry_their_length() {
    check(
        Formula::Sequence(Box::new(Formula::Bytes)),
        Value::Sequence(vec![blob("a"), blob("bcd"), blob("")]),
        &[3, 0, 0, 0, 0, 0, 0, 0],
        &[1, 0, 0, 0, b'a', 3, 0, 0, 0, b'b', b'c', b'd', 0, 0, 0, 0],
    );
}

#[test]
fn elements_append_to_the_trailing_lane_before_their_rows() {
    check(
        Formula::Sequence(Box::new(Formula::Struct(vec![Formula::Bytes, scalar(Primitive::U8)]))),
        Value::Sequence(vec![
            Value::Struct(vec![blob("ab"), Value::Unsigned(1)]),
            Value::Struct(vec![blob("c"), Value::Unsigned(2)]),
        ]),
        &[2, 0, 0, 0, 3, 0, 0, 0],
        &[
            b'a', b'b', b'c', 9, 0, 0, 0, 2, 0, 0, 0, 0, 0, 0, 0, 1, 9, 0, 0, 0, 1, 0, 0, 0, 2, 0,
            0, 0, 2,
        ],
    );
}

#[test]
fn sequence_in_the_middle_of_an_aggregate_is_referenced() {
    check(
        Formula::Struct(vec![
            Formula::Sequence(Box::new(scalar(Primitive::U8))),
            scalar(Primitive::U8),
        ]),
        Value::Struct(vec![
            Value::Sequence(vec![Value::Unsigned(5), Value::Unsigned(6)]),
            Value::Unsigned(7),
        ]),
        &[8, 0, 0, 0, 2, 0, 0, 0, 7],
        &[5, 6, 2, 0, 0, 0, 0, 0, 0, 0],
    );
}

#[test]
fn elements_of_no_width_leave_only_their_number() {
    check(
        Formula::Sequence(Box::new(Formula::Struct(vec![]))),
        Value::Sequence(vec![Value::Struct(vec![]), Value::Struct(vec![]), Value::Struct(vec![])]),
        &[3, 0, 0, 0, 0, 0, 0, 0],
        &[],
    );
    check(
        Formula::Struct(vec![
            Formula::Sequence(Box::new(Formula::Struct(vec![]))),
            scalar(Primitive::U8),
        ]),
        Value::Struct(vec![Value::Sequence(vec![Value::Struct(vec![])]), Value::Unsigned(7)]),
        &[1, 0, 0, 0, 0, 0, 0, 0, 7],
        &[],
    );
}

#[test]
fn sequences_nest() {
    check(
        Formula::Sequence(Box::new(Formula::Sequence(Box::new(scalar(Primitive::U8))))),
        Value::Sequence(vec![
            Value::Sequence(vec![Value::Unsigned(1), Value::Unsigned(2)]),
            Value::Sequence(vec![]),
            Value::Sequence(vec![Value::Unsigned(3)]),
        ]),
        &[3, 0, 0, 0, 3, 0, 0, 0],
        &[
            1, 2, 3, 8, 0, 0, 0, 2, 0, 0, 0, 0, 0, 0, 0, 8, 0, 0, 0, 0, 0, 0, 0, 2, 0, 0, 0, 8,
            0, 0, 0, 1, 0, 0, 0, 2, 0, 0, 0,
        ],
    );
}

#[test]
fn reading_in_place_gives_what_reading_gives() {
    let schema = Schema::new(Formula::Struct(vec![Formula::Bytes, scalar(Primitive::I16)])).unwrap();
    let value = Value::Struct(vec![blob("in place"), Value::Signed(-300)]);
    let (bytes, sizes) = serialize(&schema, &value).unwrap();
    let fresh = deserialize(&schema, &bytes, sizes.stack).unwrap();
    let mut place = Value::Sequence(vec![Value::Bool(true)]);
    assert_eq!(deserialize_in_place(&schema, &mut place, &bytes, sizes.stack), Ok(()));
    assert_eq!(place, fresh);
    assert_eq!(place, value);
    let mut kept = Value::Unsigned(5);
    assert_eq!(
        deserialize_in_place(&schema, &mut kept, &bytes[..3], sizes.stack),
        Err(DeserializeError::OutOfBounds)
    );
    assert_eq!(kept, Value::Unsigned(5));
    let mut third = Value::Bool(false);
    let de = Deserializer::new(&bytes[..sizes.stack], &bytes[sizes.stack..]);
    assert_eq!(de.deserialize_in_place(&mut third, schema.formula()), Ok(()));
    assert_eq!(third, value);
}

#[test]
fn unknown_discriminant_is_refused() {
    let schema = Schema::new(unequal()).unwrap();
    assert_eq!(deserialize(&schema, &[2, 0, 0, 0, 1], 5), Err(DeserializeError::WrongVariant(2)));
    assert_eq!(
        deserialize(&schema, &[0xff, 0xff, 0xff, 0xff, 1], 5),
        Err(DeserializeError::WrongVariant(u32::MAX))
    );
    assert_eq!(deserialize(&schema, &[1, 0, 0], 3), Err(DeserializeError::OutOfBounds));
}

#[test]
fn region_of_wrong_length_is_refused() {
    let schema = Schema::new(scalar(Primitive::U32)).unwrap();
    assert_eq!(deserialize(&schema, &[1, 2, 3, 4, 5], 5), Err(DeserializeError::WrongLength));
    assert_eq!(deserialize(&schema, &[1, 2, 3], 3), Err(DeserializeError::OutOfBounds));
    assert_eq!(deserialize(&schema, &[1, 2, 3, 4], 5), Err(DeserializeError::OutOfBounds));
    let pair = Schema::new(Formula::Struct(vec![scalar(Primitive::U8), scalar(Primitive::U8)]))
        .unwrap();
    assert_eq!(deserialize(&pair, &[1, 2, 3], 3), Err(DeserializeError::WrongLength));
    assert_eq!(deserialize(&pair, &[1], 1), Err(DeserializeError::OutOfBounds));
    let sequence = Schema::new(Formula::Sequence(Box::new(scalar(Primitive::U8)))).unwrap();
    assert_eq!(
        deserialize(&sequence, &[0, 0, 0, 0, 0, 0, 0, 0, 0], 9),
        Err(DeserializeError::WrongLength)
    );
    assert_eq!(deserialize(&sequence, &[0, 0, 0, 0, 0, 0, 0], 7), Err(DeserializeError::OutOfBounds));
}

#[test]
fn reference_outside_the_trailing_lane_is_refused() {
    let schema = Schema::new(Formula::Struct(vec![Formula::Bytes, scalar(Primitive::U8)])).unwrap();
    assert_eq!(
        deserialize(&schema, &[3, 0, 0, 0, 0, 0, 0, 0, 9, b'a', b'b'], 9),
        Err(DeserializeError::OutOfBounds)
    );
    assert_eq!(
        deserialize(&schema, &[1, 0, 0, 0, 2, 0, 0, 0, 9, b'a', b'b'], 9),
        Err(DeserializeError::OutOfBounds)
    );
    assert_eq!(
        deserialize(&schema, &[0xff, 0xff, 0xff, 0xff, 0xff, 0xff, 0xff, 0xff, 9, b'a'], 9),
        Err(DeserializeError::OutOfBounds)
    );
    assert_eq!(
        deserialize(&schema, &[1, 0, 0, 0, 1, 0, 0, 0, 9, b'a', b'b'], 9),
        Ok(Value::Struct(vec![blob("b"), Value::Unsigned(9)]))
    );
    let sequence = Schema::new(Formula::Sequence(Box::new(scalar(Primitive::U16)))).unwrap();
    assert_eq!(
        deserialize(&sequence, &[2, 0, 0, 0, 1, 0, 0, 0, 1, 0, 2, 0], 8),
        Err(DeserializeError::OutOfBounds)
    );
    assert_eq!(
        deserialize(&sequence, &[0, 0, 0, 0, 5, 0, 0, 0, 1, 0, 2, 0], 8),
        Err(DeserializeError::OutOfBounds)
    );
    assert_eq!(
        deserialize(&sequence, &[0, 0, 0, 0, 4, 0, 0, 0, 1, 0, 2, 0], 8),
        Ok(Value::Sequence(vec![]))
    );
}

#[test]
fn any_byte_but_zero_is_true() {
    let schema = Schema::new(scalar(Primitive::Bool)).unwrap();
    assert_eq!(deserialize(&schema, &[0], 1), Ok(Value::Bool(false)));
    assert_eq!(deserialize(&schema, &[1], 1), Ok(Value::Bool(true)));
    assert_eq!(deserialize(&schema, &[0x80], 1), Ok(Value::Bool(true)));
}

#[test]
fn capacity_is_held() {
    let schema = Schema::new(Formula::Struct(vec![Formula::Bytes, scalar(Primitive::U8)])).unwrap();
    let value = Value::Struct(vec![blob("abc"), Value::Unsigned(1)]);
    assert_eq!(
        serialize_bounded(&schema, &value, 11).err(),
        Some(SerializeError::BufferExhausted)
    );
    let (bytes, sizes) = serialize_bounded(&schema, &value, 12).unwrap();
    assert_eq!(sizes, Sizes { stack: 9, heap: 3 });
    assert_eq!(bytes, vec![3, 0, 0, 0, 0, 0, 0, 0, 1, b'a', b'b', b'c']);
    let mut ser = Serializer::new(Buffer::with_capacity(11));
    assert_eq!(ser.write_value(&schema, &value), Err(SerializeError::BufferExhausted));
    assert_eq!(ser.sizes(), Sizes { stack: 0, heap: 0 });
    assert_eq!(ser.write_bytes(&[1, 2, 3]), Ok(()));
    assert_eq!(ser.write_bytes(&[0; 9]), Err(SerializeError::BufferExhausted));
    let (buffer, sizes) = ser.finish().unwrap();
    assert_eq!(sizes, Sizes { stack: 3, heap: 0 });
    assert_eq!(buffer.capacity(), Some(11));
}

#[test]
fn offsets_count_from_the_start_of_the_trailing_lane() {
    let schema = Schema::new(Formula::Struct(vec![Formula::Bytes, scalar(Primitive::U8)])).unwrap();
    let mut ser = Serializer::new(Buffer::growable());
    assert_eq!(ser.write_value(&schema, &Value::Struct(vec![blob("ab"), Value::Unsigned(1)])), Ok(()));
    assert_eq!(ser.write_value(&schema, &Value::Struct(vec![blob("cd"), Value::Unsigned(2)])), Ok(()));
    let (buffer, sizes) = ser.finish().unwrap();
    assert_eq!(sizes, Sizes { stack: 18, heap: 4 });
    let (bytes, _) = buffer.finish().unwrap();
    assert_eq!(
        bytes,
        vec![
            2, 0, 0, 0, 0, 0, 0, 0, 1, 2, 0, 0, 0, 2, 0, 0, 0, 2, b'a', b'b', b'c', b'd'
        ]
    );
    let second = Deserializer::new(&bytes[9..18], &bytes[18..]);
    assert_eq!(
        second.deserialize(schema.formula()),
        Ok(Value::Struct(vec![blob("cd"), Value::Unsigned(2)]))
    );
}

#[test]
fn offset_beyond_the_portable_width_overflows() {
    let formula = Formula::Struct(vec![Formula::Bytes, scalar(Primitive::U8)]);
    let value = Value::Struct(vec![blob("ab"), Value::Unsigned(1)]);
    let mut stack = Vec::new();
    let mut heap = Vec::new();
    assert_eq!(
        encode_value(&formula, &value, &mut stack, &mut heap, u32::MAX as usize),
        Ok(())
    );
    assert_eq!(stack, vec![2, 0, 0, 0, 0xff, 0xff, 0xff, 0xff, 1]);
    assert_eq!(heap, b"ab".to_vec());
    let mut stack = Vec::new();
    let mut heap = Vec::new();
    assert_eq!(
        encode_value(&formula, &value, &mut stack, &mut heap, u32::MAX as usize + 1),
        Err(SerializeError::Overflow)
    );
    let mut stack = Vec::new();
    let mut heap = Vec::new();
    assert_eq!(
        encode_value(&formula, &value, &mut stack, &mut heap, usize::MAX),
        Err(SerializeError::Overflow)
    );
    let sequence = Formula::Sequence(Box::new(scalar(Primitive::U8)));
    let mut stack = Vec::new();
    let mut heap = Vec::new();
    assert_eq!(
        encode_value(
            &sequence,
            &Value::Sequence(vec![Value::Unsigned(1)]),
            &mut stack,
            &mut heap,
            u32::MAX as usize + 1
        ),
        Err(SerializeError::Overflow)
    );
}

#[test]
fn values_of_another_shape_are_not_admitted() {
    let formula = Formula::Struct(vec![scalar(Primitive::U8), scalar(Primitive::I8)]);
    assert!(formula.admits_value(&Value::Struct(vec![Value::Unsigned(255), Value::Signed(-128)])));
    assert!(!formula.admits_value(&Value::Struct(vec![Value::Unsigned(256), Value::Signed(0)])));
    assert!(!formula.admits_value(&Value::Struct(vec![Value::Unsigned(0), Value::Signed(128)])));
    assert!(!formula.admits_value(&Value::Struct(vec![Value::Unsigned(0), Value::Signed(-129)])));
    assert!(!formula.admits_value(&Value::Struct(vec![Value::Unsigned(0)])));
    assert!(!formula.admits_value(&Value::Struct(vec![Value::Signed(0), Value::Signed(0)])));
    assert!(!formula.admits_value(&Value::Unsigned(0)));
    assert!(!unequal().admits_value(&Value::Variant(2, vec![])));
    assert!(!unequal().admits_value(&Value::Variant(0, vec![])));
    assert!(unequal().admits_value(&Value::Variant(0, vec![Value::Unsigned(0)])));
    assert!(!Formula::Bytes.admits_value(&Value::Bool(true)));
    assert!(!scalar(Primitive::Bool).admits_value(&Value::Unsigned(1)));
    assert!(!scalar(Primitive::U8).admits_value(&Value::Bool(true)));
    assert!(scalar(Primitive::U128).admits_value(&Value::Unsigned(u128::MAX)));
    assert!(scalar(Primitive::I128).admits_value(&Value::Signed(i128::MIN)));
    assert!(scalar(Primitive::Float32).admits_value(&Value::Unsigned(u32::MAX as u128)));
    assert!(!scalar(Primitive::Float32).admits_value(&Value::Unsigned(u32::MAX as u128 + 1)));
    let sequence = Formula::Sequence(Box::new(scalar(Primitive::U8)));
    assert!(sequence.admits_value(&Value::Sequence(vec![])));
    assert!(!sequence.admits_value(&Value::Sequence(vec![Value::Unsigned(0), Value::Bool(true)])));
}

#[test]
fn every_truncation_is_refused() {
    let schema = Schema::new(Formula::Struct(vec![
        Formula::Sequence(Box::new(Formula::Struct(vec![Formula::Bytes, scalar(Primitive::U8)]))),
        Formula::Bytes,
        unequal(),
    ]))
    .unwrap();
    let value = Value::Struct(vec![
        Value::Sequence(vec![
            Value::Struct(vec![blob("ab"), Value::Unsigned(1)]),
            Value::Struct(vec![blob(""), Value::Unsigned(2)]),
        ]),
        blob("middle"),
        Value::Variant(1, vec![Value::Unsigned(1), Value::Unsigned(2)]),
    ]);
    let (bytes, sizes) = serialize(&schema, &value).unwrap();
    assert_eq!(deserialize(&schema, &bytes, sizes.stack), Ok(value));
    for cut in 0..bytes.len() {
        assert_eq!(
            deserialize(&schema, &bytes[..cut], sizes.stack),
            Err(DeserializeError::OutOfBounds),
            "cut at {}",
            cut
        );
    }
    for cut in 0..sizes.stack {
        let result = deserialize(&schema, &bytes[..cut], cut);
        assert!(result.is_err(), "inline lane cut at {}", cut);
    }
}

#[test]
fn bytes_are_read_into_the_storage_that_is_there() {
    let schema = Schema::new(Formula::Bytes).unwrap();
    let mut held = Vec::with_capacity(64);
    held.extend_from_slice(b"before");
    let storage = held.as_ptr();
    let mut place = Value::Bytes(held);
    assert_eq!(deserialize_in_place(&schema, &mut place, b"after it", 8), Ok(()));
    match &place {
        Value::Bytes(bytes) => {
            assert_eq!(bytes.as_slice(), b"after it");
            assert_eq!(bytes.as_ptr(), storage);
        }
        _ => panic!("the value holds raw bytes"),
    }
    assert_eq!(place, deserialize(&schema, b"after it", 8).unwrap());
}
