use alkahest::buffer::{Buffer, Sizes};
use alkahest::bytes::Bytes;
use alkahest::deserialize::Deserializer;
use alkahest::derive::{
    DataDef, DeriveArgs, DeriveError, DeriveInput, FieldDef, FieldsDef, FieldsKind, Plan,
};
use alkahest::error::{DeserializeError, SerializeError};
use alkahest::formula::Primitive;
use alkahest::le::{push_le, read_le};
use alkahest::primitive::{
    deserialize, deserialize_bool, deserialize_bool_in_place, deserialize_in_place, serialize,
    serialize_bool,
};
use alkahest::serialize::Serializer;
use alkahest::value::Value;

fn written(result: Result<(Buffer, Sizes), SerializeError>) -> (Vec<u8>, Sizes) {
    let (buffer, sizes) = result.unwrap();
    (buffer.finish().unwrap().0, sizes)
}

#[test]
fn numbers_are_written_least_significant_byte_first() {
    let mut out = vec![0xee];
    push_le(&mut out, 0x0102_0304, 4);
    assert_eq!(out, vec![0xee, 4, 3, 2, 1]);
    push_le(&mut out, 0x0102_0304, 2);
    assert_eq!(out, vec![0xee, 4, 3, 2, 1, 4, 3]);
    push_le(&mut out, 7, 0);
    assert_eq!(out.len(), 7);
    assert_eq!(read_le(&[4, 3, 2, 1]), 0x0102_0304);
    assert_eq!(read_le(&[]), 0);
    assert_eq!(read_le(&[0xff; 16]), u128::MAX);
}

#[test]
fn scalar_is_written_and_read() {
    let (bytes, sizes) = written(serialize(
        Primitive::U32,
        &Value::Unsigned(0x0a0b_0c0d),
        Serializer::new(Buffer::growable()),
    ));
    assert_eq!(sizes, Sizes { stack: 4, heap: 0 });
    assert_eq!(bytes, vec![0x0d, 0x0c, 0x0b, 0x0a]);
    assert_eq!(
        deserialize(Primitive::U32, Deserializer::new(&bytes, &[])),
        Ok(Value::Unsigned(0x0a0b_0c0d))
    );
    assert_eq!(
        deserialize(Primitive::I32, Deserializer::new(&[0xff, 0xff, 0xff, 0x7f], &[])),
        Ok(Value::Signed(i32::MAX as i128))
    );
    assert_eq!(
        deserialize(Primitive::I32, Deserializer::new(&[0, 0, 0, 0x80], &[])),
        Ok(Value::Signed(i32::MIN as i128))
    );
    let (bytes, _) = written(serialize(
        Primitive::I16,
        &Value::Signed(-300),
        Serializer::new(Buffer::growable()),
    ));
    assert_eq!(bytes, (-300i16).to_le_bytes().to_vec());
    let mut place = Value::Bool(true);
    assert_eq!(
        deserialize_in_place(Primitive::I16, &mut place, Deserializer::new(&bytes, &[])),
        Ok(())
    );
    assert_eq!(place, Value::Signed(-300));
}

#[test]
fn scalar_of_wrong_length_is_refused() {
    assert_eq!(
        deserialize(Primitive::U16, Deserializer::new(&[1], &[])),
        Err(DeserializeError::OutOfBounds)
    );
    assert_eq!(
        deserialize(Primitive::U16, Deserializer::new(&[1, 2, 3], &[])),
        Err(DeserializeError::WrongLength)
    );
    let mut place = Value::Unsigned(4);
    assert_eq!(
        deserialize_in_place(Primitive::U16, &mut place, Deserializer::new(&[1, 2, 3], &[])),
        Err(DeserializeError::WrongLength)
    );
    assert_eq!(place, Value::Unsigned(4));
    let result = serialize(
        Primitive::U64,
        &Value::Unsigned(1),
        Serializer::new(Buffer::with_capacity(7)),
    );
    assert_eq!(result.err(), Some(SerializeError::BufferExhausted));
}

#[test]
fn truth_value_is_one_byte() {
    assert_eq!(written(serialize_bool(true, Serializer::new(Buffer::growable()))).0, vec![1]);
    assert_eq!(written(serialize_bool(false, Serializer::new(Buffer::growable()))).0, vec![0]);
    assert_eq!(deserialize_bool(Deserializer::new(&[0], &[])), Ok(false));
    assert_eq!(deserialize_bool(Deserializer::new(&[1], &[])), Ok(true));
    assert_eq!(deserialize_bool(Deserializer::new(&[2], &[])), Ok(true));
    assert_eq!(deserialize_bool(Deserializer::new(&[], &[])), Err(DeserializeError::OutOfBounds));
    assert_eq!(
        deserialize_bool(Deserializer::new(&[1, 1], &[])),
        Err(DeserializeError::WrongLength)
    );
    let mut place = false;
    assert_eq!(deserialize_bool_in_place(&mut place, Deserializer::new(&[9], &[])), Ok(()));
    assert!(place);
    assert_eq!(
        deserialize_bool_in_place(&mut place, Deserializer::new(&[], &[])),
        Err(DeserializeError::OutOfBounds)
    );
    assert!(place);
    assert_eq!(
        serialize_bool(true, Serializer::new(Buffer::with_capacity(0))).err(),
        Some(SerializeError::BufferExhausted)
    );
}

#[test]
fn raw_bytes_are_borrowed() {
    let (bytes, sizes) = written(Bytes::serialize_owned(b"raw", Serializer::new(Buffer::growable())));
    assert_eq!(sizes, Sizes { stack: 3, heap: 0 });
    assert_eq!(bytes, b"raw".to_vec());
    assert_eq!(Bytes::deserialize(Deserializer::new(&bytes, &[])), Ok(&b"raw"[..]));
    let mut place: &[u8] = &[];
    assert_eq!(Bytes::deserialize_in_place(&mut place, Deserializer::new(&bytes, &[])), Ok(()));
    assert_eq!(place, b"raw");
    assert_eq!(
        Bytes::serialize_owned(b"raw", Serializer::new(Buffer::with_capacity(2))).err(),
        Some(SerializeError::BufferExhausted)
    );
}

#[test]
fn cursor_reads_in_order() {
    let input = [1, 2, 3, 0, 0, 0, 2, 0, 0, 0, 1, 0, 0, 0, 9];
    let heap = [7, 8, 9];
    let mut de = Deserializer::new(&input, &heap);
    assert_eq!(de.remaining(), 15);
    assert_eq!(de.read_bytes(2), Ok(&[1u8, 2][..]));
    assert_eq!(de.read_usize(), Ok(3));
    assert_eq!(de.read_reference(), Ok((2, 1)));
    assert_eq!(de.region(1, 2).read_all_bytes(), &[8, 9]);
    assert_eq!(de.trailing(), &heap);
    assert_eq!(de.read_bytes(2), Err(DeserializeError::OutOfBounds));
    assert_eq!(de.read_usize(), Err(DeserializeError::OutOfBounds));
    assert_eq!(de.remaining(), 1);
    assert_eq!(de.read_all_bytes(), &[9]);
    let mut far = Deserializer::new(&[2, 0, 0, 0, 2, 0, 0, 0], &heap);
    assert_eq!(far.read_reference(), Err(DeserializeError::OutOfBounds));
    assert_eq!(far.remaining(), 8);
    let mut short = Deserializer::new(&[2, 0, 0, 0, 1, 0, 0], &heap);
    assert_eq!(short.read_reference(), Err(DeserializeError::OutOfBounds));
    let mut edge = Deserializer::new(&[0, 0, 0, 0, 3, 0, 0, 0], &heap);
    assert_eq!(edge.read_reference(), Ok((0, 3)));
}

#[test]
fn buffer_keeps_two_lanes() {
    let mut buffer = Buffer::with_capacity(5);
    assert_eq!(buffer.capacity(), Some(5));
    assert!(buffer.has_room(5));
    assert!(!buffer.has_room(6));
    assert_eq!(buffer.write_stack(&[1, 2]), Ok(()));
    assert_eq!(buffer.write_heap(&[3, 4]), Ok(()));
    assert_eq!(buffer.write_heap(&[5, 6]), Err(SerializeError::BufferExhausted));
    assert_eq!(buffer.write_stack(&[5, 6]), Err(SerializeError::BufferExhausted));
    assert_eq!(buffer.sizes(), Sizes { stack: 2, heap: 2 });
    assert_eq!(buffer.write_stack(&[7]), Ok(()));
    assert!(buffer.has_room(0));
    assert!(!buffer.has_room(1));
    assert_eq!(buffer.finish(), Ok((vec![1, 2, 7, 3, 4], Sizes { stack: 3, heap: 2 })));
    let mut growable = Buffer::growable();
    assert_eq!(growable.capacity(), None);
    assert!(growable.has_room(usize::MAX));
    assert_eq!(growable.write_heap(&[1]), Ok(()));
    assert_eq!(growable.finish(), Ok((vec![1], Sizes { stack: 0, heap: 1 })));
}

#[test]
fn sizes_add_up() {
    assert_eq!(Sizes::zero(), Sizes { stack: 0, heap: 0 });
    assert_eq!(Sizes::with_stack(4), Sizes { stack: 4, heap: 0 });
    assert_eq!(
        Sizes { stack: 1, heap: 2 }.checked_add(Sizes { stack: 10, heap: 20 }),
        Some(Sizes { stack: 11, heap: 22 })
    );
    assert_eq!(Sizes { stack: usize::MAX, heap: 0 }.checked_add(Sizes::with_stack(1)), None);
    assert_eq!(
        Sizes { stack: 0, heap: usize::MAX }.checked_add(Sizes { stack: 0, heap: 1 }),
        None
    );
}

fn no_args() -> DeriveArgs {
    DeriveArgs { serialize: false, deserialize: false, common: false, owned: false, variant: false }
}

fn field(type_id: u64, generic: bool) -> FieldDef {
    FieldDef { type_id, generic }
}

#[test]
fn aggregate_gets_a_constant_for_each_named_field() {
    let input = DeriveInput {
        args: no_args(),
        data: DataDef::Struct(FieldsDef {
            kind: FieldsKind::Named,
            fields: vec![field(1, false), field(2, true), field(2, true), field(3, true)],
        }),
    };
    assert_eq!(
        alkahest::derive::derive(&input),
        Ok(Plan { field_ids: vec![vec![0, 1, 2, 3]], variant_ids: vec![], bounds: vec![2, 3] })
    );
    let tuple = DeriveInput {
        args: no_args(),
        data: DataDef::Struct(FieldsDef {
            kind: FieldsKind::Unnamed,
            fields: vec![field(1, true), field(1, false)],
        }),
    };
    assert_eq!(
        alkahest::derive::derive(&tuple),
        Ok(Plan { field_ids: vec![vec![]], variant_ids: vec![], bounds: vec![1] })
    );
    let unit = DeriveInput {
        args: no_args(),
        data: DataDef::Struct(FieldsDef { kind: FieldsKind::Unit, fields: vec![] }),
    };
    assert_eq!(
        alkahest::derive::derive(&unit),
        Ok(Plan { field_ids: vec![vec![]], variant_ids: vec![], bounds: vec![] })
    );
}

#[test]
fn variants_are_numbered_in_declared_order() {
    let input = DeriveInput {
        args: no_args(),
        data: DataDef::Enum(vec![
            FieldsDef { kind: FieldsKind::Unit, fields: vec![] },
            FieldsDef { kind: FieldsKind::Unnamed, fields: vec![field(5, true)] },
            FieldsDef { kind: FieldsKind::Named, fields: vec![field(4, true), field(5, true)] },
        ]),
    };
    assert_eq!(
        alkahest::derive::derive(&input),
        Ok(Plan {
            field_ids: vec![vec![], vec![], vec![0, 1]],
            variant_ids: vec![0, 1, 2],
            bounds: vec![5, 4],
        })
    );
    let empty = DeriveInput { args: no_args(), data: DataDef::Enum(vec![]) };
    assert_eq!(alkahest::derive::derive(&empty), Ok(Plan { field_ids: vec![], variant_ids: vec![], bounds: vec![] }));
}

#[test]
fn definitions_that_cannot_be_formulas_are_refused() {
    let data = || DataDef::Struct(FieldsDef { kind: FieldsKind::Unit, fields: vec![] });
    for (args, expected) in [
        (DeriveArgs { serialize: true, ..no_args() }, DeriveError::FormulaSpecified),
        (DeriveArgs { deserialize: true, ..no_args() }, DeriveError::FormulaSpecified),
        (DeriveArgs { common: true, ..no_args() }, DeriveError::FormulaSpecified),
        (DeriveArgs { owned: true, ..no_args() }, DeriveError::FormulaSpecified),
        (DeriveArgs { owned: true, variant: true, ..no_args() }, DeriveError::FormulaSpecified),
        (DeriveArgs { variant: true, ..no_args() }, DeriveError::VariantSpecified),
    ] {
        assert_eq!(alkahest::derive::derive(&DeriveInput { args, data: data() }), Err(expected));
    }
    assert_eq!(
        alkahest::derive::derive(&DeriveInput { args: no_args(), data: DataDef::Union }),
        Err(DeriveError::Union)
    );
    assert_eq!(
        alkahest::derive::derive(&DeriveInput {
            args: DeriveArgs { variant: true, ..no_args() },
            data: DataDef::Union
        }),
        Err(DeriveError::VariantSpecified)
    );
}
