use alkahest::buffer::{Buffer, Sizes};
use alkahest::deserialize::{decode_row, Deserializer};
use alkahest::error::{DeserializeError, SerializeError};
use alkahest::formula::{Formula, Primitive};
use alkahest::hint::{hint_slice, size_hint};
use alkahest::schema::Schema;
use alkahest::seq::{checked_words, SeqUnpacked, Sequence};
use alkahest::serialize::{serialize, Serializer};
use alkahest::value::Value;

fn scalar(p: Primitive) -> Formula {
    Formula::Primitive(p)
}

fn numbers(values: &[u32]) -> Vec<Value> {
    values.iter().map(|v| Value::Unsigned(*v as u128)).collect()
}

#[test]
fn sequence_yields_exactly_its_elements() {
    let element = scalar(Primitive::U16);
    let heap = [0xaa, 1, 0, 2, 0, 3, 0];
    let mut rows = Sequence::unpack(&element, [3, 1], &heap).unwrap();
    assert_eq!(rows.len(), 3);
    assert_eq!(rows.size_hint(), (3, Some(3)));
    assert_eq!(rows.next(), Some(Ok(Value::Unsigned(1))));
    assert_eq!(rows.len(), 2);
    assert_eq!(rows.size_hint(), (2, Some(2)));
    assert_eq!(rows.next(), Some(Ok(Value::Unsigned(2))));
    assert_eq!(rows.next(), Some(Ok(Value::Unsigned(3))));
    assert_eq!(rows.len(), 0);
    assert_eq!(rows.size_hint(), (0, Some(0)));
    assert_eq!(rows.next(), None);
    assert_eq!(rows.next(), None);
}

#[test]
fn sequence_can_be_read_again_from_its_header() {
    let element = Formula::Bytes;
    let heap = [1, 0, 0, 0, b'a', 2, 0, 0, 0, b'b', b'c'];
    for _ in 0..2 {
        let mut rows = SeqUnpacked::unpack(&element, 2, 0, &heap).unwrap();
        assert_eq!(rows.next(), Some(Ok(Value::Bytes(b"a".to_vec()))));
        assert_eq!(rows.next(), Some(Ok(Value::Bytes(b"bc".to_vec()))));
        assert_eq!(rows.next(), None);
    }
    let rows = SeqUnpacked::unpack(&element, 2, 0, &heap).unwrap();
    assert_eq!(
        rows.collect(),
        Ok(vec![Value::Bytes(b"a".to_vec()), Value::Bytes(b"bc".to_vec())])
    );
}

#[test]
fn row_that_cannot_be_read_ends_the_sequence() {
    let element = scalar(Primitive::U16);
    let heap = [1, 0, 2];
    let mut rows = SeqUnpacked::unpack(&element, 3, 0, &heap).unwrap();
    assert_eq!(rows.next(), Some(Ok(Value::Unsigned(1))));
    assert_eq!(rows.next(), Some(Err(DeserializeError::OutOfBounds)));
    assert_eq!(rows.len(), 0);
    assert_eq!(rows.next(), None);
    let rows = SeqUnpacked::unpack(&element, 3, 0, &heap).unwrap();
    assert_eq!(rows.collect(), Err(DeserializeError::OutOfBounds));
    let blobs = Formula::Bytes;
    let short = [2, 0, 0, 0, b'a'];
    let mut rows = SeqUnpacked::unpack(&blobs, 1, 0, &short).unwrap();
    assert_eq!(rows.next(), Some(Err(DeserializeError::OutOfBounds)));
    let variants = Formula::Enum(vec![vec![]]);
    let unknown = [7, 0, 0, 0];
    let mut rows = SeqUnpacked::unpack(&variants, 1, 0, &unknown).unwrap();
    assert_eq!(rows.next(), Some(Err(DeserializeError::WrongVariant(7))));
}

#[test]
fn rows_must_start_within_the_trailing_lane() {
    let element = scalar(Primitive::U8);
    assert_eq!(
        SeqUnpacked::unpack(&element, 0, 4, &[1, 2, 3]).err(),
        Some(DeserializeError::OutOfBounds)
    );
    assert_eq!(
        Sequence::unpack(&element, [0, 4], &[1, 2, 3]).err(),
        Some(DeserializeError::OutOfBounds)
    );
    assert!(SeqUnpacked::unpack(&element, 0, 3, &[1, 2, 3]).is_ok());
}

#[test]
fn one_row_is_read_at_a_place() {
    let element = scalar(Primitive::U16);
    let heap = [9, 1, 0, 2, 0];
    assert_eq!(decode_row(&element, &heap, 1), Ok((Value::Unsigned(1), 3)));
    assert_eq!(decode_row(&element, &heap, 3), Ok((Value::Unsigned(2), 5)));
    assert_eq!(decode_row(&element, &heap, 4), Err(DeserializeError::OutOfBounds));
    assert_eq!(decode_row(&element, &heap, 5), Err(DeserializeError::OutOfBounds));
    let blobs = Formula::Bytes;
    let rows = [2, 0, 0, 0, b'h', b'i', 0, 0, 0, 0];
    assert_eq!(decode_row(&blobs, &rows, 0), Ok((Value::Bytes(b"hi".to_vec()), 6)));
    assert_eq!(decode_row(&blobs, &rows, 6), Ok((Value::Bytes(vec![]), 10)));
    assert_eq!(decode_row(&blobs, &rows, 8), Err(DeserializeError::OutOfBounds));
}

#[test]
fn rows_are_packed_behind_the_trailing_lane() {
    let element = scalar(Primitive::U16);
    let mut heap = vec![0xaa, 0xbb];
    let packed = Sequence::pack(&element, &numbers(&[1, 2]), 10, &mut heap).unwrap();
    assert_eq!(packed, [2, 12]);
    assert_eq!(heap, vec![0xaa, 0xbb, 1, 0, 2, 0]);
    let blobs = Formula::Struct(vec![Formula::Bytes, scalar(Primitive::U8)]);
    let mut heap = Vec::new();
    let values = vec![Value::Struct(vec![Value::Bytes(b"xy".to_vec()), Value::Unsigned(3)])];
    let packed = Sequence::pack(&blobs, &values, 0, &mut heap).unwrap();
    assert_eq!(packed, [1, 2]);
    assert_eq!(heap, vec![b'x', b'y', 9, 0, 0, 0, 2, 0, 0, 0, 0, 0, 0, 0, 3]);
}

#[test]
fn rows_beyond_the_portable_width_overflow() {
    let element = scalar(Primitive::U8);
    let mut heap = vec![0];
    assert_eq!(
        Sequence::pack(&element, &numbers(&[1]), u32::MAX as usize, &mut heap),
        Err(SerializeError::Overflow)
    );
    let mut heap = Vec::new();
    assert_eq!(
        Sequence::pack(&element, &numbers(&[1]), u32::MAX as usize, &mut heap),
        Ok([1, u32::MAX])
    );
    let mut heap = vec![0];
    assert_eq!(
        Sequence::pack(&element, &numbers(&[1]), usize::MAX, &mut heap),
        Err(SerializeError::Overflow)
    );
}

#[test]
fn slice_is_written_as_a_sequence() {
    let element = Schema::new(scalar(Primitive::U32)).unwrap();
    let values = numbers(&[0x0102_0304, 5]);
    let (buffer, sizes) =
        alkahest::slice::serialize(&values, &element, Serializer::new(Buffer::growable())).unwrap();
    assert_eq!(sizes, Sizes { stack: 8, heap: 8 });
    let (bytes, _) = buffer.finish().unwrap();
    assert_eq!(bytes, vec![2, 0, 0, 0, 0, 0, 0, 0, 4, 3, 2, 1, 5, 0, 0, 0]);
    let schema = Schema::new(Formula::Sequence(Box::new(scalar(Primitive::U32)))).unwrap();
    assert_eq!(serialize(&schema, &Value::Sequence(numbers(&[0x0102_0304, 5]))).unwrap().0, bytes);
    let result =
        alkahest::slice::serialize(&values, &element, Serializer::new(Buffer::with_capacity(15)));
    assert_eq!(result.err(), Some(SerializeError::BufferExhausted));
    let mut ser = Serializer::new(Buffer::growable());
    assert_eq!(ser.write_slice(&element, &values), Ok(()));
    assert_eq!(ser.sizes(), Sizes { stack: 8, heap: 8 });
}

#[test]
fn sizes_are_hinted_where_they_are_known() {
    let element = Schema::new(scalar(Primitive::U32)).unwrap();
    assert_eq!(hint_slice(&element, 3), Some(Sizes { stack: 8, heap: 12 }));
    assert_eq!(hint_slice(&element, 0), Some(Sizes { stack: 8, heap: 0 }));
    assert_eq!(hint_slice(&element, usize::MAX), None);
    assert_eq!(
        alkahest::slice::size_hint(&numbers(&[1, 2, 3]), &element),
        Some(Sizes { stack: 8, heap: 12 })
    );
    let blobs = Schema::new(Formula::Bytes).unwrap();
    assert_eq!(hint_slice(&blobs, 3), None);
    assert_eq!(
        size_hint(&blobs, &Value::Bytes(b"abc".to_vec())),
        Some(Sizes { stack: 3, heap: 0 })
    );
    assert_eq!(size_hint(&element, &Value::Unsigned(1)), Some(Sizes { stack: 4, heap: 0 }));
    let sequence = Schema::new(Formula::Sequence(Box::new(scalar(Primitive::U16)))).unwrap();
    let value = Value::Sequence(numbers(&[1, 2, 3]));
    assert_eq!(size_hint(&sequence, &value), Some(Sizes { stack: 8, heap: 6 }));
    assert_eq!(serialize(&sequence, &value).unwrap().1, Sizes { stack: 8, heap: 6 });
    let record = Schema::new(Formula::Struct(vec![Formula::Bytes, scalar(Primitive::U8)])).unwrap();
    assert_eq!(
        size_hint(&record, &Value::Struct(vec![Value::Bytes(vec![]), Value::Unsigned(1)])),
        None
    );
    let units = Schema::new(Formula::Sequence(Box::new(Formula::Struct(vec![])))).unwrap();
    assert_eq!(
        size_hint(&units, &Value::Sequence(vec![Value::Struct(vec![])])),
        Some(Sizes { stack: 8, heap: 0 })
    );
}

#[test]
fn words_are_viewed_in_place() {
    let schema = Schema::new(Formula::Sequence(Box::new(scalar(Primitive::U32)))).unwrap();
    let value = Value::Sequence(numbers(&[0x0102_0304, 7, u32::MAX]));
    let (bytes, sizes) = serialize(&schema, &value).unwrap();
    let mut words: Vec<u32> = vec![0; bytes.len() / 4 + 1];
    let aligned: &mut [u8] = bytemuck::cast_slice_mut(&mut words[..]);
    aligned[..bytes.len()].copy_from_slice(&bytes);
    let aligned = &aligned[..bytes.len()];
    let mut de = Deserializer::new(&aligned[..sizes.stack], &aligned[sizes.stack..]);
    let count = de.read_usize().unwrap();
    let offset = de.read_usize().unwrap();
    let element = scalar(Primitive::U32);
    let rows = SeqUnpacked::unpack(&element, count, offset, de.trailing()).unwrap();
    let expected = if u32::from_ne_bytes([1, 0, 0, 0]) == 1 {
        Some(&[0x0102_0304u32, 7, u32::MAX][..])
    } else {
        None
    };
    assert_eq!(rows.as_slice(), expected);
    let shifted = SeqUnpacked::unpack(&element, 1, 1, de.trailing()).unwrap();
    assert_eq!(shifted.as_slice(), None);
    let long = SeqUnpacked::unpack(&element, 4, 0, de.trailing()).unwrap();
    assert_eq!(long.as_slice(), None);
    let other = scalar(Primitive::I32);
    let signed = SeqUnpacked::unpack(&other, 3, 0, de.trailing()).unwrap();
    assert_eq!(signed.as_slice(), None);
}

#[test]
fn view_is_kept_only_where_it_agrees_with_the_wire() {
    let bytes = [1, 0, 0, 0, 2, 1, 0, 0];
    let right = [1u32, 258];
    let wrong = [1u32, 259];
    let turned = [0x0100_0000u32, 0x0201_0000];
    assert_eq!(checked_words(&bytes, Some(&right[..])), Some(&right[..]));
    assert_eq!(checked_words(&bytes, Some(&wrong[..])), None);
    assert_eq!(checked_words(&bytes, Some(&turned[..])), None);
    assert_eq!(checked_words(&bytes, Some(&right[..1])), None);
    assert_eq!(checked_words(&bytes[..7], Some(&right[..])), None);
    assert_eq!(checked_words(&bytes, None), None);
    assert_eq!(checked_words(&[], Some(&[][..])), Some(&[][..]));
}

#[test]
fn copy_of_the_reader_starts_where_it_was_taken() {
    let element = scalar(Primitive::U8);
    let heap = [1, 2, 3];
    let mut rows = SeqUnpacked::unpack(&element, 3, 0, &heap).unwrap();
    assert_eq!(rows.next(), Some(Ok(Value::Unsigned(1))));
    let mut again = rows;
    assert_eq!(rows.next(), Some(Ok(Value::Unsigned(2))));
    assert_eq!(rows.next(), Some(Ok(Value::Unsigned(3))));
    assert_eq!(rows.next(), None);
    assert_eq!(again.len(), 2);
    assert_eq!(again.next(), Some(Ok(Value::Unsigned(2))));
    assert_eq!(again.collect(), Ok(vec![Value::Unsigned(3)]));
}
