use memdump::codec::{Scalar, ScalarType};
use memdump::record::{
    array_count, checked_dump, dump, dump_array, dump_str, fits, is_instance, write_at, DumpError,
    FieldValue, Record,
};
use memdump::schema::{RawField, RawType, TypeDescriptor};
use memdump::view::{
    checked_from_dump, from_dump, read_array, read_str, skip_array, skip_str, DecodeError,
    FieldView,
};

fn plain(name: &str, ty: &str) -> RawField {
    RawField { name: name.to_string(), ty: RawType::Plain(ty.to_string()), array_len: None, c_string: false }
}

fn array(name: &str, elem: &str, len: &str) -> RawField {
    RawField {
        name: name.to_string(),
        ty: RawType::Pointer { mutable: false, elem: elem.to_string() },
        array_len: Some(len.to_string()),
        c_string: false,
    }
}

fn string(name: &str) -> RawField {
    RawField {
        name: name.to_string(),
        ty: RawType::Pointer { mutable: false, elem: "c_char".to_string() },
        array_len: None,
        c_string: true,
    }
}

fn counted() -> TypeDescriptor {
    TypeDescriptor::new(&[plain("count", "u32"), array("elements", "u32", "count")]).unwrap()
}

fn labelled() -> TypeDescriptor {
    TypeDescriptor::new(&[plain("count", "u32"), array("elements", "u32", "count"), string("label")])
        .unwrap()
}

fn u32s(vs: &[u32]) -> Vec<Scalar> {
    vs.iter().map(|v| Scalar::U32(*v)).collect()
}

fn chars(s: &[u8]) -> Vec<i8> {
    s.iter().map(|b| *b as i8).collect()
}

#[test]
fn array_is_written_after_its_count_and_read_back_through_the_view() {
    let desc = counted();
    let rec = Record {
        fields: vec![FieldValue::Scalar(Scalar::U32(3)), FieldValue::Array(u32s(&[7, 11, 42]))],
    };
    let mut buf = [0u8; 16];
    let n = dump(&desc, &rec, &mut buf);
    assert_eq!(n, 16);
    assert_eq!(buf, [3, 0, 0, 0, 7, 0, 0, 0, 11, 0, 0, 0, 42, 0, 0, 0]);
    let (view, consumed) = from_dump(&desc, &buf);
    assert_eq!(consumed, 4 + 12);
    assert_eq!(view.fields[0], FieldView::Scalar(Scalar::U32(3)));
    assert_eq!(view.fields[1], FieldView::Array { offset: 4, count: 3 });
    assert_eq!(read_array(&buf, ScalarType::U32, 4, 3), Some(u32s(&[7, 11, 42])));
    assert_eq!(view.array(&desc, 1), Some(u32s(&[7, 11, 42])));
}

#[test]
fn empty_array_takes_no_bytes() {
    let desc = counted();
    let rec = Record { fields: vec![FieldValue::Scalar(Scalar::U32(0)), FieldValue::Array(vec![])] };
    let mut buf = [0xEEu8; 6];
    assert_eq!(dump(&desc, &rec, &mut buf), 4);
    assert_eq!(buf, [0, 0, 0, 0, 0xEE, 0xEE]);
    let (view, consumed) = from_dump(&desc, &buf[..4]);
    assert_eq!(consumed, 4);
    assert_eq!(view.fields[1], FieldView::Array { offset: 4, count: 0 });
    assert_eq!(read_array(&buf, ScalarType::U32, 4, 0), Some(vec![]));
}

#[test]
fn string_is_written_with_its_terminator() {
    let desc = TypeDescriptor::new(&[string("label")]).unwrap();
    let rec = Record { fields: vec![FieldValue::Str(chars(b"ok\0"))] };
    let mut buf = [0xEEu8; 5];
    assert_eq!(dump(&desc, &rec, &mut buf), 3);
    assert_eq!(buf, [0x6F, 0x6B, 0x00, 0xEE, 0xEE]);
    let (view, consumed) = from_dump(&desc, &buf);
    assert_eq!(consumed, 3);
    assert_eq!(view.fields, vec![FieldView::Str { offset: 0, len: 3 }]);
    assert_eq!(read_str(&buf, 0, 3), Some(chars(b"ok\0")));
    assert_eq!(view.string(0), Some(chars(b"ok\0")));
}

#[test]
fn count_array_and_label_end_to_end() {
    let desc = labelled();
    let rec = Record {
        fields: vec![
            FieldValue::Scalar(Scalar::U32(2)),
            FieldValue::Array(u32s(&[5, 9])),
            FieldValue::Str(chars(b"ok\0")),
        ],
    };
    let mut buf = [0xFFu8; 15];
    assert_eq!(dump(&desc, &rec, &mut buf), 15);
    assert_eq!(buf, [2, 0, 0, 0, 5, 0, 0, 0, 9, 0, 0, 0, 0x6F, 0x6B, 0x00]);
    let (view, consumed) = from_dump(&desc, &buf);
    assert_eq!(consumed, 15);
    assert_eq!(
        view.fields,
        vec![
            FieldView::Scalar(Scalar::U32(2)),
            FieldView::Array { offset: 4, count: 2 },
            FieldView::Str { offset: 12, len: 3 },
        ]
    );
    assert_eq!(read_array(&buf, ScalarType::U32, 4, 2), Some(u32s(&[5, 9])));
    assert_eq!(read_str(&buf, 12, 3), Some(chars(b"ok\0")));
    assert_eq!(view.array(&desc, 1), Some(u32s(&[5, 9])));
    assert_eq!(view.string(2), Some(chars(b"ok\0")));
    assert_eq!(view.buf.as_ptr(), buf.as_ptr());
}

#[test]
fn scalars_alone_round_trip() {
    let desc = TypeDescriptor::new(&[plain("a", "u32"), plain("b", "i8"), plain("c", "u32")]).unwrap();
    let rec = Record {
        fields: vec![
            FieldValue::Scalar(Scalar::U32(0xDEAD_BEEF)),
            FieldValue::Scalar(Scalar::I8(-7)),
            FieldValue::Scalar(Scalar::U32(1)),
        ],
    };
    let mut buf = [0u8; 9];
    assert_eq!(dump(&desc, &rec, &mut buf), 9);
    assert_eq!(buf, [0xEF, 0xBE, 0xAD, 0xDE, 0xF9, 1, 0, 0, 0]);
    let (view, consumed) = from_dump(&desc, &buf);
    assert_eq!(consumed, 9);
    assert_eq!(
        view.fields,
        vec![
            FieldView::Scalar(Scalar::U32(0xDEAD_BEEF)),
            FieldView::Scalar(Scalar::I8(-7)),
            FieldView::Scalar(Scalar::U32(1)),
        ]
    );
}

#[test]
fn bytes_written_equal_bytes_consumed() {
    let desc = labelled();
    for (count, label) in [(0u32, &b"\0"[..]), (1, &b"a\0"[..]), (4, &b"longer label\0"[..])] {
        let elements: Vec<u32> = (0..count).map(|k| k * 1000 + 1).collect();
        let rec = Record {
            fields: vec![
                FieldValue::Scalar(Scalar::U32(count)),
                FieldValue::Array(u32s(&elements)),
                FieldValue::Str(chars(label)),
            ],
        };
        let mut buf = [0x11u8; 64];
        let written = dump(&desc, &rec, &mut buf);
        assert_eq!(written, 4 + 4 * count as usize + label.len());
        let (_, consumed) = from_dump(&desc, &buf);
        assert_eq!(consumed, written);
        assert!(buf[written..].iter().all(|b| *b == 0x11));
    }
}

#[test]
fn count_comes_from_the_record_and_elements_beyond_it_stay_out() {
    let desc = counted();
    let rec = Record {
        fields: vec![FieldValue::Scalar(Scalar::U32(1)), FieldValue::Array(u32s(&[8, 9, 10]))],
    };
    assert_eq!(array_count(&desc, &rec, 1), 1);
    let mut buf = [0u8; 8];
    assert_eq!(dump(&desc, &rec, &mut buf), 8);
    assert_eq!(buf, [1, 0, 0, 0, 8, 0, 0, 0]);
}

#[test]
fn string_ends_at_its_first_zero() {
    let desc = TypeDescriptor::new(&[string("label")]).unwrap();
    let rec = Record { fields: vec![FieldValue::Str(chars(b"a\0b\0"))] };
    let mut buf = [0x77u8; 4];
    assert_eq!(dump(&desc, &rec, &mut buf), 2);
    assert_eq!(buf, [b'a', 0, 0x77, 0x77]);
}

#[test]
fn negative_signed_count_means_no_elements() {
    let desc = TypeDescriptor::new(&[plain("n", "i8"), array("xs", "i8", "n")]).unwrap();
    let rec = Record { fields: vec![FieldValue::Scalar(Scalar::I8(-3)), FieldValue::Array(vec![])] };
    let mut buf = [0u8; 1];
    assert_eq!(dump(&desc, &rec, &mut buf), 1);
    assert_eq!(buf, [0xFD]);
    let (view, consumed) = from_dump(&desc, &buf);
    assert_eq!(consumed, 1);
    assert_eq!(view.fields[1], FieldView::Array { offset: 1, count: 0 });
}

#[test]
fn truncated_scalar_is_reported() {
    let desc = counted();
    assert_eq!(checked_from_dump(&desc, &[2, 0, 0]).err(), Some(DecodeError::BufferExhausted));
    assert_eq!(checked_from_dump(&desc, &[]).err(), Some(DecodeError::BufferExhausted));
}

#[test]
fn truncated_array_is_reported() {
    let desc = counted();
    let buf = [2u8, 0, 0, 0, 5, 0, 0, 0, 9, 0, 0];
    assert_eq!(checked_from_dump(&desc, &buf).err(), Some(DecodeError::BufferExhausted));
}

#[test]
fn string_without_terminator_is_reported() {
    let desc = labelled();
    let buf = [0u8, 0, 0, 0, b'o', b'k'];
    assert_eq!(checked_from_dump(&desc, &buf).err(), Some(DecodeError::BufferExhausted));
}

#[test]
fn checked_decoding_agrees_with_unchecked() {
    let desc = labelled();
    let buf = [1u8, 0, 0, 0, 9, 0, 0, 0, b'x', 0, 0xAB];
    let (view, consumed) = checked_from_dump(&desc, &buf).unwrap();
    assert_eq!(consumed, 10);
    let (again, n) = from_dump(&desc, &buf);
    assert_eq!(n, consumed);
    assert_eq!(again.fields, view.fields);
}

#[test]
fn empty_structure_takes_no_bytes() {
    let desc = TypeDescriptor::new(&[]).unwrap();
    let mut buf = [9u8; 2];
    assert_eq!(dump(&desc, &Record { fields: vec![] }, &mut buf), 0);
    assert_eq!(buf, [9, 9]);
    let (view, consumed) = from_dump(&desc, &buf);
    assert_eq!(consumed, 0);
    assert!(view.fields.is_empty());
}

#[test]
fn writing_at_a_position_leaves_the_rest() {
    let mut buf = [0xCCu8; 7];
    assert_eq!(write_at(&0x0102_0304u32, &mut buf, 2), 6);
    assert_eq!(buf, [0xCC, 0xCC, 4, 3, 2, 1, 0xCC]);
    assert_eq!(dump_array(&u32s(&[1, 2]), 1, &mut buf, 0), 4);
    assert_eq!(buf, [1, 0, 0, 0, 2, 1, 0xCC]);
    assert_eq!(dump_str(&chars(b"hi\0"), &mut buf, 4), 7);
    assert_eq!(buf, [1, 0, 0, 0, b'h', b'i', 0]);
}

#[test]
fn skipping_moves_the_cursor_by_the_encoded_width() {
    let buf = [0u8, 1, 2, 3, 4, 5, 6, 0, 9];
    assert_eq!(skip_array(&buf, ScalarType::U32, 2, 1), Some(9));
    assert_eq!(skip_array(&buf, ScalarType::U32, 2, 2), None);
    assert_eq!(skip_array(&buf, ScalarType::I8, 3, 6), Some(9));
    assert_eq!(skip_array(&buf, ScalarType::I8, 0, 9), Some(9));
    assert_eq!(skip_str(&buf, 0), Some(1));
    assert_eq!(skip_str(&buf, 1), Some(8));
    assert_eq!(skip_str(&buf, 8), None);
}

#[test]
fn reading_outside_the_buffer_gives_nothing() {
    let buf = [1u8, 0, 0, 0, 2];
    assert_eq!(read_array(&buf, ScalarType::U32, 0, 1), Some(u32s(&[1])));
    assert_eq!(read_array(&buf, ScalarType::U32, 2, 1), None);
    assert_eq!(read_array(&buf, ScalarType::U32, 6, 0), None);
    assert_eq!(read_str(&buf, 3, 2), Some(vec![0, 2]));
    assert_eq!(read_str(&buf, 3, 3), None);
    assert_eq!(read_str(&buf, usize::MAX, 2), None);
}

#[test]
fn short_buffer_is_reported_and_left_untouched() {
    let desc = labelled();
    let rec = Record {
        fields: vec![
            FieldValue::Scalar(Scalar::U32(2)),
            FieldValue::Array(u32s(&[5, 9])),
            FieldValue::Str(chars(b"ok\0")),
        ],
    };
    assert!(is_instance(&desc, &rec));
    assert!(fits(&desc, &rec, 15));
    assert!(!fits(&desc, &rec, 14));
    let mut buf = [0x42u8; 14];
    assert_eq!(checked_dump(&desc, &rec, &mut buf), Err(DumpError::BufferExhausted));
    assert_eq!(buf, [0x42u8; 14]);
    let mut buf = [0x42u8; 15];
    assert_eq!(checked_dump(&desc, &rec, &mut buf), Ok(15));
    assert_eq!(buf, [2, 0, 0, 0, 5, 0, 0, 0, 9, 0, 0, 0, 0x6F, 0x6B, 0x00]);
}

#[test]
fn record_that_is_no_instance_is_reported() {
    let desc = labelled();
    let mut buf = [0u8; 32];
    let too_few = Record {
        fields: vec![
            FieldValue::Scalar(Scalar::U32(3)),
            FieldValue::Array(u32s(&[5, 9])),
            FieldValue::Str(chars(b"ok\0")),
        ],
    };
    assert!(!is_instance(&desc, &too_few));
    assert_eq!(checked_dump(&desc, &too_few, &mut buf), Err(DumpError::NotAnInstance));
    let unterminated = Record {
        fields: vec![
            FieldValue::Scalar(Scalar::U32(0)),
            FieldValue::Array(vec![]),
            FieldValue::Str(chars(b"ok")),
        ],
    };
    assert_eq!(checked_dump(&desc, &unterminated, &mut buf), Err(DumpError::NotAnInstance));
    let wrong_type = Record {
        fields: vec![
            FieldValue::Scalar(Scalar::I8(0)),
            FieldValue::Array(vec![]),
            FieldValue::Str(chars(b"\0")),
        ],
    };
    assert_eq!(checked_dump(&desc, &wrong_type, &mut buf), Err(DumpError::NotAnInstance));
    let wrong_elements = Record {
        fields: vec![
            FieldValue::Scalar(Scalar::U32(1)),
            FieldValue::Array(vec![Scalar::I8(1)]),
            FieldValue::Str(chars(b"\0")),
        ],
    };
    assert_eq!(checked_dump(&desc, &wrong_elements, &mut buf), Err(DumpError::NotAnInstance));
    let missing_field = Record { fields: vec![FieldValue::Scalar(Scalar::U32(0))] };
    assert_eq!(checked_dump(&desc, &missing_field, &mut buf), Err(DumpError::NotAnInstance));
    assert_eq!(buf, [0u8; 32]);
}

#[test]
fn huge_count_does_not_fit() {
    let desc = TypeDescriptor::new(&[plain("n", "u32"), array("xs", "u32", "n")]).unwrap();
    let rec = Record {
        fields: vec![FieldValue::Scalar(Scalar::U32(5)), FieldValue::Array(u32s(&[1, 2, 3, 4, 5]))],
    };
    assert!(fits(&desc, &rec, 24));
    assert!(!fits(&desc, &rec, 23));
    assert!(!fits(&desc, &rec, 4));
    assert!(!fits(&desc, &rec, 0));
}

#[test]
fn views_are_read_by_their_kind_only() {
    let desc = labelled();
    let buf = [1u8, 0, 0, 0, 9, 0, 0, 0, b'x', 0];
    let (view, _) = from_dump(&desc, &buf);
    assert_eq!(view.array(&desc, 0), None);
    assert_eq!(view.array(&desc, 1), Some(u32s(&[9])));
    assert_eq!(view.array(&desc, 2), None);
    assert_eq!(view.array(&desc, 3), None);
    assert_eq!(view.string(0), None);
    assert_eq!(view.string(1), None);
    assert_eq!(view.string(2), Some(chars(b"x\0")));
    assert_eq!(view.string(3), None);
}

#[test]
fn what_was_written_is_read_back_through_the_views() {
    let desc = labelled();
    let rec = Record {
        fields: vec![
            FieldValue::Scalar(Scalar::U32(2)),
            FieldValue::Array(u32s(&[70_000, 3, 99])),
            FieldValue::Str(chars(b"name\0junk")),
        ],
    };
    let mut buf = [0xFFu8; 40];
    let written = dump(&desc, &rec, &mut buf);
    assert_eq!(written, 17);
    let (view, consumed) = from_dump(&desc, &buf);
    assert_eq!(consumed, written);
    assert_eq!(view.array(&desc, 1), Some(u32s(&[70_000, 3])));
    assert_eq!(view.string(2), Some(chars(b"name\0")));
}
