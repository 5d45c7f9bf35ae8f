use memdump::codec::ScalarType;
use memdump::schema::{
    scalar_type_named, FieldKind, RawField, RawType, SchemaError, TypeDescriptor,
};

fn plain(name: &str, ty: &str) -> RawField {
    RawField { name: name.to_string(), ty: RawType::Plain(ty.to_string()), array_len: None, c_string: false }
}

fn pointer(elem: &str, mutable: bool) -> RawType {
    RawType::Pointer { mutable, elem: elem.to_string() }
}

fn array(name: &str, elem: &str, len: &str) -> RawField {
    RawField {
        name: name.to_string(),
        ty: pointer(elem, false),
        array_len: Some(len.to_string()),
        c_string: false,
    }
}

fn string(name: &str, elem: &str) -> RawField {
    RawField { name: name.to_string(), ty: pointer(elem, false), array_len: None, c_string: true }
}

fn error_of(raw: &[RawField]) -> SchemaError {
    match TypeDescriptor::new(raw) {
        Ok(_) => panic!("the schema was accepted"),
        Err(e) => e,
    }
}

#[test]
fn valid_schema_keeps_order_names_and_kinds() {
    let raw = vec![plain("count", "u32"), array("elements", "u32", "count"), string("label", "c_char")];
    let d = TypeDescriptor::new(&raw).unwrap();
    assert_eq!(d.len(), 3);
    assert_eq!(d.kind(0), FieldKind::Scalar(ScalarType::U32));
    assert_eq!(d.kind(1), FieldKind::LengthTaggedArray { elem: ScalarType::U32, len_field: 0 });
    assert_eq!(d.kind(2), FieldKind::SentinelString(ScalarType::I8));
    assert_eq!(d.field(0).name, "count");
    assert_eq!(d.field(1).name, "elements");
    assert_eq!(d.field(2).name, "label");
    assert_eq!(d.field(1).kind, d.kind(1));
}

#[test]
fn empty_schema_is_valid() {
    let d = TypeDescriptor::new(&[]).unwrap();
    assert_eq!(d.len(), 0);
}

#[test]
fn type_names_with_a_codec() {
    assert_eq!(scalar_type_named(&"i8".to_string()), Some(ScalarType::I8));
    assert_eq!(scalar_type_named(&"c_char".to_string()), Some(ScalarType::I8));
    assert_eq!(scalar_type_named(&"u32".to_string()), Some(ScalarType::U32));
    assert_eq!(scalar_type_named(&"u64".to_string()), None);
    assert_eq!(scalar_type_named(&"".to_string()), None);
}

#[test]
fn array_with_unknown_length_field_is_rejected() {
    let raw = vec![plain("count", "u32"), array("elements", "u32", "size")];
    assert_eq!(error_of(&raw), SchemaError::UnknownLengthField);
}

#[test]
fn array_with_later_length_field_is_rejected() {
    let raw = vec![array("elements", "u32", "count"), plain("count", "u32")];
    assert_eq!(error_of(&raw), SchemaError::ForwardLengthField);
}

#[test]
fn array_that_counts_by_itself_is_rejected() {
    let raw = vec![array("elements", "u32", "elements")];
    assert_eq!(error_of(&raw), SchemaError::ForwardLengthField);
}

#[test]
fn array_that_counts_by_a_pointer_field_is_rejected() {
    let raw = vec![string("label", "c_char"), array("elements", "u32", "label")];
    assert_eq!(error_of(&raw), SchemaError::LengthFieldNotScalar);
    let raw = vec![
        plain("n", "u32"),
        array("first", "u32", "n"),
        array("second", "u32", "first"),
    ];
    assert_eq!(error_of(&raw), SchemaError::LengthFieldNotScalar);
}

#[test]
fn tag_on_a_field_that_is_no_pointer_is_rejected() {
    let mut f = plain("elements", "u32");
    f.array_len = Some("count".to_string());
    assert_eq!(error_of(&[plain("count", "u32"), f]), SchemaError::NotAPointer);
    let mut g = plain("label", "i8");
    g.c_string = true;
    assert_eq!(error_of(&[g]), SchemaError::NotAPointer);
}

#[test]
fn tag_on_a_mutable_pointer_is_rejected() {
    let mut f = array("elements", "u32", "count");
    f.ty = pointer("u32", true);
    assert_eq!(error_of(&[plain("count", "u32"), f]), SchemaError::MutablePointer);
    let mut g = string("label", "c_char");
    g.ty = pointer("c_char", true);
    assert_eq!(error_of(&[g]), SchemaError::MutablePointer);
}

#[test]
fn string_of_wide_elements_is_rejected() {
    assert_eq!(error_of(&[string("label", "u32")]), SchemaError::MultiByteString);
}

#[test]
fn field_with_both_tags_is_rejected() {
    let mut f = array("elements", "c_char", "count");
    f.c_string = true;
    assert_eq!(error_of(&[plain("count", "u32"), f]), SchemaError::ConflictingKinds);
}

#[test]
fn type_without_a_codec_is_rejected() {
    assert_eq!(error_of(&[plain("x", "f64")]), SchemaError::TypeWithoutCodec);
    assert_eq!(error_of(&[plain("n", "u32"), array("xs", "u64", "n")]), SchemaError::TypeWithoutCodec);
    assert_eq!(error_of(&[string("s", "wchar_t")]), SchemaError::TypeWithoutCodec);
}

#[test]
fn untagged_pointer_is_rejected() {
    let f = RawField {
        name: "p".to_string(),
        ty: pointer("u32", false),
        array_len: None,
        c_string: false,
    };
    assert_eq!(error_of(&[f]), SchemaError::TypeWithoutCodec);
}

#[test]
fn first_invalid_field_decides_the_error() {
    let raw = vec![plain("x", "f64"), array("elements", "u32", "nowhere")];
    assert_eq!(error_of(&raw), SchemaError::TypeWithoutCodec);
    let raw = vec![array("elements", "u32", "nowhere"), plain("x", "f64")];
    assert_eq!(error_of(&raw), SchemaError::UnknownLengthField);
}

#[test]
fn length_field_may_be_any_earlier_scalar() {
    let raw = vec![plain("a", "u32"), plain("n", "i8"), array("xs", "i8", "n")];
    let d = TypeDescriptor::new(&raw).unwrap();
    assert_eq!(d.kind(2), FieldKind::LengthTaggedArray { elem: ScalarType::I8, len_field: 1 });
}
