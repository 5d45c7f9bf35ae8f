//! The field descriptor model: per-field metadata, its validation, and the
//! descriptor that the serializer and the deserializer walk.

use crate::codec::ScalarType;
use vstd::prelude::*;

verus! {

/// The declared type of a field, as far as the schema rules read it.
#[derive(Clone, Debug)]
pub enum RawType {
    /// A type written by its name, such as `u32`.
    Plain(String),
    /// A pointer to elements of the named type.
    Pointer { mutable: bool, elem: String },
}

/// What is known of one field before validation.
#[derive(Clone, Debug)]
pub struct RawField {
    pub name: String,
    pub ty: RawType,
    /// The name of the field that holds the element count, where the field
    /// is tagged as an array.
    pub array_len: Option<String>,
    /// Whether the field is tagged as a zero-terminated string.
    pub c_string: bool,
}

/// Why a list of fields is no valid schema.
#[derive(Clone, Copy, Debug, PartialEq, Eq, Structural)]
pub enum SchemaError {
    /// A field is tagged both as an array and as a string.
    ConflictingKinds,
    /// An array or string tag stands on a field that is no pointer.
    NotAPointer,
    /// An array or string tag stands on a mutable pointer.
    MutablePointer,
    /// A type has no codec, or an untagged field is a pointer.
    TypeWithoutCodec,
    /// No field bears the name that an array gives for its length.
    UnknownLengthField,
    /// The length field of an array is not declared before the array.
    ForwardLengthField,
    /// The length field of an array is itself an array or a string.
    LengthFieldNotScalar,
    /// The elements of a string are wider than one byte.
    MultiByteString,
}

/// How a field is laid out in the buffer.
#[derive(Clone, Copy, Debug, PartialEq, Eq, Structural)]
pub enum FieldKind {
    /// A directly encoded value.
    Scalar(ScalarType),
    /// A pointer to as many elements as the scalar field at position
    /// `len_field` holds at run time.
    LengthTaggedArray { elem: ScalarType, len_field: usize },
    /// A pointer to single-byte elements that end with a zero byte.
    SentinelString(ScalarType),
}

/// One field of a validated schema.
#[derive(Clone, Debug)]
pub struct FieldDescriptor {
    pub name: String,
    pub kind: FieldKind,
}

/// The validated, ordered fields of one structural type.
#[derive(Debug)]
pub struct TypeDescriptor {
    names: Vec<String>,
    kinds: Vec<FieldKind>,
}

/// The scalar type that `name` stands for, if any.
pub open spec fn named_type(name: Seq<char>) -> Option<ScalarType> {
    if name == "i8"@ || name == "c_char"@ {
        Some(ScalarType::I8)
    } else if name == "u32"@ {
        Some(ScalarType::U32)
    } else {
        None
    }
}

/// The position of the first field at or after `from` that is called `name`.
pub open spec fn find_name(raw: Seq<RawField>, name: Seq<char>, from: int) -> Option<int>
    decreases raw.len() - from,
{
    if from < 0 || from >= raw.len() {
        None
    } else if raw[from].name@ == name {
        Some(from)
    } else {
        find_name(raw, name, from + 1)
    }
}

/// The kind of the pointer field `f` of index `i` that is tagged as an
/// array with its length in the field called `len`, or the rule it breaks.
pub open spec fn array_kind_of(raw: Seq<RawField>, i: int, len: Seq<char>) -> Result<
    FieldKind,
    SchemaError,
> {
    match raw[i].ty {
        RawType::Plain(_) => Err(SchemaError::NotAPointer),
        RawType::Pointer { mutable, elem } => if mutable {
            Err(SchemaError::MutablePointer)
        } else {
            match named_type(elem@) {
                None => Err(SchemaError::TypeWithoutCodec),
                Some(t) => match find_name(raw, len, 0) {
                    None => Err(SchemaError::UnknownLengthField),
                    Some(j) => if j >= i {
                        Err(SchemaError::ForwardLengthField)
                    } else if raw[j].array_len.is_some() || raw[j].c_string {
                        Err(SchemaError::LengthFieldNotScalar)
                    } else {
                        Ok(FieldKind::LengthTaggedArray { elem: t, len_field: j as usize })
                    },
                },
            }
        },
    }
}

/// The kind of the field of index `i` that is tagged as a string, or the
/// rule it breaks.
pub open spec fn string_kind_of(raw: Seq<RawField>, i: int) -> Result<FieldKind, SchemaError> {
    match raw[i].ty {
        RawType::Plain(_) => Err(SchemaError::NotAPointer),
        RawType::Pointer { mutable, elem } => if mutable {
            Err(SchemaError::MutablePointer)
        } else {
            match named_type(elem@) {
                None => Err(SchemaError::TypeWithoutCodec),
                Some(t) => if t.width() != 1 {
                    Err(SchemaError::MultiByteString)
                } else {
                    Ok(FieldKind::SentinelString(t))
                },
            }
        },
    }
}

/// The kind of the field of index `i`, or the first rule that it breaks.
pub open spec fn field_kind_of(raw: Seq<RawField>, i: int) -> Result<FieldKind, SchemaError> {
    let f = raw[i];
    if f.array_len.is_some() && f.c_string {
        Err(SchemaError::ConflictingKinds)
    } else if f.array_len.is_some() {
        array_kind_of(raw, i, f.array_len.unwrap()@)
    } else if f.c_string {
        string_kind_of(raw, i)
    } else {
        match f.ty {
            RawType::Plain(n) => match named_type(n@) {
                None => Err(SchemaError::TypeWithoutCodec),
                Some(t) => Ok(FieldKind::Scalar(t)),
            },
            RawType::Pointer { .. } => Err(SchemaError::TypeWithoutCodec),
        }
    }
}

/// The kinds of the first `n` fields, or the error of the first field
/// among them that breaks a rule.
pub open spec fn schema_prefix(raw: Seq<RawField>, n: int) -> Result<Seq<FieldKind>, SchemaError>
    decreases n,
{
    if n <= 0 {
        Ok(Seq::empty())
    } else {
        match schema_prefix(raw, n - 1) {
            Err(e) => Err(e),
            Ok(kinds) => match field_kind_of(raw, n - 1) {
                Err(e) => Err(e),
                Ok(k) => Ok(kinds.push(k)),
            },
        }
    }
}

/// The kinds of all the fields, or the error of the first invalid field.
pub open spec fn schema_of(raw: Seq<RawField>) -> Result<Seq<FieldKind>, SchemaError> {
    schema_prefix(raw, raw.len() as int)
}

/// Whether every array counts by an earlier scalar field and every string
/// has single-byte elements.
pub open spec fn well_formed(kinds: Seq<FieldKind>) -> bool {
    forall|i: int|
        0 <= i < kinds.len() ==> match #[trigger] kinds[i] {
            FieldKind::Scalar(_) => true,
            FieldKind::LengthTaggedArray { elem, len_field } => len_field < i
                && kinds[len_field as int] is Scalar,
            FieldKind::SentinelString(t) => t.width() == 1,
        }
}

/// Where `find_name` finds a field, it bears the name and stands at or
/// after `from`; where it finds none, no field from `from` on bears it.
pub proof fn lemma_find_name(raw: Seq<RawField>, name: Seq<char>, from: int)
    requires
        0 <= from,
    ensures
        match find_name(raw, name, from) {
            Some(j) => from <= j < raw.len() && raw[j].name@ == name,
            None => forall|j: int| from <= j < raw.len() ==> (#[trigger] raw[j]).name@ != name,
        },
    decreases raw.len() - from,
{
    if from < raw.len() && raw[from].name@ != name {
        lemma_find_name(raw, name, from + 1);
    }
}

/// The scalar type that `name` stands for, if any.
pub fn scalar_type_named(name: &String) -> (r: Option<ScalarType>)
    ensures
        r == named_type(name@),
{
    if *name == "i8".to_owned() || *name == "c_char".to_owned() {
        Some(ScalarType::I8)
    } else if *name == "u32".to_owned() {
        Some(ScalarType::U32)
    } else {
        None
    }
}

/// The position of the first field called `name`.
fn position(raw: &[RawField], name: &String) -> (r: Option<usize>)
    ensures
        match r {
            Some(j) => find_name(raw@, name@, 0) == Some(j as int),
            None => find_name(raw@, name@, 0) is None,
        },
{
    let mut i: usize = 0;
    while i < raw.len()
        invariant
            i <= raw@.len(),
            find_name(raw@, name@, 0) == find_name(raw@, name@, i as int),
        decreases raw@.len() - i,
    {
        if raw[i].name == *name {
            return Some(i);
        }
        i += 1;
    }
    None
}

/// Checks the field of index `i` against the schema rules.
fn validate_field(raw: &[RawField], i: usize) -> (r: Result<FieldKind, SchemaError>)
    requires
        i < raw@.len(),
    ensures
        r == field_kind_of(raw@, i as int),
{
    let f = &raw[i];
    if f.array_len.is_some() && f.c_string {
        return Err(SchemaError::ConflictingKinds);
    }
    match &f.ty {
        RawType::Plain(n) => {
            if f.array_len.is_some() || f.c_string {
                Err(SchemaError::NotAPointer)
            } else {
                match scalar_type_named(n) {
                    None => Err(SchemaError::TypeWithoutCodec),
                    Some(t) => Ok(FieldKind::Scalar(t)),
                }
            }
        },
        RawType::Pointer { mutable, elem } => {
            if !f.array_len.is_some() && !f.c_string {
                return Err(SchemaError::TypeWithoutCodec);
            }
            if *mutable {
                return Err(SchemaError::MutablePointer);
            }
            let t = match scalar_type_named(elem) {
                None => { return Err(SchemaError::TypeWithoutCodec); },
                Some(t) => t,
            };
            match &f.array_len {
                Some(len) => match position(raw, len) {
                    None => Err(SchemaError::UnknownLengthField),
                    Some(j) => if j >= i {
                        Err(SchemaError::ForwardLengthField)
                    } else if raw[j].array_len.is_some() || raw[j].c_string {
                        Err(SchemaError::LengthFieldNotScalar)
                    } else {
                        Ok(FieldKind::LengthTaggedArray { elem: t, len_field: j })
                    },
                },
                None => if t.size() != 1 {
                    Err(SchemaError::MultiByteString)
                } else {
                    Ok(FieldKind::SentinelString(t))
                },
            }
        },
    }
}

impl TypeDescriptor {
    /// The kinds of the fields, in declaration order.
    pub closed spec fn kinds(&self) -> Seq<FieldKind> {
        self.kinds@
    }

    /// The names of the fields, in declaration order.
    pub closed spec fn names(&self) -> Seq<String> {
        self.names@
    }

    /// The invariant of a descriptor: a name for each kind, and kinds that
    /// are well formed. Every descriptor meets it.
    #[verifier::type_invariant]
    pub open spec fn wf(&self) -> bool {
        self.names().len() == self.kinds().len() && well_formed(self.kinds())
    }

    /// Validates `raw` and builds its descriptor. Fails with the error of
    /// the first field that breaks a rule.
    pub fn new(raw: &[RawField]) -> (r: Result<TypeDescriptor, SchemaError>)
        ensures
            match r {
                Ok(d) => {
                    &&& schema_of(raw@) == Ok::<Seq<FieldKind>, SchemaError>(d.kinds())
                    &&& d.wf()
                    &&& d.names().len() == raw@.len()
                    &&& forall|i: int| 0 <= i < raw@.len() ==> d.names()[i] == raw@[i].name
                },
                Err(e) => schema_of(raw@) == Err::<Seq<FieldKind>, SchemaError>(e),
            },
    {
        let mut names: Vec<String> = Vec::new();
        let mut kinds: Vec<FieldKind> = Vec::new();
        let mut i: usize = 0;
        while i < raw.len()
            invariant
                i <= raw@.len(),
                names@.len() == i,
                kinds@.len() == i,
                schema_prefix(raw@, i as int) == Ok::<Seq<FieldKind>, SchemaError>(kinds@),
                forall|j: int| 0 <= j < i ==> field_kind_of(raw@, j) == Ok::<FieldKind, SchemaError>(#[trigger] kinds@[j]),
                forall|j: int| 0 <= j < i ==> names@[j] == raw@[j].name,
                well_formed(kinds@),
            decreases raw@.len() - i,
        {
            match validate_field(raw, i) {
                Err(e) => {
                    proof {
                        lemma_schema_error_stays(raw@, i as int + 1, raw@.len() as int);
                    }
                    return Err(e);
                },
                Ok(k) => {
                    let ghost before = kinds@;
                    names.push(raw[i].name.clone());
                    kinds.push(k);
                    proof {
                        if let FieldKind::LengthTaggedArray { elem, len_field } = k {
                            lemma_find_name(raw@, raw@[i as int].array_len.unwrap()@, 0);
                            assert(field_kind_of(raw@, len_field as int) == Ok::<
                                FieldKind,
                                SchemaError,
                            >(before[len_field as int]));
                        }
                        assert forall|j: int| 0 <= j < kinds@.len() implies match #[trigger] kinds@[j] {
                            FieldKind::Scalar(_) => true,
                            FieldKind::LengthTaggedArray { elem, len_field } => len_field < j
                                && kinds@[len_field as int] is Scalar,
                            FieldKind::SentinelString(t) => t.width() == 1,
                        } by {
                            if j < i {
                                assert(kinds@[j] == before[j]);
                            }
                        }
                    }
                },
            }
            i += 1;
        }
        Ok(TypeDescriptor { names, kinds })
    }

    /// The number of fields.
    pub fn len(&self) -> (n: usize)
        ensures
            n == self.kinds().len(),
    {
        self.kinds.len()
    }

    /// The kind of the field of index `i`.
    pub fn kind(&self, i: usize) -> (k: FieldKind)
        requires
            i < self.kinds().len(),
        ensures
            k == self.kinds()[i as int],
    {
        self.kinds[i]
    }

    /// The field of index `i`, with its name.
    pub fn field(&self, i: usize) -> (f: FieldDescriptor)
        requires
            i < self.kinds().len(),
        ensures
            f.kind == self.kinds()[i as int],
            f.name == self.names()[i as int],
    {
        proof {
            use_type_invariant(self);
        }
        FieldDescriptor { name: self.names[i].clone(), kind: self.kinds[i] }
    }
}

/// An error among the first `n` fields is the error of every longer prefix.
pub proof fn lemma_schema_error_stays(raw: Seq<RawField>, n: int, m: int)
    requires
        0 <= n <= m,
        schema_prefix(raw, n) is Err,
    ensures
        schema_prefix(raw, m) == schema_prefix(raw, n),
    decreases m - n,
{
    if n < m {
        lemma_schema_error_stays(raw, n, m - 1);
    }
}

} // verus!
