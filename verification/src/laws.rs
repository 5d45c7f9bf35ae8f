//! What holds between the serializer, the deserializer and the schema
//! rules.

use crate::codec::{lemma_scalar_round_trip, Dump, Scalar};
use crate::record::{
    array_bytes, as_bytes, conforms, count_at, encoding, field_bytes, field_conforms, first_zero,
    lemma_array_bytes_grows, lemma_array_bytes_len, lemma_first_zero, lemma_first_zero_is, lemma_prefix_bytes_grows, prefix_bytes, str_bytes,
    FieldValue,
};
use crate::schema::{
    schema_of, field_kind_of, schema_prefix, find_name, lemma_schema_error_stays, lemma_find_name,
    well_formed, FieldKind, RawField,
};
use crate::view::{
    array_width, chars_at, decode_field, decode_prefix, decoding, elements_at,
    lemma_array_width, FieldView,
};
use vstd::prelude::*;

verus! {

/// The view that field `i` decodes to once the record stands encoded at
/// the front of a buffer: a scalar as itself, a pointer field as the place
/// where its bytes begin.
pub open spec fn view_of(kinds: Seq<FieldKind>, vals: Seq<FieldValue>, i: int) -> FieldView {
    let at = prefix_bytes(kinds, vals, i as nat).len();
    match vals[i] {
        FieldValue::Scalar(v) => FieldView::Scalar(v),
        FieldValue::Array(_) => FieldView::Array {
            offset: at as usize,
            count: count_at(kinds, vals, i) as usize,
        },
        FieldValue::Str(cs) => FieldView::Str {
            offset: at as usize,
            len: str_bytes(cs@).len() as usize,
        },
    }
}

/// The views of the first `n` fields.
pub open spec fn views_of(kinds: Seq<FieldKind>, vals: Seq<FieldValue>, n: nat) -> Seq<FieldView> {
    Seq::new(n, |i: int| view_of(kinds, vals, i))
}

/// The summed widths of the first `n` fields, all of them scalars.
pub open spec fn scalar_widths(kinds: Seq<FieldKind>, n: nat) -> nat
    decreases n,
{
    if n == 0 {
        0
    } else {
        scalar_widths(kinds, (n - 1) as nat) + match kinds[n - 1] {
            FieldKind::Scalar(t) => t.width(),
            _ => 0,
        }
    }
}

/// Decoding the first `n` fields of a buffer that begins with their
/// encoding gives their views and leaves the cursor right after them.
pub proof fn lemma_decode_encoded_prefix(
    kinds: Seq<FieldKind>,
    vals: Seq<FieldValue>,
    bytes: Seq<u8>,
    n: nat,
)
    requires
        well_formed(kinds),
        conforms(kinds, vals),
        n <= vals.len(),
        prefix_bytes(kinds, vals, n).len() <= bytes.len(),
        bytes.take(prefix_bytes(kinds, vals, n).len() as int) == prefix_bytes(kinds, vals, n),
    ensures
        decode_prefix(kinds, bytes, n) == Some(
            (views_of(kinds, vals, n), prefix_bytes(kinds, vals, n).len()),
        ),
    decreases n,
{
    if n == 0 {
        assert(views_of(kinds, vals, 0) =~= Seq::empty());
    } else {
        let m = (n - 1) as nat;
        let before = prefix_bytes(kinds, vals, m);
        let whole = prefix_bytes(kinds, vals, n);
        let f = field_bytes(kinds, vals, m as int);
        let cur = before.len();
        lemma_prefix_bytes_grows(kinds, vals, m, n);
        assert(bytes.take(cur as int) =~= bytes.take(whole.len() as int).take(cur as int));
        lemma_decode_encoded_prefix(kinds, vals, bytes, m);
        let views = views_of(kinds, vals, m);
        assert(field_conforms(kinds, vals, m as int));
        assert forall|k: int| 0 <= k < f.len() implies bytes[cur + k] == f[k] by {
            assert(bytes.take(whole.len() as int)[cur + k] == whole[cur + k]);
        }
        match vals[m as int] {
            FieldValue::Scalar(v) => {
                lemma_scalar_round_trip(v, bytes.skip((cur + f.len()) as int));
                assert(bytes.skip(cur as int) =~= v.encoding() + bytes.skip((cur + f.len()) as int));
            },
            FieldValue::Array(es) => {
                if let FieldKind::LengthTaggedArray { elem, len_field } = kinds[m as int] {
                    assert(kinds[len_field as int] is Scalar);
                    assert(field_conforms(kinds, vals, len_field as int));
                    assert(views[len_field as int] == view_of(kinds, vals, len_field as int));
                    lemma_array_bytes_len(es@, elem, count_at(kinds, vals, m as int));
                }
            },
            FieldValue::Str(cs) => {
                let a = as_bytes(cs@);
                let z = first_zero(a, 0);
                lemma_first_zero(a, 0);
                assert forall|k: int| cur <= k < cur + z implies bytes[k] != 0 by {
                    assert(bytes[cur + (k - cur)] == f[k - cur]);
                }
                assert(bytes[cur + z] == f[z]);
                lemma_first_zero_is(bytes, cur as int, cur + z);
            },
        }
        assert(decode_field(kinds, bytes, views, m as int, cur) == Some(
            (view_of(kinds, vals, m as int), f.len()),
        ));
        assert(views.push(view_of(kinds, vals, m as int)) =~= views_of(kinds, vals, n));
    }
}

/// Round trip: decoding the encoding of a record, whatever follows it in
/// the buffer, gives every scalar back as it was, gives every pointer field
/// a view of the place where its bytes stand, and consumes exactly the
/// bytes that were written.
pub proof fn lemma_round_trip(kinds: Seq<FieldKind>, vals: Seq<FieldValue>, rest: Seq<u8>)
    requires
        well_formed(kinds),
        conforms(kinds, vals),
    ensures
        decoding(kinds, encoding(kinds, vals) + rest) == Some(
            (views_of(kinds, vals, vals.len()), encoding(kinds, vals).len()),
        ),
{
    let bytes = encoding(kinds, vals) + rest;
    assert(bytes.take(encoding(kinds, vals).len() as int) =~= encoding(kinds, vals));
    lemma_decode_encoded_prefix(kinds, vals, bytes, vals.len());
}

/// Symmetry: on a buffer that a record was written to, the deserializer
/// consumes as many bytes as the serializer wrote.
pub proof fn lemma_symmetry(kinds: Seq<FieldKind>, vals: Seq<FieldValue>, rest: Seq<u8>)
    requires
        well_formed(kinds),
        conforms(kinds, vals),
    ensures
        decoding(kinds, encoding(kinds, vals) + rest) is Some,
        decoding(kinds, encoding(kinds, vals) + rest).unwrap().1 == encoding(kinds, vals).len(),
{
    lemma_round_trip(kinds, vals, rest);
}

/// A record of scalars alone takes the summed widths of its fields.
pub proof fn lemma_scalar_prefix_len(kinds: Seq<FieldKind>, vals: Seq<FieldValue>, n: nat)
    requires
        conforms(kinds, vals),
        n <= kinds.len(),
        forall|i: int| 0 <= i < kinds.len() ==> (#[trigger] kinds[i]) is Scalar,
    ensures
        prefix_bytes(kinds, vals, n).len() == scalar_widths(kinds, n),
    decreases n,
{
    if n > 0 {
        lemma_scalar_prefix_len(kinds, vals, (n - 1) as nat);
        assert(field_conforms(kinds, vals, n - 1));
        assert(kinds[n - 1] is Scalar);
        if let FieldValue::Scalar(v) = vals[n - 1] {
            lemma_scalar_round_trip(v, Seq::empty());
        }
    }
}

/// Round trip of a structure without pointers: decoding its encoding gives
/// every field back with its value, and consumes the summed widths of the
/// fields.
pub proof fn lemma_scalar_record_round_trip(
    kinds: Seq<FieldKind>,
    vals: Seq<FieldValue>,
    rest: Seq<u8>,
)
    requires
        conforms(kinds, vals),
        forall|i: int| 0 <= i < kinds.len() ==> (#[trigger] kinds[i]) is Scalar,
    ensures
        decoding(kinds, encoding(kinds, vals) + rest) is Some,
        decoding(kinds, encoding(kinds, vals) + rest).unwrap().0.len() == vals.len(),
        forall|i: int|
            0 <= i < vals.len() ==> vals[i] is Scalar && decoding(
                kinds,
                encoding(kinds, vals) + rest,
            ).unwrap().0[i] == FieldView::Scalar(#[trigger] vals[i]->Scalar_0),
        decoding(kinds, encoding(kinds, vals) + rest).unwrap().1 == scalar_widths(
            kinds,
            kinds.len(),
        ),
{
    lemma_round_trip(kinds, vals, rest);
    lemma_scalar_prefix_len(kinds, vals, kinds.len());
    assert forall|i: int| 0 <= i < vals.len() implies vals[i] is Scalar && views_of(
        kinds,
        vals,
        vals.len(),
    )[i] == FieldView::Scalar(#[trigger] vals[i]->Scalar_0) by {
        assert(field_conforms(kinds, vals, i));
        assert(kinds[i] is Scalar);
    }
}

/// Where the bytes of field `i` stand in a buffer that begins with the
/// encoding of the record: right after those of the fields before it.
pub proof fn lemma_field_bytes_at(
    kinds: Seq<FieldKind>,
    vals: Seq<FieldValue>,
    rest: Seq<u8>,
    i: int,
)
    requires
        0 <= i < vals.len(),
    ensures
        prefix_bytes(kinds, vals, i as nat).len() + field_bytes(kinds, vals, i).len()
            <= encoding(kinds, vals).len(),
        forall|k: int|
            0 <= k < field_bytes(kinds, vals, i).len() ==> (encoding(kinds, vals) + rest)[prefix_bytes(
                kinds,
                vals,
                i as nat,
            ).len() + k] == #[trigger] field_bytes(kinds, vals, i)[k],
{
    let all = encoding(kinds, vals);
    let upto = prefix_bytes(kinds, vals, (i + 1) as nat);
    lemma_prefix_bytes_grows(kinds, vals, (i + 1) as nat, vals.len());
    assert forall|k: int| 0 <= k < field_bytes(kinds, vals, i).len() implies (all + rest)[prefix_bytes(
        kinds,
        vals,
        i as nat,
    ).len() + k] == #[trigger] field_bytes(kinds, vals, i)[k] by {
        let at = prefix_bytes(kinds, vals, i as nat).len() + k;
        assert(all.take(upto.len() as int)[at] == upto[at]);
    }
}

/// In a buffer that a machine can hold, the view of a pointer field names
/// the place where the field's bytes begin and the extent that was written:
/// the announced count of an array, the length of a string with its zero.
pub proof fn lemma_view_places(
    kinds: Seq<FieldKind>,
    vals: Seq<FieldValue>,
    rest: Seq<u8>,
    i: int,
)
    requires
        conforms(kinds, vals),
        0 <= i < vals.len(),
        (encoding(kinds, vals) + rest).len() <= usize::MAX,
    ensures
        match view_of(kinds, vals, i) {
            FieldView::Scalar(v) => vals[i] == FieldValue::Scalar(v),
            FieldView::Array { offset, count } => {
                &&& offset == prefix_bytes(kinds, vals, i as nat).len()
                &&& count == count_at(kinds, vals, i)
            },
            FieldView::Str { offset, len } => {
                &&& vals[i] is Str
                &&& offset == prefix_bytes(kinds, vals, i as nat).len()
                &&& len == str_bytes(vals[i]->Str_0@).len()
            },
        },
{
    lemma_field_bytes_at(kinds, vals, rest, i);
    assert(field_conforms(kinds, vals, i));
}

/// Reading through the view of an array gives the elements that were
/// written: the first `count` of those behind the pointer.
pub proof fn lemma_array_read_back(
    kinds: Seq<FieldKind>,
    vals: Seq<FieldValue>,
    rest: Seq<u8>,
    i: int,
)
    requires
        well_formed(kinds),
        conforms(kinds, vals),
        0 <= i < vals.len(),
        vals[i] is Array,
    ensures
        kinds[i] is LengthTaggedArray,
        elements_at(
            encoding(kinds, vals) + rest,
            kinds[i]->elem,
            prefix_bytes(kinds, vals, i as nat).len(),
            count_at(kinds, vals, i),
        ) == vals[i]->Array_0@.take(count_at(kinds, vals, i) as int),
{
    assert(field_conforms(kinds, vals, i));
    let es = vals[i]->Array_0@;
    let elem = kinds[i]->elem;
    let count = count_at(kinds, vals, i);
    let bytes = encoding(kinds, vals) + rest;
    let at = prefix_bytes(kinds, vals, i as nat).len();
    let f = field_bytes(kinds, vals, i);
    lemma_field_bytes_at(kinds, vals, rest, i);
    assert forall|k: int| 0 <= k < count implies Scalar::decoding_as(
        elem,
        bytes.skip((at + array_width(elem, k as nat)) as int),
    ).unwrap().0 == es[k] by {
        lemma_array_bytes_grows(es, (k + 1) as nat, count);
        lemma_array_bytes_len(es, elem, k as nat);
        lemma_array_bytes_len(es, elem, (k + 1) as nat);
        lemma_array_width(elem, k as nat);
        lemma_array_width(elem, (k + 1) as nat);
        let start = at + array_width(elem, k as nat);
        let e = es[k].encoding();
        let tail = bytes.skip((start + e.len()) as int);
        lemma_scalar_round_trip(es[k], tail);
        assert forall|j: int| 0 <= j < e.len() implies bytes[start + j] == e[j] by {
            let p = array_width(elem, k as nat) + j;
            assert(f.take(array_bytes(es, (k + 1) as nat).len() as int)[p] == array_bytes(
                es,
                (k + 1) as nat,
            )[p]);
            assert(bytes[at + p] == f[p]);
        }
        assert(bytes.skip(start as int) =~= e + tail);
    }
    assert(elements_at(bytes, elem, at, count) =~= es.take(count as int));
}

/// Reading through the view of a string gives the elements that were
/// written: those behind the pointer, up to and including the first zero.
pub proof fn lemma_str_read_back(
    kinds: Seq<FieldKind>,
    vals: Seq<FieldValue>,
    rest: Seq<u8>,
    i: int,
)
    requires
        conforms(kinds, vals),
        0 <= i < vals.len(),
        vals[i] is Str,
    ensures
        chars_at(
            encoding(kinds, vals) + rest,
            prefix_bytes(kinds, vals, i as nat).len(),
            str_bytes(vals[i]->Str_0@).len(),
        ) == vals[i]->Str_0@.take(first_zero(as_bytes(vals[i]->Str_0@), 0) + 1),
{
    assert(field_conforms(kinds, vals, i));
    let cs = vals[i]->Str_0@;
    let bytes = encoding(kinds, vals) + rest;
    let at = prefix_bytes(kinds, vals, i as nat).len();
    let f = field_bytes(kinds, vals, i);
    let z = first_zero(as_bytes(cs), 0);
    lemma_first_zero(as_bytes(cs), 0);
    lemma_field_bytes_at(kinds, vals, rest, i);
    assert forall|k: int| 0 <= k < z + 1 implies (#[trigger] bytes[at + k]) as i8 == cs[k] by {
        assert(bytes[at + k] == f[k]);
        let c = cs[k];
        assert((c as u8) as i8 == c) by (bit_vector);
    }
    assert(chars_at(bytes, at, f.len()) =~= cs.take(z + 1));
}

/// An array whose length field holds zero takes no bytes, whatever stands
/// behind its pointer: nothing is written for it and nothing is consumed.
pub proof fn lemma_empty_array(kinds: Seq<FieldKind>, vals: Seq<FieldValue>, i: int)
    requires
        0 <= i < vals.len(),
        vals[i] is Array,
        kinds[i] is LengthTaggedArray,
        count_at(kinds, vals, i) == 0,
    ensures
        field_bytes(kinds, vals, i).len() == 0,
        array_width(kinds[i]->elem, count_at(kinds, vals, i)) == 0,
{
}

/// Schema rejection: a list of fields in which an array names a length
/// field that no earlier field bears is no valid schema.
pub proof fn lemma_dangling_length_rejected(raw: Seq<RawField>, i: int)
    requires
        0 <= i < raw.len(),
        raw[i].array_len is Some,
        forall|j: int| 0 <= j < i ==> (#[trigger] raw[j]).name@ != raw[i].array_len.unwrap()@,
    ensures
        schema_of(raw) is Err,
{
    let len = raw[i].array_len.unwrap()@;
    lemma_find_name(raw, len, 0);
    assert(field_kind_of(raw, i) is Err);
    assert(schema_prefix(raw, i + 1) is Err);
    lemma_schema_error_stays(raw, i + 1, raw.len() as int);
}

} // verus!
