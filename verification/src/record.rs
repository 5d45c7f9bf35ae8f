//! Structure instances and the serializer: what a record encodes to, and
//! `dump`, which writes exactly that.

use crate::codec::{lemma_scalar_round_trip, Dump, Scalar, ScalarType};
use crate::view::{array_width, lemma_array_width};
use crate::schema::{FieldKind, TypeDescriptor};
use vstd::prelude::*;

verus! {

/// The run-time value of one field. A pointer field holds the memory that
/// the pointer refers to.
#[derive(Clone, Debug)]
pub enum FieldValue {
    /// A directly held value.
    Scalar(Scalar),
    /// The elements behind an array pointer; at least as many as the length
    /// field announces.
    Array(Vec<Scalar>),
    /// The single-byte elements behind a string pointer; a zero is among
    /// them.
    Str(Vec<i8>),
}

/// An instance of a structural type: one value for each field.
#[derive(Clone, Debug)]
pub struct Record {
    pub fields: Vec<FieldValue>,
}

/// Why a record was not written.
#[derive(Clone, Copy, Debug, PartialEq, Eq, Structural)]
pub enum DumpError {
    /// The record is no instance of the described type.
    NotAnInstance,
    /// The buffer is shorter than the encoding of the record.
    BufferExhausted,
}

/// The position of the first zero byte at or after `from`, or the length of
/// `bytes` where there is none.
pub open spec fn first_zero(bytes: Seq<u8>, from: int) -> int
    decreases bytes.len() - from,
{
    if from < 0 || from >= bytes.len() {
        from
    } else if bytes[from] == 0 {
        from
    } else {
        first_zero(bytes, from + 1)
    }
}

/// Each single-byte element as the byte that it is written as.
pub open spec fn as_bytes(cs: Seq<i8>) -> Seq<u8> {
    Seq::new(cs.len(), |k: int| cs[k] as u8)
}

/// The bytes of a string: its elements up to and including the first zero.
pub open spec fn str_bytes(cs: Seq<i8>) -> Seq<u8> {
    as_bytes(cs).take(first_zero(as_bytes(cs), 0) + 1)
}

/// The bytes of the first `count` elements of an array, in order.
pub open spec fn array_bytes(es: Seq<Scalar>, count: nat) -> Seq<u8>
    decreases count,
{
    if count == 0 {
        Seq::empty()
    } else {
        array_bytes(es, (count - 1) as nat) + es[count - 1].encoding()
    }
}

/// The number of elements of the array field `i`: the run-time value of its
/// length field.
pub open spec fn count_at(kinds: Seq<FieldKind>, vals: Seq<FieldValue>, i: int) -> nat {
    match kinds[i] {
        FieldKind::LengthTaggedArray { elem, len_field } => match vals[len_field as int] {
            FieldValue::Scalar(c) => c.count(),
            _ => 0,
        },
        _ => 0,
    }
}

/// Whether the value of field `i` fits its kind.
pub open spec fn field_conforms(kinds: Seq<FieldKind>, vals: Seq<FieldValue>, i: int) -> bool {
    match (kinds[i], vals[i]) {
        (FieldKind::Scalar(t), FieldValue::Scalar(v)) => v.ty() == t,
        (FieldKind::LengthTaggedArray { elem, len_field }, FieldValue::Array(es)) => {
            &&& es@.len() >= count_at(kinds, vals, i)
            &&& forall|k: int| 0 <= k < count_at(kinds, vals, i) ==> (#[trigger] es@[k]).ty() == elem
        },
        (FieldKind::SentinelString(_), FieldValue::Str(cs)) => first_zero(as_bytes(cs@), 0)
            < cs@.len(),
        _ => false,
    }
}

/// Whether `vals` is an instance of the type with fields `kinds`.
pub open spec fn conforms(kinds: Seq<FieldKind>, vals: Seq<FieldValue>) -> bool {
    &&& kinds.len() == vals.len()
    &&& forall|i: int| 0 <= i < kinds.len() ==> #[trigger] field_conforms(kinds, vals, i)
}

/// The bytes that field `i` contributes.
pub open spec fn field_bytes(kinds: Seq<FieldKind>, vals: Seq<FieldValue>, i: int) -> Seq<u8> {
    match vals[i] {
        FieldValue::Scalar(v) => v.encoding(),
        FieldValue::Array(es) => array_bytes(es@, count_at(kinds, vals, i)),
        FieldValue::Str(cs) => str_bytes(cs@),
    }
}

/// The bytes of the first `n` fields, in declaration order, with nothing
/// between them.
pub open spec fn prefix_bytes(kinds: Seq<FieldKind>, vals: Seq<FieldValue>, n: nat) -> Seq<u8>
    decreases n,
{
    if n == 0 {
        Seq::empty()
    } else {
        prefix_bytes(kinds, vals, (n - 1) as nat) + field_bytes(kinds, vals, n - 1)
    }
}

/// The wire format of a whole record.
pub open spec fn encoding(kinds: Seq<FieldKind>, vals: Seq<FieldValue>) -> Seq<u8> {
    prefix_bytes(kinds, vals, vals.len())
}

/// What `first_zero` finds: nothing before it is zero, and it is a zero
/// unless it is the end.
pub proof fn lemma_first_zero(bytes: Seq<u8>, from: int)
    requires
        0 <= from <= bytes.len(),
    ensures
        from <= first_zero(bytes, from) <= bytes.len(),
        forall|k: int| from <= k < first_zero(bytes, from) ==> bytes[k] != 0,
        first_zero(bytes, from) < bytes.len() ==> bytes[first_zero(bytes, from)] == 0,
    decreases bytes.len() - from,
{
    if from < bytes.len() && bytes[from] != 0 {
        lemma_first_zero(bytes, from + 1);
    }
}

/// A zero with no zero between `from` and it is what `first_zero` finds.
pub proof fn lemma_first_zero_is(bytes: Seq<u8>, from: int, z: int)
    requires
        0 <= from <= z < bytes.len(),
        bytes[z] == 0,
        forall|k: int| from <= k < z ==> bytes[k] != 0,
    ensures
        first_zero(bytes, from) == z,
    decreases z - from,
{
    if from < z {
        lemma_first_zero_is(bytes, from + 1, z);
    }
}

/// The bytes of fewer elements are the front of the bytes of more.
pub proof fn lemma_array_bytes_grows(es: Seq<Scalar>, k: nat, count: nat)
    requires
        k <= count,
    ensures
        array_bytes(es, k).len() <= array_bytes(es, count).len(),
        array_bytes(es, count).take(array_bytes(es, k).len() as int) == array_bytes(es, k),
    decreases count - k,
{
    if k < count {
        lemma_array_bytes_grows(es, k, (count - 1) as nat);
        assert(array_bytes(es, count).take(array_bytes(es, k).len() as int) =~= array_bytes(
            es,
            (count - 1) as nat,
        ).take(array_bytes(es, k).len() as int));
    } else {
        assert(array_bytes(es, count).take(array_bytes(es, k).len() as int) =~= array_bytes(es, k));
    }
}

/// An array of `count` elements of one type takes `count` times the width
/// of that type.
pub proof fn lemma_array_bytes_len(es: Seq<Scalar>, elem: ScalarType, count: nat)
    requires
        count <= es.len(),
        forall|k: int| 0 <= k < count ==> (#[trigger] es[k]).ty() == elem,
    ensures
        array_bytes(es, count).len() == array_width(elem, count),
    decreases count,
{
    lemma_array_width(elem, count);
    if count > 0 {
        lemma_array_bytes_len(es, elem, (count - 1) as nat);
        lemma_array_width(elem, (count - 1) as nat);
        lemma_scalar_round_trip(es[count - 1], Seq::empty());
    }
}

/// The bytes of fewer fields are the front of the bytes of more.
pub proof fn lemma_prefix_bytes_grows(
    kinds: Seq<FieldKind>,
    vals: Seq<FieldValue>,
    n: nat,
    m: nat,
)
    requires
        n <= m,
    ensures
        prefix_bytes(kinds, vals, n).len() <= prefix_bytes(kinds, vals, m).len(),
        prefix_bytes(kinds, vals, m).take(prefix_bytes(kinds, vals, n).len() as int)
            == prefix_bytes(kinds, vals, n),
    decreases m - n,
{
    if n < m {
        lemma_prefix_bytes_grows(kinds, vals, n, (m - 1) as nat);
        assert(prefix_bytes(kinds, vals, m).take(prefix_bytes(kinds, vals, n).len() as int)
            =~= prefix_bytes(kinds, vals, (m - 1) as nat).take(
            prefix_bytes(kinds, vals, n).len() as int,
        ));
    } else {
        assert(prefix_bytes(kinds, vals, m).take(prefix_bytes(kinds, vals, n).len() as int)
            =~= prefix_bytes(kinds, vals, n));
    }
}

/// Writes `v` into `buf` from position `at` on; returns the position after
/// what was written.
pub fn write_at<T: Dump>(v: &T, buf: &mut [u8], at: usize) -> (end: usize)
    requires
        at + v.encoding().len() <= old(buf)@.len(),
    ensures
        end == at + v.encoding().len(),
        final(buf)@ == old(buf)@.take(at as int) + v.encoding() + old(buf)@.skip(end as int),
{
    let capacity = buf.len();
    let (_, tail) = buf.split_at_mut(at);
    let w = v.dump(tail);
    assert(buf@ =~= old(buf)@.take(at as int) + v.encoding() + old(buf)@.skip(at + w));
    assert(at + w <= capacity);
    at + w
}

/// Writes the first `count` elements of `es` into `buf` from position `at`
/// on, each by its own codec; returns the position after them.
pub fn dump_array(es: &Vec<Scalar>, count: usize, buf: &mut [u8], at: usize) -> (end: usize)
    requires
        count <= es@.len(),
        at + array_bytes(es@, count as nat).len() <= old(buf)@.len(),
    ensures
        end == at + array_bytes(es@, count as nat).len(),
        final(buf)@ == old(buf)@.take(at as int) + array_bytes(es@, count as nat) + old(
            buf,
        )@.skip(end as int),
{
    let ghost start = buf@;
    let mut end: usize = at;
    let mut k: usize = 0;
    while k < count
        invariant
            k <= count <= es@.len(),
            buf@.len() == start.len(),
            at + array_bytes(es@, count as nat).len() <= start.len(),
            end == at + array_bytes(es@, k as nat).len(),
            buf@ == start.take(at as int) + array_bytes(es@, k as nat) + start.skip(end as int),
        decreases count - k,
    {
        proof {
            lemma_array_bytes_grows(es@, (k + 1) as nat, count as nat);
        }
        let next = write_at(&es[k], buf, end);
        assert(buf@ =~= start.take(at as int) + array_bytes(es@, (k + 1) as nat) + start.skip(
            next as int,
        ));
        end = next;
        k += 1;
    }
    end
}

/// Writes the elements of `cs` into `buf` from position `at` on, one at a
/// time, and stops after the first zero; returns the position after it.
pub fn dump_str(cs: &Vec<i8>, buf: &mut [u8], at: usize) -> (end: usize)
    requires
        first_zero(as_bytes(cs@), 0) < cs@.len(),
        at + str_bytes(cs@).len() <= old(buf)@.len(),
    ensures
        end == at + str_bytes(cs@).len(),
        final(buf)@ == old(buf)@.take(at as int) + str_bytes(cs@) + old(buf)@.skip(end as int),
{
    let ghost start = buf@;
    let ghost z = first_zero(as_bytes(cs@), 0);
    proof {
        lemma_first_zero(as_bytes(cs@), 0);
    }
    let mut end: usize = at;
    let mut i: usize = 0;
    let mut done = false;
    while !done
        invariant
            0 <= z < cs@.len(),
            z == first_zero(as_bytes(cs@), 0),
            forall|k: int| 0 <= k < z ==> as_bytes(cs@)[k] != 0,
            as_bytes(cs@)[z] == 0,
            buf@.len() == start.len(),
            at + z + 1 <= start.len(),
            if done { i == z + 1 } else { i <= z },
            end == at + i,
            buf@ == start.take(at as int) + as_bytes(cs@).take(i as int) + start.skip(end as int),
        decreases z + 1 - i + (if done { 0int } else { 1int }),
    {
        let c = cs[i];
        let next = write_at(&c, buf, end);
        assert(c.encoding() =~= seq![as_bytes(cs@)[i as int]]);
        assert(buf@ =~= start.take(at as int) + as_bytes(cs@).take(i + 1) + start.skip(
            next as int,
        ));
        end = next;
        i += 1;
        if c as u8 == 0 {
            done = true;
        }
    }
    end
}

/// The serializer: writes the fields of `rec` into `buf` in declaration
/// order, with nothing between them, and returns the number of bytes
/// written. The count of an array is read from the record, never from the
/// buffer. Bytes of `buf` after those written are left as they were.
pub fn dump(desc: &TypeDescriptor, rec: &Record, buf: &mut [u8]) -> (n: usize)
    requires
        conforms(desc.kinds(), rec.fields@),
        encoding(desc.kinds(), rec.fields@).len() <= old(buf)@.len(),
    ensures
        n == encoding(desc.kinds(), rec.fields@).len(),
        final(buf)@ == encoding(desc.kinds(), rec.fields@) + old(buf)@.skip(n as int),
{
    proof {
        use_type_invariant(desc);
    }
    let ghost start = buf@;
    let ghost kinds = desc.kinds();
    let ghost vals = rec.fields@;
    let mut n: usize = 0;
    let mut i: usize = 0;
    while i < rec.fields.len()
        invariant
            desc.wf(),
            kinds == desc.kinds(),
            vals == rec.fields@,
            conforms(kinds, vals),
            i <= vals.len(),
            buf@.len() == start.len(),
            encoding(kinds, vals).len() <= start.len(),
            n == prefix_bytes(kinds, vals, i as nat).len(),
            buf@ == prefix_bytes(kinds, vals, i as nat) + start.skip(n as int),
        decreases vals.len() - i,
    {
        proof {
            lemma_prefix_bytes_grows(kinds, vals, (i + 1) as nat, vals.len());
            assert(field_conforms(kinds, vals, i as int));
        }
        let next = match &rec.fields[i] {
            FieldValue::Scalar(v) => write_at(v, buf, n),
            FieldValue::Array(es) => {
                let count = array_count(desc, rec, i);
                dump_array(es, count, buf, n)
            },
            FieldValue::Str(cs) => dump_str(cs, buf, n),
        };
        assert(buf@ =~= prefix_bytes(kinds, vals, (i + 1) as nat) + start.skip(next as int));
        n = next;
        i += 1;
    }
    n
}

/// The number of elements of the array field `i` of `rec`: the current
/// value of its length field.
pub fn array_count(desc: &TypeDescriptor, rec: &Record, i: usize) -> (count: usize)
    requires
        conforms(desc.kinds(), rec.fields@),
        i < rec.fields@.len(),
    ensures
        count == count_at(desc.kinds(), rec.fields@, i as int),
{
    proof {
        use_type_invariant(desc);
    }
    match desc.kind(i) {
        FieldKind::LengthTaggedArray { elem, len_field } => {
            match &rec.fields[len_field] {
                FieldValue::Scalar(c) => c.as_count(),
                _ => 0,
            }
        },
        _ => 0,
    }
}

/// Whether `es` holds at least `count` elements and the first `count` are
/// of type `elem`.
fn elements_fit(es: &Vec<Scalar>, elem: ScalarType, count: usize) -> (b: bool)
    ensures
        b == (es@.len() >= count && forall|k: int|
            0 <= k < count ==> (#[trigger] es@[k]).ty() == elem),
{
    if es.len() < count {
        return false;
    }
    let mut k: usize = 0;
    while k < count
        invariant
            k <= count <= es@.len(),
            forall|j: int| 0 <= j < k ==> (#[trigger] es@[j]).ty() == elem,
        decreases count - k,
    {
        if es[k].scalar_type() != elem {
            return false;
        }
        k += 1;
    }
    true
}

/// The position of the first zero among `cs`, or their number where none
/// is zero.
fn terminator(cs: &Vec<i8>) -> (z: usize)
    ensures
        z == first_zero(as_bytes(cs@), 0),
        z <= cs@.len(),
{
    let mut i: usize = 0;
    while i < cs.len() && cs[i] as u8 != 0
        invariant
            i <= cs@.len(),
            forall|k: int| 0 <= k < i ==> as_bytes(cs@)[k] != 0,
        decreases cs@.len() - i,
    {
        i += 1;
    }
    proof {
        lemma_first_zero(as_bytes(cs@), 0);
        if i < cs@.len() {
            lemma_first_zero_is(as_bytes(cs@), 0, i as int);
        }
    }
    i
}

/// Whether `rec` is an instance of the type that `desc` describes: a value
/// of the right kind and type for each field, behind each array pointer at
/// least the announced number of elements, behind each string pointer a
/// zero.
pub fn is_instance(desc: &TypeDescriptor, rec: &Record) -> (b: bool)
    ensures
        b == conforms(desc.kinds(), rec.fields@),
{
    proof {
        use_type_invariant(desc);
    }
    if rec.fields.len() != desc.len() {
        return false;
    }
    let ghost kinds = desc.kinds();
    let ghost vals = rec.fields@;
    let mut i: usize = 0;
    while i < rec.fields.len()
        invariant
            desc.wf(),
            kinds == desc.kinds(),
            vals == rec.fields@,
            kinds.len() == vals.len(),
            i <= vals.len(),
            forall|j: int| 0 <= j < i ==> #[trigger] field_conforms(kinds, vals, j),
        decreases vals.len() - i,
    {
        let ok = match (desc.kind(i), &rec.fields[i]) {
            (FieldKind::Scalar(t), FieldValue::Scalar(v)) => v.scalar_type() == t,
            (FieldKind::LengthTaggedArray { elem, len_field }, FieldValue::Array(es)) => {
                let count = match &rec.fields[len_field] {
                    FieldValue::Scalar(c) => c.as_count(),
                    _ => 0,
                };
                elements_fit(es, elem, count)
            },
            (FieldKind::SentinelString(_), FieldValue::Str(cs)) => terminator(cs) < cs.len(),
            _ => false,
        };
        assert(ok == field_conforms(kinds, vals, i as int));
        if !ok {
            return false;
        }
        i += 1;
    }
    true
}

/// The number of bytes that field `i` of `rec` is written in, or `None`
/// where they are more than `limit`.
fn field_len(desc: &TypeDescriptor, rec: &Record, i: usize, limit: usize) -> (r: Option<usize>)
    requires
        conforms(desc.kinds(), rec.fields@),
        i < rec.fields@.len(),
    ensures
        match r {
            Some(n) => n == field_bytes(desc.kinds(), rec.fields@, i as int).len() && n <= limit,
            None => field_bytes(desc.kinds(), rec.fields@, i as int).len() > limit,
        },
{
    proof {
        use_type_invariant(desc);
    }
    proof {
        assert(field_conforms(desc.kinds(), rec.fields@, i as int));
    }
    let n = match &rec.fields[i] {
        FieldValue::Scalar(v) => {
            proof {
                lemma_scalar_round_trip(*v, Seq::empty());
            }
            v.scalar_type().size()
        },
        FieldValue::Array(es) => {
            let count = array_count(desc, rec, i);
            let w = match desc.kind(i) {
                FieldKind::LengthTaggedArray { elem, len_field } => elem.size(),
                _ => 1,
            };
            proof {
                let elem = desc.kinds()[i as int]->elem;
                lemma_array_bytes_len(es@, elem, count as nat);
                lemma_array_width(elem, count as nat);
                assert(w == elem.width());
                if w == 4 {
                    assert(count > limit / 4 ==> 4 * count > limit);
                }
            }
            if count > limit / w {
                return None;
            }
            count * w
        },
        FieldValue::Str(cs) => {
            let z = terminator(cs);
            assert(z < cs.len());
            z + 1
        },
    };
    if n <= limit {
        Some(n)
    } else {
        None
    }
}

/// Whether the encoding of `rec` takes no more than `capacity` bytes.
pub fn fits(desc: &TypeDescriptor, rec: &Record, capacity: usize) -> (b: bool)
    requires
        conforms(desc.kinds(), rec.fields@),
    ensures
        b == (encoding(desc.kinds(), rec.fields@).len() <= capacity),
{
    proof {
        use_type_invariant(desc);
    }
    let ghost kinds = desc.kinds();
    let ghost vals = rec.fields@;
    let mut n: usize = 0;
    let mut i: usize = 0;
    while i < rec.fields.len()
        invariant
            desc.wf(),
            kinds == desc.kinds(),
            vals == rec.fields@,
            conforms(kinds, vals),
            i <= vals.len(),
            n <= capacity,
            n == prefix_bytes(kinds, vals, i as nat).len(),
        decreases vals.len() - i,
    {
        proof {
            lemma_prefix_bytes_grows(kinds, vals, (i + 1) as nat, vals.len());
        }
        match field_len(desc, rec, i, capacity - n) {
            Some(w) => {
                n += w;
            },
            None => {
                return false;
            },
        }
        i += 1;
    }
    true
}

/// The serializer with checks: writes `rec` as `dump` does, or leaves
/// `buf` untouched and says why: `NotAnInstance` exactly where `rec` is no
/// instance of the described type, `BufferExhausted` exactly where it is
/// one and `buf` is shorter than its encoding.
pub fn checked_dump(desc: &TypeDescriptor, rec: &Record, buf: &mut [u8]) -> (r: Result<
    usize,
    DumpError,
>)
    ensures
        match r {
            Ok(n) => {
                &&& conforms(desc.kinds(), rec.fields@)
                &&& n == encoding(desc.kinds(), rec.fields@).len()
                &&& final(buf)@ == encoding(desc.kinds(), rec.fields@) + old(buf)@.skip(n as int)
            },
            Err(DumpError::NotAnInstance) => {
                &&& !conforms(desc.kinds(), rec.fields@)
                &&& final(buf)@ == old(buf)@
            },
            Err(DumpError::BufferExhausted) => {
                &&& conforms(desc.kinds(), rec.fields@)
                &&& encoding(desc.kinds(), rec.fields@).len() > old(buf)@.len()
                &&& final(buf)@ == old(buf)@
            },
        },
{
    if !is_instance(desc, rec) {
        Err(DumpError::NotAnInstance)
    } else if !fits(desc, rec, buf.len()) {
        Err(DumpError::BufferExhausted)
    } else {
        Ok(dump(desc, rec, buf))
    }
}

} // verus!
