//! The deserializer: what a buffer decodes to, and `from_dump`, which
//! rebuilds scalars and turns pointer fields into views of the buffer.

use crate::codec::{FromDump, Scalar, ScalarType};
use crate::record::{first_zero, lemma_first_zero, lemma_first_zero_is};
use crate::schema::{FieldKind, TypeDescriptor};
use vstd::prelude::*;
use vstd::slice::slice_subrange;

verus! {

/// The decoded value of one field. A pointer field becomes a view: a place
/// in the buffer that was decoded, with no copy of what stands there.
#[derive(Clone, Copy, Debug, PartialEq, Eq, Structural)]
pub enum FieldView {
    /// A decoded scalar.
    Scalar(Scalar),
    /// An array of `count` elements that starts at byte `offset`.
    Array { offset: usize, count: usize },
    /// A string of `len` bytes, the closing zero included, that starts at
    /// byte `offset`.
    Str { offset: usize, len: usize },
}

/// A decoded structure: one view for each field, and the buffer that the
/// views refer to. It borrows the buffer, so it cannot outlive it.
#[derive(Clone, Debug)]
pub struct RecordView<'a> {
    pub buf: &'a [u8],
    pub fields: Vec<FieldView>,
}

/// Why a buffer holds no complete structure.
#[derive(Clone, Copy, Debug, PartialEq, Eq, Structural)]
pub enum DecodeError {
    /// The buffer ends before the structure does, or a string in it has no
    /// closing zero.
    BufferExhausted,
}

/// The number of bytes that `count` elements of type `elem` take.
pub open spec fn array_width(elem: ScalarType, count: nat) -> nat {
    count * elem.width()
}

/// The element count that the decoded field `j` announces.
pub open spec fn view_count(views: Seq<FieldView>, j: int) -> nat {
    match views[j] {
        FieldView::Scalar(c) => c.count(),
        _ => 0,
    }
}

/// The view of field `i` and the number of bytes it takes, where the cursor
/// stands at `cur` and `views` are the fields decoded so far; `None` where
/// the buffer ends too early.
pub open spec fn decode_field(
    kinds: Seq<FieldKind>,
    bytes: Seq<u8>,
    views: Seq<FieldView>,
    i: int,
    cur: nat,
) -> Option<(FieldView, nat)> {
    match kinds[i] {
        FieldKind::Scalar(t) => match Scalar::decoding_as(t, bytes.skip(cur as int)) {
            Some((v, w)) => Some((FieldView::Scalar(v), w)),
            None => None,
        },
        FieldKind::LengthTaggedArray { elem, len_field } => {
            let count = view_count(views, len_field as int);
            let w = array_width(elem, count);
            if cur + w <= bytes.len() {
                Some((FieldView::Array { offset: cur as usize, count: count as usize }, w))
            } else {
                None
            }
        },
        FieldKind::SentinelString(_) => {
            let z = first_zero(bytes, cur as int);
            if z < bytes.len() {
                Some(
                    (
                        FieldView::Str { offset: cur as usize, len: (z - cur + 1) as usize },
                        (z - cur + 1) as nat,
                    ),
                )
            } else {
                None
            }
        },
    }
}

/// The views of the first `n` fields and the cursor after them.
pub open spec fn decode_prefix(kinds: Seq<FieldKind>, bytes: Seq<u8>, n: nat) -> Option<
    (Seq<FieldView>, nat),
>
    decreases n,
{
    if n == 0 {
        Some((Seq::empty(), 0))
    } else {
        match decode_prefix(kinds, bytes, (n - 1) as nat) {
            None => None,
            Some((views, cur)) => match decode_field(kinds, bytes, views, n - 1, cur) {
                None => None,
                Some((view, w)) => Some((views.push(view), cur + w)),
            },
        }
    }
}

/// The structure at the front of `bytes` and the number of bytes it takes.
pub open spec fn decoding(kinds: Seq<FieldKind>, bytes: Seq<u8>) -> Option<(Seq<FieldView>, nat)> {
    decode_prefix(kinds, bytes, kinds.len())
}

/// A buffer that ends within the first `n` fields ends within any more.
pub proof fn lemma_decode_none_stays(kinds: Seq<FieldKind>, bytes: Seq<u8>, n: nat, m: nat)
    requires
        n <= m,
        decode_prefix(kinds, bytes, n) is None,
    ensures
        decode_prefix(kinds, bytes, m) is None,
    decreases m - n,
{
    if n < m {
        lemma_decode_none_stays(kinds, bytes, n, (m - 1) as nat);
    }
}

/// The width of an array, by element type.
pub proof fn lemma_array_width(elem: ScalarType, count: nat)
    ensures
        array_width(elem, count) == match elem {
            ScalarType::I8 => count,
            ScalarType::U32 => 4 * count,
        },
{
}

/// Skips `count` elements of type `elem` from position `at` on, decoding
/// each only to learn its width; returns the position after them, or
/// `None` where the buffer ends first.
pub fn skip_array(buf: &[u8], elem: ScalarType, count: usize, at: usize) -> (end: Option<usize>)
    ensures
        match end {
            Some(e) => e == at + array_width(elem, count as nat) && e <= buf@.len(),
            None => at + array_width(elem, count as nat) > buf@.len(),
        },
{
    if at > buf.len() {
        return None;
    }
    let mut pos: usize = at;
    let mut k: usize = 0;
    while k < count
        invariant
            k <= count,
            at <= pos <= buf@.len(),
            pos == at + array_width(elem, k as nat),
        decreases count - k,
    {
        proof {
            lemma_array_width(elem, k as nat);
            lemma_array_width(elem, (k + 1) as nat);
            lemma_array_width(elem, count as nat);
        }
        if buf.len() - pos < elem.size() {
            return None;
        }
        let (_, w) = Scalar::from_dump_as(elem, slice_subrange(buf, pos, buf.len()));
        pos += w;
        k += 1;
    }
    Some(pos)
}

/// Scans from position `at` on for a zero byte; returns the position after
/// it, or `None` where the buffer holds none.
pub fn skip_str(buf: &[u8], at: usize) -> (end: Option<usize>)
    ensures
        match end {
            Some(e) => at <= first_zero(buf@, at as int) < buf@.len() && e == first_zero(
                buf@,
                at as int,
            ) + 1,
            None => first_zero(buf@, at as int) >= buf@.len(),
        },
{
    if at > buf.len() {
        return None;
    }
    let mut pos: usize = at;
    while pos < buf.len() && buf[pos] != 0
        invariant
            at <= pos <= buf@.len(),
            forall|k: int| at <= k < pos ==> buf@[k] != 0,
        decreases buf@.len() - pos,
    {
        pos += 1;
    }
    proof {
        lemma_first_zero(buf@, at as int);
        if pos < buf@.len() {
            lemma_first_zero_is(buf@, at as int, pos as int);
        }
    }
    if pos < buf.len() {
        Some(pos + 1)
    } else {
        None
    }
}

/// The `count` elements of type `elem` that stand in `bytes` from position
/// `offset` on.
pub open spec fn elements_at(bytes: Seq<u8>, elem: ScalarType, offset: nat, count: nat) -> Seq<
    Scalar,
> {
    Seq::new(
        count,
        |k: int|
            Scalar::decoding_as(
                elem,
                bytes.skip((offset + array_width(elem, k as nat)) as int),
            ).unwrap().0,
    )
}

/// The `len` single-byte elements that stand in `bytes` from position
/// `offset` on.
pub open spec fn chars_at(bytes: Seq<u8>, offset: nat, len: nat) -> Seq<i8> {
    Seq::new(len, |k: int| bytes[offset + k] as i8)
}

/// Reads through an array view: decodes the `count` elements of type
/// `elem` that start at byte `offset` of `buf`. `None` exactly where they
/// do not all lie within `buf`.
pub fn read_array(buf: &[u8], elem: ScalarType, offset: usize, count: usize) -> (r: Option<
    Vec<Scalar>,
>)
    ensures
        match r {
            Some(es) => offset + array_width(elem, count as nat) <= buf@.len() && es@
                == elements_at(buf@, elem, offset as nat, count as nat),
            None => offset + array_width(elem, count as nat) > buf@.len(),
        },
{
    if offset > buf.len() {
        return None;
    }
    let mut es: Vec<Scalar> = Vec::new();
    let mut pos: usize = offset;
    let mut k: usize = 0;
    while k < count
        invariant
            k <= count,
            offset <= pos <= buf@.len(),
            pos == offset + array_width(elem, k as nat),
            es@ == elements_at(buf@, elem, offset as nat, k as nat),
        decreases count - k,
    {
        proof {
            lemma_array_width(elem, k as nat);
            lemma_array_width(elem, (k + 1) as nat);
            lemma_array_width(elem, count as nat);
        }
        if buf.len() - pos < elem.size() {
            return None;
        }
        let rest = slice_subrange(buf, pos, buf.len());
        assert(rest@ =~= buf@.skip(pos as int));
        let (v, w) = Scalar::from_dump_as(elem, rest);
        es.push(v);
        assert(es@ =~= elements_at(buf@, elem, offset as nat, (k + 1) as nat));
        pos += w;
        k += 1;
    }
    Some(es)
}

/// Reads through a string view: the `len` single-byte elements that start
/// at byte `offset` of `buf`. `None` exactly where they do not all lie
/// within `buf`.
pub fn read_str(buf: &[u8], offset: usize, len: usize) -> (r: Option<Vec<i8>>)
    ensures
        match r {
            Some(cs) => offset + len <= buf@.len() && cs@ == chars_at(
                buf@,
                offset as nat,
                len as nat,
            ),
            None => offset + len > buf@.len(),
        },
{
    let total = buf.len();
    if offset > total || len > total - offset {
        return None;
    }
    let mut cs: Vec<i8> = Vec::new();
    let mut k: usize = 0;
    while k < len
        invariant
            k <= len,
            offset + len <= total == buf@.len(),
            cs@ == chars_at(buf@, offset as nat, k as nat),
        decreases len - k,
    {
        let (c, _) = <i8 as FromDump>::from_dump(slice_subrange(buf, offset + k, total));
        cs.push(c);
        assert(cs@ =~= chars_at(buf@, offset as nat, (k + 1) as nat));
        k += 1;
    }
    Some(cs)
}

/// The deserializer with bounds checks: walks the fields in declaration
/// order from the front of `buf`. A scalar is decoded; an array or a string
/// becomes a view that starts at the cursor, and the cursor moves past it.
/// Returns the views and the number of bytes consumed, or
/// `BufferExhausted` exactly where `buf` holds no complete structure.
pub fn checked_from_dump<'a>(desc: &TypeDescriptor, buf: &'a [u8]) -> (r: Result<
    (RecordView<'a>, usize),
    DecodeError,
>)
    ensures
        match r {
            Ok((rv, n)) => rv.buf == buf && decoding(desc.kinds(), buf@) == Some(
                (rv.fields@, n as nat),
            ),
            Err(_) => decoding(desc.kinds(), buf@) is None,
        },
{
    proof {
        use_type_invariant(desc);
    }
    let ghost kinds = desc.kinds();
    let mut views: Vec<FieldView> = Vec::new();
    let mut cur: usize = 0;
    let mut i: usize = 0;
    let total = desc.len();
    while i < total
        invariant
            desc.wf(),
            kinds == desc.kinds(),
            total == kinds.len(),
            i <= total,
            cur <= buf@.len(),
            views@.len() == i,
            decode_prefix(kinds, buf@, i as nat) == Some((views@, cur as nat)),
        decreases total - i,
    {
        let step: Option<(FieldView, usize)> = match desc.kind(i) {
            FieldKind::Scalar(t) => {
                if buf.len() - cur < t.size() {
                    None
                } else {
                    let rest = slice_subrange(buf, cur, buf.len());
                    assert(rest@ =~= buf@.skip(cur as int));
                    let (v, w) = Scalar::from_dump_as(t, rest);
                    Some((FieldView::Scalar(v), cur + w))
                }
            },
            FieldKind::LengthTaggedArray { elem, len_field } => {
                let count = match views[len_field] {
                    FieldView::Scalar(c) => c.as_count(),
                    _ => 0,
                };
                match skip_array(buf, elem, count, cur) {
                    Some(end) => Some((FieldView::Array { offset: cur, count }, end)),
                    None => None,
                }
            },
            FieldKind::SentinelString(_) => {
                match skip_str(buf, cur) {
                    Some(end) => Some((FieldView::Str { offset: cur, len: end - cur }, end)),
                    None => None,
                }
            },
        };
        match step {
            None => {
                proof {
                    assert(decode_field(kinds, buf@, views@, i as int, cur as nat) is None);
                    lemma_decode_none_stays(kinds, buf@, (i + 1) as nat, kinds.len());
                }
                return Err(DecodeError::BufferExhausted);
            },
            Some((view, end)) => {
                assert(decode_field(kinds, buf@, views@, i as int, cur as nat) == Some(
                    (view, (end - cur) as nat),
                ));
                views.push(view);
                cur = end;
            },
        }
        i += 1;
    }
    Ok((RecordView { buf, fields: views }, cur))
}

/// The deserializer: rebuilds the structure at the front of `buf`, which
/// the caller knows to hold a complete one, and returns it with the number
/// of bytes consumed. Pointer fields come back as views of `buf`.
pub fn from_dump<'a>(desc: &TypeDescriptor, buf: &'a [u8]) -> (r: (RecordView<'a>, usize))
    requires
        decoding(desc.kinds(), buf@) is Some,
    ensures
        r.0.buf == buf,
        decoding(desc.kinds(), buf@) == Some((r.0.fields@, r.1 as nat)),
{
    match checked_from_dump(desc, buf) {
        Ok(r) => r,
        Err(_) => vstd::pervasive::unreached(),
    }
}

impl<'a> RecordView<'a> {
    /// Whether field `i` is an array of the type with fields `kinds` whose
    /// view lies within the buffer.
    pub open spec fn is_array(&self, kinds: Seq<FieldKind>, i: int) -> bool {
        &&& 0 <= i < self.fields@.len()
        &&& i < kinds.len()
        &&& kinds[i] is LengthTaggedArray
        &&& self.fields@[i] is Array
        &&& self.fields@[i]->Array_offset + array_width(
            kinds[i]->elem,
            self.fields@[i]->count as nat,
        ) <= self.buf@.len()
    }

    /// Whether field `i` is a string whose view lies within the buffer.
    pub open spec fn is_str(&self, i: int) -> bool {
        &&& 0 <= i < self.fields@.len()
        &&& self.fields@[i] is Str
        &&& self.fields@[i]->Str_offset + self.fields@[i]->len <= self.buf@.len()
    }

    /// Reads through the view of array field `i`: decodes the elements that
    /// it refers to. `None` exactly where field `i` is no array whose view
    /// lies within the buffer.
    pub fn array(&self, desc: &TypeDescriptor, i: usize) -> (r: Option<Vec<Scalar>>)
        ensures
            match r {
                Some(es) => self.is_array(desc.kinds(), i as int) && es@ == elements_at(
                    self.buf@,
                    desc.kinds()[i as int]->elem,
                    self.fields@[i as int]->Array_offset as nat,
                    self.fields@[i as int]->count as nat,
                ),
                None => !self.is_array(desc.kinds(), i as int),
            },
    {
        if i >= self.fields.len() || i >= desc.len() {
            return None;
        }
        match (desc.kind(i), self.fields[i]) {
            (
                FieldKind::LengthTaggedArray { elem, len_field },
                FieldView::Array { offset, count },
            ) => read_array(self.buf, elem, offset, count),
            _ => None,
        }
    }

    /// Reads through the view of string field `i`: the elements that it
    /// refers to, the closing zero included. `None` exactly where field `i`
    /// is no string whose view lies within the buffer.
    pub fn string(&self, i: usize) -> (r: Option<Vec<i8>>)
        ensures
            match r {
                Some(cs) => self.is_str(i as int) && cs@ == chars_at(
                    self.buf@,
                    self.fields@[i as int]->Str_offset as nat,
                    self.fields@[i as int]->len as nat,
                ),
                None => !self.is_str(i as int),
            },
    {
        if i >= self.fields.len() {
            return None;
        }
        match self.fields[i] {
            FieldView::Str { offset, len } => read_str(self.buf, offset, len),
            _ => None,
        }
    }
}

} // verus!
