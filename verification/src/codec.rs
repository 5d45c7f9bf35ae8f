//! The primitive codec layer: fixed-width little-endian scalars.

use byteorder::{ByteOrder, LittleEndian};
use vstd::prelude::*;

verus! {

/// The four bytes of `n`, least significant first.
pub open spec fn le_bytes(n: u32) -> Seq<u8> {
    seq![
        (n & 0xff) as u8,
        ((n >> 8) & 0xff) as u8,
        ((n >> 16) & 0xff) as u8,
        ((n >> 24) & 0xff) as u8,
    ]
}

/// The number whose little-endian bytes are the first four of `b`.
pub open spec fn le_value(b: Seq<u8>) -> u32
    recommends
        b.len() >= 4,
{
    (b[0] as u32) | ((b[1] as u32) << 8) | ((b[2] as u32) << 16) | ((b[3] as u32) << 24)
}

/// `byteorder::LittleEndian::write_u32`: overwrites the first four bytes of
/// `buf` with `n`, least significant byte first, and leaves the rest alone.
/// The outside function panics on a shorter buffer, which `requires` excludes.
#[verifier::external_body]
fn write_u32_le(buf: &mut [u8], n: u32)
    requires
        old(buf)@.len() >= 4,
    ensures
        final(buf)@ == le_bytes(n) + old(buf)@.skip(4),
{
    LittleEndian::write_u32(buf, n)
}

/// `byteorder::LittleEndian::read_u32`: the number whose little-endian bytes
/// are the first four of `buf`. The outside function panics on a shorter
/// buffer, which `requires` excludes.
#[verifier::external_body]
fn read_u32_le(buf: &[u8]) -> (n: u32)
    requires
        buf@.len() >= 4,
    ensures
        n == le_value(buf@),
{
    LittleEndian::read_u32(buf)
}

/// A value that can be flattened into the front of a byte buffer.
pub trait Dump: Sized {
    /// The bytes that stand for this value.
    spec fn encoding(&self) -> Seq<u8>;

    /// Writes `self.encoding()` at the front of `buf` and returns its length.
    fn dump(&self, buf: &mut [u8]) -> (n: usize)
        requires
            old(buf)@.len() >= self.encoding().len(),
        ensures
            n == self.encoding().len(),
            final(buf)@ == self.encoding() + old(buf)@.skip(n as int),
    ;
}

/// A value that can be rebuilt from the front of a byte buffer.
pub trait FromDump: Sized {
    /// The value at the front of `bytes` and the number of bytes it takes,
    /// or `None` where `bytes` holds no complete value.
    spec fn decoding(bytes: Seq<u8>) -> Option<(Self, nat)>;

    /// Reads the value at the front of `buf`; returns it with its width.
    fn from_dump(buf: &[u8]) -> (r: (Self, usize))
        requires
            Self::decoding(buf@).is_some(),
        ensures
            Self::decoding(buf@) == Some((r.0, r.1 as nat)),
    ;
}

impl Dump for i8 {
    open spec fn encoding(&self) -> Seq<u8> {
        seq![*self as u8]
    }

    fn dump(&self, buf: &mut [u8]) -> (n: usize) {
        buf[0] = *self as u8;
        assert(buf@ =~= self.encoding() + old(buf)@.skip(1));
        1
    }
}

impl FromDump for i8 {
    open spec fn decoding(bytes: Seq<u8>) -> Option<(Self, nat)> {
        if bytes.len() >= 1 {
            Some((bytes[0] as i8, 1))
        } else {
            None
        }
    }

    fn from_dump(buf: &[u8]) -> (r: (Self, usize)) {
        (buf[0] as i8, 1)
    }
}

impl Dump for u32 {
    open spec fn encoding(&self) -> Seq<u8> {
        le_bytes(*self)
    }

    fn dump(&self, buf: &mut [u8]) -> (n: usize) {
        write_u32_le(buf, *self);
        assert(le_bytes(*self).len() == 4);
        4
    }
}

impl FromDump for u32 {
    open spec fn decoding(bytes: Seq<u8>) -> Option<(Self, nat)> {
        if bytes.len() >= 4 {
            Some((le_value(bytes), 4))
        } else {
            None
        }
    }

    fn from_dump(buf: &[u8]) -> (r: (Self, usize)) {
        (read_u32_le(buf), 4)
    }
}

/// The scalar types that have a codec.
#[derive(Clone, Copy, Debug, PartialEq, Eq, Structural)]
pub enum ScalarType {
    /// A signed 8-bit integer; also the single-byte character type.
    I8,
    /// An unsigned 32-bit integer.
    U32,
}

impl ScalarType {
    /// The fixed number of bytes that a value of this type is written in.
    pub open spec fn width(self) -> nat {
        match self {
            ScalarType::I8 => 1,
            ScalarType::U32 => 4,
        }
    }

    /// The fixed number of bytes that a value of this type is written in.
    pub fn size(self) -> (n: usize)
        ensures
            n == self.width(),
    {
        match self {
            ScalarType::I8 => 1,
            ScalarType::U32 => 4,
        }
    }
}

/// A scalar value together with its type.
#[derive(Clone, Copy, Debug, PartialEq, Eq, Structural)]
pub enum Scalar {
    I8(i8),
    U32(u32),
}

impl Scalar {
    /// The type of this value.
    pub open spec fn ty(self) -> ScalarType {
        match self {
            Scalar::I8(_) => ScalarType::I8,
            Scalar::U32(_) => ScalarType::U32,
        }
    }

    /// The number of elements that this value announces when it serves as
    /// the length of an array: itself, or zero where it is negative.
    pub open spec fn count(self) -> nat {
        match self {
            Scalar::I8(v) => if v < 0 { 0 } else { v as nat },
            Scalar::U32(v) => v as nat,
        }
    }

    /// The value of type `ty` at the front of `bytes` and its width, or
    /// `None` where `bytes` is shorter than that width.
    pub open spec fn decoding_as(ty: ScalarType, bytes: Seq<u8>) -> Option<(Scalar, nat)> {
        if bytes.len() < ty.width() {
            None
        } else {
            Some(
                (
                    match ty {
                        ScalarType::I8 => Scalar::I8(bytes[0] as i8),
                        ScalarType::U32 => Scalar::U32(le_value(bytes)),
                    },
                    ty.width(),
                ),
            )
        }
    }

    /// The type of this value.
    pub fn scalar_type(&self) -> (t: ScalarType)
        ensures
            t == self.ty(),
    {
        match self {
            Scalar::I8(_) => ScalarType::I8,
            Scalar::U32(_) => ScalarType::U32,
        }
    }

    /// The number of elements that this value announces as an array length.
    pub fn as_count(&self) -> (n: usize)
        ensures
            n == self.count(),
    {
        match self {
            Scalar::I8(v) => if *v < 0 { 0 } else { *v as usize },
            Scalar::U32(v) => *v as usize,
        }
    }

    /// Reads a value of type `ty` from the front of `buf`; returns it with
    /// its width.
    pub fn from_dump_as(ty: ScalarType, buf: &[u8]) -> (r: (Scalar, usize))
        requires
            buf@.len() >= ty.width(),
        ensures
            Scalar::decoding_as(ty, buf@) == Some((r.0, r.1 as nat)),
    {
        match ty {
            ScalarType::I8 => {
                let (v, n) = <i8 as FromDump>::from_dump(buf);
                (Scalar::I8(v), n)
            },
            ScalarType::U32 => {
                let (v, n) = <u32 as FromDump>::from_dump(buf);
                (Scalar::U32(v), n)
            },
        }
    }
}

impl Dump for Scalar {
    open spec fn encoding(&self) -> Seq<u8> {
        match self {
            Scalar::I8(v) => v.encoding(),
            Scalar::U32(v) => v.encoding(),
        }
    }

    fn dump(&self, buf: &mut [u8]) -> (n: usize) {
        match self {
            Scalar::I8(v) => v.dump(buf),
            Scalar::U32(v) => v.dump(buf),
        }
    }
}

/// Reading back the little-endian bytes of `n` gives `n`, whatever follows
/// them.
pub proof fn lemma_le_round_trip(n: u32, rest: Seq<u8>)
    ensures
        le_bytes(n).len() == 4,
        le_value(le_bytes(n) + rest) == n,
{
    let b = le_bytes(n) + rest;
    assert(b[0] == (n & 0xff) as u8);
    assert(b[1] == ((n >> 8) & 0xff) as u8);
    assert(b[2] == ((n >> 16) & 0xff) as u8);
    assert(b[3] == ((n >> 24) & 0xff) as u8);
    assert(((n & 0xff) as u8 as u32) | ((((n >> 8) & 0xff) as u8 as u32) << 8) | ((((n >> 16)
        & 0xff) as u8 as u32) << 16) | ((((n >> 24) & 0xff) as u8 as u32) << 24) == n)
        by (bit_vector);
}

/// Round trip of the primitive codecs: reading what `a` or `b` was written
/// as gives the value back with the fixed width of its type, whatever
/// follows its bytes.
pub proof fn lemma_primitive_round_trip(a: i8, b: u32, rest: Seq<u8>)
    ensures
        a.encoding().len() == 1,
        <i8 as FromDump>::decoding(a.encoding() + rest) == Some((a, 1nat)),
        b.encoding().len() == 4,
        <u32 as FromDump>::decoding(b.encoding() + rest) == Some((b, 4nat)),
{
    lemma_scalar_round_trip(Scalar::I8(a), rest);
    lemma_scalar_round_trip(Scalar::U32(b), rest);
}

/// Decoding what a scalar encodes to gives the scalar back, whatever
/// follows its bytes, and the encoding is exactly as wide as its type.
pub proof fn lemma_scalar_round_trip(v: Scalar, rest: Seq<u8>)
    ensures
        v.encoding().len() == v.ty().width(),
        Scalar::decoding_as(v.ty(), v.encoding() + rest) == Some((v, v.ty().width())),
{
    match v {
        Scalar::I8(x) => {
            assert((x as u8) as i8 == x) by (bit_vector);
            assert((v.encoding() + rest)[0] == x as u8);
        },
        Scalar::U32(x) => {
            lemma_le_round_trip(x, rest);
        },
    }
}

} // verus!
