//! Schema-driven binary marshalling of fixed-layout structures whose pointer
//! fields stand for length-tagged arrays and zero-terminated strings.
//!
//! A structure is described once, by a [`schema::TypeDescriptor`]. The
//! serializer, [`record::dump`], flattens an instance into a byte buffer:
//! the fields in declaration order, scalars in fixed-width little-endian
//! form, arrays as their elements one after another, strings up to and
//! including their closing zero. The deserializer, [`view::from_dump`],
//! walks the same descriptor over a buffer: it rebuilds the scalars and
//! turns each pointer field into a view of the place where its bytes stand.
//! [`laws`] proves that the two agree.

pub mod codec;
pub mod laws;
pub mod record;
pub mod schema;
pub mod view;
