//! Typed numeric arrays as tagged byte strings.
//!
//! A homogeneous array of fixed-width numbers travels as one integer tag and
//! one byte string. The tag names the element type and the byte order; the byte
//! string holds the elements back to back, each in exactly its own width.
//!
//! - `typed_array_tag`: the tag and its bit layout.
//! - `byte_image`: what the bytes of an element and of a payload are.
//! - `endianness`: values to bytes and back, one element at a time.
//! - `binary_float`: floats, held by their bit patterns.
//! - `typed_array`: the array itself, its tag and payload, and decoding.
//! - `typed_array_context`: the byte order that an encoder writes in.
//! - `cbor`: reading an array out of CBOR bytes.

pub mod binary_float;
pub mod byte_image;
pub mod cbor;
pub mod endianness;
pub mod error;
pub mod typed_array;
pub mod typed_array_context;
pub mod typed_array_tag;

pub use crate::endianness::EndiannessAware;
pub use crate::error::TypedArrayError;
pub use crate::typed_array::{TypedArray, TypedArrayValue};
pub use crate::typed_array_context::TypedArrayContext;
pub use crate::typed_array_tag::Endianness;
