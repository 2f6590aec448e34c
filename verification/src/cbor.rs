//! Reading a typed array out of CBOR bytes.
//!
//! On the wire a typed array is a tag followed by a byte string of definite
//! length. `minicbor` reads the two; what they stand for is decided here.

use crate::error::TypedArrayError;
use crate::typed_array::{TypedArray, TypedArrayView};
use crate::typed_array_tag::{classify_tag, tag_to_array_type};
use vstd::prelude::*;

verus! {

/// The error of `minicbor`'s decoder. It is carried through as it came;
/// nothing here looks inside it.
#[verifier::external_type_specification]
#[verifier::external_body]
pub struct ExReaderError(minicbor::decode::Error);

/// What `minicbor` reads as a tag at `position` of `input`.
///
/// Nothing where its decoder fails there. Otherwise the position after the
/// tag, together with the tag's number, or with nothing for one of the tags
/// that the decoder knows by a name of their own.
pub uninterp spec fn tag_at(input: Seq<u8>, position: nat) -> Option<(Option<u64>, nat)>;

/// What `minicbor` reads as a byte string of definite length at `position` of
/// `input`: the bytes and the position after them, or nothing where its
/// decoder fails there.
pub uninterp spec fn bytes_at(input: Seq<u8>, position: nat) -> Option<(Seq<u8>, nat)>;

/// Calls `minicbor::Decoder::tag` on a decoder over `input` that stands at
/// `position`.
///
/// Trusted: the outcome is the one that `tag_at` names for this input and
/// position, and an error comes exactly where `tag_at` names nothing. The
/// decoder reads from the input and its position alone.
#[verifier::external_body]
fn read_tag(input: &[u8], position: usize) -> (read: Result<
    (Option<u64>, usize),
    minicbor::decode::Error,
>)
    ensures
        match read {
            Ok((number, next)) => tag_at(input@, position as nat) == Some((number, next as nat)),
            Err(_) => tag_at(input@, position as nat) is None,
        },
{
    let mut decoder = minicbor::Decoder::new(input);
    decoder.set_position(position);
    match decoder.tag() {
        Ok(minicbor::data::Tag::Unassigned(number)) => Ok((Some(number), decoder.position())),
        Ok(_) => Ok((None, decoder.position())),
        Err(error) => Err(error),
    }
}

/// Calls `minicbor::Decoder::bytes` on a decoder over `input` that stands at
/// `position`.
///
/// Trusted: the outcome is the one that `bytes_at` names for this input and
/// position, and an error comes exactly where `bytes_at` names nothing. The
/// decoder reads from the input and its position alone.
#[verifier::external_body]
fn read_bytes<'b>(input: &'b [u8], position: usize) -> (read: Result<
    (&'b [u8], usize),
    minicbor::decode::Error,
>)
    ensures
        match read {
            Ok((bytes, next)) => bytes_at(input@, position as nat) == Some((bytes@, next as nat)),
            Err(_) => bytes_at(input@, position as nat) is None,
        },
{
    let mut decoder = minicbor::Decoder::new(input);
    decoder.set_position(position);
    match decoder.bytes() {
        Ok(bytes) => Ok((bytes, decoder.position())),
        Err(error) => Err(error),
    }
}

/// Why no typed array was read.
#[derive(Debug)]
pub enum DecodeError {
    /// The reader found no tag, or no byte string of definite length after
    /// it. The reader's own error is passed on unchanged.
    Reader(minicbor::decode::Error),
    /// The reader did its part, and the tag or the payload was refused.
    Array(TypedArrayError),
}

impl DecodeError {
    /// The reason of a refusal by the array's own rules, or nothing for a
    /// failure of the reader.
    pub open spec fn reason(self) -> Option<TypedArrayError> {
        match self {
            DecodeError::Reader(_) => None,
            DecodeError::Array(error) => Some(error),
        }
    }
}

/// The typed array that stands at `position` of `input`, with the position
/// after it; or why there is none: nothing for a failure of the reader, else
/// the reason by the array's own rules.
///
/// The tag is read and judged first, so a refused tag is reported whatever
/// follows it. A tag that the reader knows by name is no typed-array tag.
pub open spec fn item_at(input: Seq<u8>, position: nat) -> Result<
    (TypedArrayView, nat),
    Option<TypedArrayError>,
> {
    match tag_at(input, position) {
        None => Err(None),
        Some((None, _)) => Err(Some(TypedArrayError::NotATypedArrayTag)),
        Some((Some(tag), payload_at)) => match classify_tag(tag) {
            Err(error) => Err(Some(error)),
            Ok((kind, endianness)) => match bytes_at(input, payload_at) {
                None => Err(None),
                Some((bytes, next)) => match TypedArrayView::from_payload(kind, bytes, endianness) {
                    Err(error) => Err(Some(error)),
                    Ok(array) => Ok((array, next)),
                },
            },
        },
    }
}

/// Reads the typed array that stands at `position` of the CBOR bytes `input`,
/// and gives it back with the position after it.
///
/// The byte order comes from the tag. Nothing is returned in part: a failure
/// of the reader, a refused tag and a payload that ends inside an element each
/// give an error and no array.
pub fn decode_item(input: &[u8], position: usize) -> (item: Result<(TypedArray, usize), DecodeError>)
    ensures
        match (item, item_at(input@, position as nat)) {
            (Ok((array, next)), Ok((view, after))) => array@ == view && next == after,
            (Err(error), Err(reason)) => error.reason() == reason,
            _ => false,
        },
{
    let (number, payload_at) = match read_tag(input, position) {
        Ok(read) => read,
        Err(error) => return Err(DecodeError::Reader(error)),
    };
    let tag: u64 = match number {
        Some(tag) => tag,
        None => return Err(DecodeError::Array(TypedArrayError::NotATypedArrayTag)),
    };
    let (type_length, endianness) = match tag_to_array_type(tag) {
        Ok(decoded) => decoded,
        Err(error) => return Err(DecodeError::Array(error)),
    };
    let (bytes, next) = match read_bytes(input, payload_at) {
        Ok(read) => read,
        Err(error) => return Err(DecodeError::Reader(error)),
    };
    match TypedArray::from_u8s(type_length, bytes, &endianness) {
        Ok(array) => Ok((array, next)),
        Err(error) => Err(DecodeError::Array(error)),
    }
}

} // verus!
