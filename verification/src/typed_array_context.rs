//! The encoder's configuration.

use crate::byte_image::{packed, wire_bytes};
use crate::endianness::{bits_of, EndiannessAware, ToFromBytes};
use crate::typed_array_tag::Endianness;
use vstd::prelude::*;

verus! {

/// The configuration of an encoder: the byte order to write payloads in.
pub struct TypedArrayContext {
    endianness: Endianness,
}

impl TypedArrayContext {
    /// A configuration that writes in `endianness`.
    pub fn new(endianness: Endianness) -> (context: Self)
        ensures
            context.endianness() == endianness,
    {
        Self { endianness }
    }
}

impl EndiannessAware for TypedArrayContext {
    closed spec fn endianness(&self) -> Endianness {
        self.endianness
    }

    fn desired_endianness(&self) -> (endianness: Endianness) {
        self.endianness
    }

    fn to_vec8<const C: usize, T: ToFromBytes<C>>(&self, array: &[T]) -> (bytes: Vec<u8>) {
        let mut bytes: Vec<u8> = Vec::new();
        let mut done: usize = 0;
        while done < array.len()
            invariant
                done <= array.len(),
                bytes@ == packed(bits_of(array@.take(done as int)), C as nat, self.endianness),
            decreases array.len() - done,
        {
            let image: [u8; C] = match self.endianness {
                Endianness::BigEndian => array[done].to_be(),
                Endianness::LittleEndian => array[done].to_le(),
            };
            let ghost before = bytes@;
            let mut offset: usize = 0;
            while offset < C
                invariant
                    offset <= C,
                    bytes@ == before + image@.take(offset as int),
                decreases C - offset,
            {
                bytes.push(image[offset]);
                offset += 1;
                assert(bytes@ =~= before + image@.take(offset as int));
            }
            proof {
                let sooner = bits_of(array@.take(done as int));
                let later = bits_of(array@.take(done + 1));
                assert(later.drop_last() =~= sooner);
                assert(later.last() == array@[done as int].bits());
                assert(image@.take(C as int) =~= image@);
                assert(image@ == wire_bytes(later.last(), C as nat, self.endianness));
            }
            done += 1;
        }
        assert(array@.take(done as int) =~= array@);
        bytes
    }
}

} // verus!
