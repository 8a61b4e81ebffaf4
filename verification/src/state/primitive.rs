//! Primitives: the values at the leaves of a record, each with its own byte
//! encoding.

use vstd::prelude::*;

verus! {

/// A value that knows how to write itself as bytes and read itself back.
pub trait Primitive: Sized {
    /// The bytes that stand for the value.
    spec fn encoded(self) -> Seq<u8>;

    /// The value that `bytes` stand for, if they stand for one.
    spec fn decoded(bytes: Seq<u8>) -> Option<Self>;

    /// Decoding undoes encoding.
    proof fn lemma_decode_encode(value: Self)
        ensures
            Self::decoded(value.encoded()) == Some(value),
    ;

    fn encode(&self) -> (bytes: Vec<u8>)
        ensures
            bytes@ == self.encoded(),
    ;

    fn decode(bytes: &[u8]) -> (value: Option<Self>)
        ensures
            value == Self::decoded(bytes@),
    ;
}

/// The number whose big-endian bytes are `b0`, `b1`, `b2`, `b3`.
pub open spec fn from_be(b0: u8, b1: u8, b2: u8, b3: u8) -> u32 {
    (b0 as u32) << 24 | (b1 as u32) << 16 | (b2 as u32) << 8 | (b3 as u32)
}

/// Byte `i` of `x`, counted from the most significant one.
pub open spec fn be_byte(x: u32, i: int) -> u8 {
    if i == 0 {
        ((x >> 24) & 0xff) as u8
    } else if i == 1 {
        ((x >> 16) & 0xff) as u8
    } else if i == 2 {
        ((x >> 8) & 0xff) as u8
    } else {
        (x & 0xff) as u8
    }
}

/// A `u32` is stored as its four bytes, most significant first.
impl Primitive for u32 {
    open spec fn encoded(self) -> Seq<u8> {
        seq![be_byte(self, 0), be_byte(self, 1), be_byte(self, 2), be_byte(self, 3)]
    }

    open spec fn decoded(bytes: Seq<u8>) -> Option<u32> {
        if bytes.len() == 4 {
            Some(from_be(bytes[0], bytes[1], bytes[2], bytes[3]))
        } else {
            None
        }
    }

    proof fn lemma_decode_encode(value: u32) {
        let x = value;
        assert((((x >> 24) & 0xff) as u8 as u32) << 24 | (((x >> 16) & 0xff) as u8 as u32) << 16 | ((
        (x >> 8) & 0xff) as u8 as u32) << 8 | ((x & 0xff) as u8 as u32) == x) by (bit_vector);
    }

    fn encode(&self) -> (bytes: Vec<u8>) {
        let x = *self;
        let mut bytes: Vec<u8> = Vec::new();
        bytes.push(((x >> 24) & 0xff) as u8);
        bytes.push(((x >> 16) & 0xff) as u8);
        bytes.push(((x >> 8) & 0xff) as u8);
        bytes.push((x & 0xff) as u8);
        bytes
    }

    fn decode(bytes: &[u8]) -> (value: Option<u32>) {
        if bytes.len() != 4 {
            return None;
        }
        let b0 = bytes[0];
        let b1 = bytes[1];
        let b2 = bytes[2];
        let b3 = bytes[3];
        Some((b0 as u32) << 24 | (b1 as u32) << 16 | (b2 as u32) << 8 | (b3 as u32))
    }
}

} // verus!
