//! The twelve-byte media header that opens each datagram of the stream.
use crate::wire::be16;
use crate::wire::be32;
use vstd::prelude::*;

verus! {

/// Number of bytes in a media header.
pub const HEADER_LEN: usize = 12;

/// The error of [`Header::from_slice`]: fewer than twelve bytes were given.
#[derive(Debug, Clone)]
pub struct BufferTooSmall;

impl BufferTooSmall {
    /// The text that describes this error.
    pub fn message(&self) -> (text: &'static str)
        ensures
            text@ == "buffer too small"@,
    {
        "buffer too small"
    }
}

/// A read-only view of a media header. Its view is the header's twelve bytes.
#[derive(Debug, Copy, Clone, PartialEq)]
pub struct Header<'a>(&'a [u8]);

impl<'a> View for Header<'a> {
    type V = Seq<u8>;

    closed spec fn view(&self) -> Seq<u8> {
        self.0@
    }
}

impl<'a> Header<'a> {
    #[verifier::type_invariant]
    spec fn well_formed(self) -> bool {
        self.0@.len() == HEADER_LEN
    }

    /// The protocol version that a header's first byte carries in its two top
    /// bits.
    pub open spec fn version_of(first: u8) -> u8 {
        first / 64
    }

    /// Views the first twelve bytes of `buf` as a header. Fails exactly when
    /// `buf` is shorter than that.
    pub fn from_slice(buf: &'a [u8]) -> (r: Result<Header<'a>, BufferTooSmall>)
        ensures
            buf@.len() < HEADER_LEN <==> r is Err,
            r matches Ok(h) ==> h@ == buf@.take(HEADER_LEN as int),
    {
        if buf.len() < HEADER_LEN {
            return Err(BufferTooSmall);
        }
        let head = &buf[0..HEADER_LEN];
        Ok(Header(head))
    }

    /// The protocol version.
    pub fn version(&self) -> (v: u8)
        ensures
            v == Self::version_of(self@[0]),
            v < 4,
    {
        proof {
            use_type_invariant(self);
        }
        let byte = self.0[0];
        assert(byte >> 6 == byte / 64) by (bit_vector);
        byte >> 6
    }

    /// The sequence number: bytes 2 and 3, big-endian.
    pub fn sequence_number(&self) -> (n: u16)
        ensures
            n == be16(self@[2], self@[3]),
    {
        proof {
            use_type_invariant(self);
        }
        (self.0[2] as u16) * 256 + (self.0[3] as u16)
    }

    /// The timestamp: bytes 4 to 7, big-endian.
    pub fn timestamp(&self) -> (n: u32)
        ensures
            n == be32(self@[4], self@[5], self@[6], self@[7]),
    {
        proof {
            use_type_invariant(self);
        }
        (self.0[4] as u32) * 16777216 + (self.0[5] as u32) * 65536 + (self.0[6] as u32) * 256 + (
        self.0[7] as u32)
    }

    /// The synchronization source: bytes 8 to 11, big-endian.
    pub fn ssrc(&self) -> (n: u32)
        ensures
            n == be32(self@[8], self@[9], self@[10], self@[11]),
    {
        proof {
            use_type_invariant(self);
        }
        (self.0[8] as u32) * 16777216 + (self.0[9] as u32) * 65536 + (self.0[10] as u32) * 256 + (
        self.0[11] as u32)
    }

    /// The header's twelve bytes.
    pub fn as_slice(&self) -> (bytes: &[u8])
        ensures
            bytes@ == self@,
            bytes@.len() == HEADER_LEN,
    {
        proof {
            use_type_invariant(self);
        }
        self.0
    }
}

} // verus!
