//! Fixed-size content blocks exchanged by the application layer.

use vstd::prelude::*;

verus! {

/// Largest content block the application layer exchanges.
pub const MAX_CONTENT_SIZE: usize = 64;

/// A content type knows its fixed size and converts to and from raw bytes.
pub trait Content: Sized {
    /// The fixed byte size of this content type.
    spec fn spec_size() -> nat;

    /// The bytes of this content block.
    spec fn spec_bytes(&self) -> Seq<u8>;

    /// The fixed byte size of this content type.
    fn size() -> (r: usize)
        ensures
            r == Self::spec_size(),
    ;

    /// Serializes the content block; the result has the fixed size.
    fn as_bytes(&self) -> (r: Vec<u8>)
        ensures
            r@ == self.spec_bytes(),
            r@.len() == Self::spec_size(),
    ;

    /// Rebuilds a content block from raw bytes of the fixed size.
    fn from_bytes(bytes: &[u8]) -> (r: Self)
        requires
            bytes@.len() == Self::spec_size(),
        ensures
            r.spec_bytes() == bytes@,
    ;
}

/// An opaque fixed-size data block.
#[derive(Debug, PartialEq, Eq)]
pub struct DataContent {
    data: Vec<u8>,
}

impl Content for DataContent {
    open spec fn spec_size() -> nat {
        MAX_CONTENT_SIZE as nat
    }

    closed spec fn spec_bytes(&self) -> Seq<u8> {
        self.data@
    }

    fn size() -> usize {
        MAX_CONTENT_SIZE
    }

    fn as_bytes(&self) -> (r: Vec<u8>)
    {
        proof {
            use_type_invariant(self);
        }
        self.data.clone()
    }

    fn from_bytes(bytes: &[u8]) -> (r: Self)
    {
        DataContent { data: slice_to_vec_bytes(bytes) }
    }
}

impl DataContent {
    #[verifier::type_invariant]
    spec fn type_inv(self) -> bool {
        self.data@.len() == MAX_CONTENT_SIZE
    }
}

/// A ping carries no content.
#[derive(Clone, Copy, Debug, PartialEq, Eq, Structural)]
pub struct PingContent;

impl Content for PingContent {
    open spec fn spec_size() -> nat {
        0
    }

    open spec fn spec_bytes(&self) -> Seq<u8> {
        Seq::empty()
    }

    fn size() -> usize {
        0
    }

    fn as_bytes(&self) -> (r: Vec<u8>)
    {
        let r: Vec<u8> = Vec::new();
        proof {
            assert(r@ =~= Seq::<u8>::empty());
        }
        r
    }

    fn from_bytes(_bytes: &[u8]) -> (r: Self)
    {
        PingContent
    }
}

/// Copies a byte slice into a fresh vector.
fn slice_to_vec_bytes(bytes: &[u8]) -> (r: Vec<u8>)
    ensures
        r@ == bytes@,
{
    let mut data: Vec<u8> = Vec::new();
    let mut i: usize = 0;
    while i < bytes.len()
        invariant
            i <= bytes@.len(),
            data@ == bytes@.take(i as int),
        decreases bytes@.len() - i,
    {
        data.push(bytes[i]);
        i = i + 1;
        proof {
            assert(data@ =~= bytes@.take(i as int));
        }
    }
    proof {
        assert(data@ =~= bytes@);
    }
    data
}

} // verus!
