//! The component abstraction: a component type has a stable per-type
//! identity token, a fixed byte size, and an encoding of its values as byte
//! sequences that the typed accessors store in engine cells.  The encoding
//! and its decoder are related by a proved round-trip law, which is what
//! makes `set` followed by `get` return the value that was written.

use vstd::prelude::*;

verus! {

/// A data record that can be attached to an entity.  Implementors supply a
/// per-type identity token (distinct tokens for distinct types, as a type id
/// would give), a fixed byte size, and an encoding of values as exactly that
/// many bytes, together with the proof that decoding inverts encoding.
pub trait Component: Sized {
    /// The per-type identity token, in specifications.
    spec fn key_spec() -> u64;

    /// The byte size of one value, in specifications.
    spec fn size_spec() -> usize;

    /// The byte alignment of one value, in specifications.
    spec fn align_spec() -> usize;

    /// The byte encoding of a value.
    spec fn enc(self) -> Seq<u8>;

    /// The value a byte sequence of the right size decodes to.
    spec fn dec(bytes: Seq<u8>) -> Self;

    /// Every value encodes to exactly `size_spec` bytes, and decoding the
    /// encoding gives the value back.
    proof fn lemma_round_trip(self)
        ensures
            self.enc().len() == Self::size_spec(),
            Self::dec(self.enc()) == self,
    ;

    /// The per-type identity token.
    fn type_key() -> (k: u64)
        ensures
            k == Self::key_spec(),
    ;

    /// The byte size of one value.
    fn byte_size() -> (n: usize)
        ensures
            n == Self::size_spec(),
    ;

    /// The byte alignment of one value.
    fn byte_align() -> (n: usize)
        ensures
            n == Self::align_spec(),
    ;

    /// Encodes a value as bytes.
    fn to_bytes(&self) -> (b: Vec<u8>)
        ensures
            b@ == self.enc(),
    ;

    /// Decodes a value from bytes of the registered size.
    fn from_bytes(b: &[u8]) -> (v: Self)
        requires
            b@.len() == Self::size_spec(),
        ensures
            v == Self::dec(b@),
    ;
}

impl Component for u8 {
    open spec fn key_spec() -> u64 {
        0x1001
    }

    open spec fn size_spec() -> usize {
        1
    }

    open spec fn align_spec() -> usize {
        1
    }

    open spec fn enc(self) -> Seq<u8> {
        seq![self]
    }

    open spec fn dec(bytes: Seq<u8>) -> u8 {
        bytes[0]
    }

    proof fn lemma_round_trip(self) {
        assert(self.enc()[0] == self);
    }

    fn type_key() -> u64 {
        0x1001
    }

    fn byte_size() -> usize {
        1
    }

    fn byte_align() -> usize {
        1
    }

    fn to_bytes(&self) -> (b: Vec<u8>) {
        let mut b: Vec<u8> = Vec::new();
        b.push(*self);
        proof {
            assert(b@ =~= self.enc());
        }
        b
    }

    fn from_bytes(b: &[u8]) -> (v: u8) {
        b[0]
    }
}

impl Component for u64 {
    open spec fn key_spec() -> u64 {
        0x1008
    }

    open spec fn size_spec() -> usize {
        8
    }

    open spec fn align_spec() -> usize {
        8
    }

    open spec fn enc(self) -> Seq<u8> {
        vstd::bytes::spec_u64_to_le_bytes(self)
    }

    open spec fn dec(bytes: Seq<u8>) -> u64 {
        vstd::bytes::spec_u64_from_le_bytes(bytes)
    }

    proof fn lemma_round_trip(self) {
        vstd::bytes::lemma_auto_spec_u64_to_from_le_bytes();
    }

    fn type_key() -> u64 {
        0x1008
    }

    fn byte_size() -> usize {
        8
    }

    fn byte_align() -> usize {
        8
    }

    fn to_bytes(&self) -> (b: Vec<u8>) {
        vstd::bytes::u64_to_le_bytes(*self)
    }

    fn from_bytes(b: &[u8]) -> (v: u64) {
        vstd::bytes::u64_from_le_bytes(b)
    }
}

} // verus!
