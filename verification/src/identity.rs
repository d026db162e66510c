//! Caller identities: short opaque byte strings that the ledger only ever
//! compares for equality.

use crate::storage::MAX_IDENTITY_LEN;
use vstd::prelude::*;
use vstd::slice::slice_to_vec;

verus! {

/// The identity of a caller, owner or bidder.
///
/// An identity is at most [`MAX_IDENTITY_LEN`] bytes long; the empty
/// identity is allowed. Its view is the byte string itself.
#[derive(Debug, PartialEq, Eq)]
pub struct Identity {
    bytes: Vec<u8>,
}

impl View for Identity {
    type V = Seq<u8>;

    closed spec fn view(&self) -> Seq<u8> {
        self.bytes@
    }
}

impl Identity {
    #[verifier::type_invariant]
    spec fn bounded(&self) -> bool {
        self.bytes@.len() <= MAX_IDENTITY_LEN
    }

    /// Makes an identity of `bytes`, or nothing when they are too many.
    pub fn new(bytes: Vec<u8>) -> (made: Option<Identity>)
        ensures
            made is Some == (bytes@.len() <= MAX_IDENTITY_LEN),
            made is Some ==> (made->0)@ == bytes@,
    {
        if bytes.len() <= MAX_IDENTITY_LEN {
            Some(Identity { bytes })
        } else {
            None
        }
    }

    /// The bytes of the identity.
    pub fn as_bytes(&self) -> (bytes: &Vec<u8>)
        ensures
            bytes@ == self@,
            bytes@.len() <= MAX_IDENTITY_LEN,
    {
        proof {
            use_type_invariant(self);
        }
        &self.bytes
    }

    /// Whether two identities are the same.
    pub fn same(&self, other: &Identity) -> (same: bool)
        ensures
            same == (self@ == other@),
    {
        if self.bytes.len() != other.bytes.len() {
            return false;
        }
        let mut i: usize = 0;
        while i < self.bytes.len()
            invariant
                i <= self.bytes@.len(),
                self.bytes@.len() == other.bytes@.len(),
                forall|k: int| 0 <= k < i ==> self.bytes@[k] == other.bytes@[k],
            decreases self.bytes@.len() - i,
        {
            if self.bytes[i] != other.bytes[i] {
                return false;
            }
            i += 1;
        }
        assert(self.bytes@ =~= other.bytes@);
        true
    }
}

impl Clone for Identity {
    fn clone(&self) -> (copy: Identity)
        ensures
            copy@ == self@,
            copy@.len() <= MAX_IDENTITY_LEN,
    {
        proof {
            use_type_invariant(self);
        }
        Identity { bytes: slice_to_vec(self.bytes.as_slice()) }
    }
}

} // verus!
