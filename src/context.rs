//! The pair of public keys that identify the two ends of a conversation.
use vstd::prelude::*;
use crate::content_box::PublicKeyBuf;

verus! {

pub struct CryptoContext {
    opposite_key: PublicKeyBuf,
    self_key: PublicKeyBuf,
}

impl CryptoContext {
    pub closed spec fn opposite(&self) -> Seq<u8> {
        self.opposite_key@
    }

    pub closed spec fn own(&self) -> Seq<u8> {
        self.self_key@
    }

    pub fn new(opposite_key: PublicKeyBuf, self_key: PublicKeyBuf) -> (r: CryptoContext)
        ensures
            r.opposite() == opposite_key@,
            r.own() == self_key@,
    {
        CryptoContext { opposite_key, self_key }
    }
}

} // verus!
