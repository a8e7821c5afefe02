//! Key material for signing and verifying tokens.
//!
//! One symmetric secret drives both directions. The process builds the key
//! material once at startup from a raw byte string and passes it by shared
//! reference afterwards; the value itself never changes.

use vstd::prelude::*;
use vstd::slice::slice_to_vec;

verus! {

/// The process-wide symmetric secret.
pub struct Keys {
    secret: Vec<u8>,
}

impl Keys {
    /// The secret bytes, as the contracts speak of them.
    pub closed spec fn secret_view(&self) -> Seq<u8> {
        self.secret@
    }

    /// Builds the key material from a raw secret byte string.
    pub fn new(secret: &[u8]) -> (k: Keys)
        ensures
            k.secret_view() == secret@,
    {
        Keys { secret: slice_to_vec(secret) }
    }

    /// Read access for the signing and verifying calls.
    pub(crate) fn secret_bytes(&self) -> (b: &[u8])
        ensures
            b@ == self.secret_view(),
    {
        self.secret.as_slice()
    }
}

} // verus!
