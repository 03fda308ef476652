//! The signature methods.

use vstd::prelude::*;

verus! {

/// The signing algorithm that a request declares.
#[derive(Clone, Copy, Debug, PartialEq, Eq, Structural)]
pub enum SignatureMethod {
    HmacSha1,
    Plaintext,
}

impl SignatureMethod {
    /// The protocol token by which the method is named on the wire.
    pub open spec fn token(self) -> Seq<char> {
        match self {
            SignatureMethod::HmacSha1 => "HMAC-SHA1"@,
            SignatureMethod::Plaintext => "PLAINTEXT"@,
        }
    }

    /// Renders the method as its protocol token.
    pub fn to_string(&self) -> (r: String)
        ensures
            r@ == self.token(),
    {
        match self {
            SignatureMethod::HmacSha1 => String::from_str("HMAC-SHA1"),
            SignatureMethod::Plaintext => String::from_str("PLAINTEXT"),
        }
    }
}

} // verus!
