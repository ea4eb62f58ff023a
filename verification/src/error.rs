//! The ways in which an operation of this library can fail.
use vstd::prelude::*;

verus! {

/// The kind of a failure.
#[derive(Clone, Copy, Debug, PartialEq, Eq, Structural)]
pub enum Error {
    /// Fewer than `threshold + 1` shares were supplied.
    NotEnoughShares,
    /// Two of the shares to combine have the same index.
    DuplicateShare,
    /// The ciphertext did not pass its own check.
    MalformedCiphertext,
    /// The bytes are not the encoding of a signature, or the inputs of an aggregate
    /// verification are empty, differ in number or repeat a message.
    InvalidSignature,
    /// The degree is too high for the coefficients' positions to fit the platform's word.
    DegreeOverflow,
    /// Two of the samples to interpolate have the same `x`.
    InterpolationInvalid,
}

impl Error {
    /// The sentence that describes the failure, as a sequence of characters.
    pub open spec fn text(self) -> Seq<char> {
        match self {
            Error::NotEnoughShares => "not enough shares"@,
            Error::DuplicateShare => "two shares with the same index"@,
            Error::MalformedCiphertext => "the ciphertext is not valid"@,
            Error::InvalidSignature => "cannot validate the signature"@,
            Error::DegreeOverflow => "the degree is too high"@,
            Error::InterpolationInvalid => "two samples with the same x"@,
        }
    }

    /// A sentence that describes the failure.
    pub fn message(&self) -> (r: &'static str)
        ensures
            r@ == self.text(),
    {
        match self {
            Error::NotEnoughShares => "not enough shares",
            Error::DuplicateShare => "two shares with the same index",
            Error::MalformedCiphertext => "the ciphertext is not valid",
            Error::InvalidSignature => "cannot validate the signature",
            Error::DegreeOverflow => "the degree is too high",
            Error::InterpolationInvalid => "two samples with the same x",
        }
    }
}

} // verus!
