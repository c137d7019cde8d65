use vstd::prelude::*;

verus! {

/// Why a container could not be decoded.
#[derive(Clone, Copy, Debug, PartialEq, Eq, Structural)]
pub enum DecodeError {
    /// The input is shorter than the 30-byte header.
    TooShort,
    /// The first 12 bytes are not the format's signature.
    BadSignature,
    /// The payload holds fewer pixels than the declared dimensions need.
    InsufficientMemory,
}

impl DecodeError {
    /// A human-readable description of the error.
    pub fn message(&self) -> (r: &'static str)
        ensures
            *self == DecodeError::TooShort ==> r@ == "Data is too short to contain an ASTC header"@,
            *self == DecodeError::BadSignature ==> r@ == "Data does not contain an ASTC header"@,
            *self == DecodeError::InsufficientMemory ==> r@
                == "Not enough data to fill the image buffer"@,
    {
        match self {
            DecodeError::TooShort => "Data is too short to contain an ASTC header",
            DecodeError::BadSignature => "Data does not contain an ASTC header",
            DecodeError::InsufficientMemory => "Not enough data to fill the image buffer",
        }
    }
}

} // verus!
