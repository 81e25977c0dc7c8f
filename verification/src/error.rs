//! Errors of the encode side.

use vstd::prelude::*;
use vstd::string::StringExecFns;

verus! {

/// Why an encode failed.
#[derive(Debug, Clone, PartialEq)]
pub enum Error {
    /// A keyless scalar was asked to serialize itself outside any container:
    /// the format requires every value to be named.
    NotSerializingStruct,
    /// An error raised by the value-shape implementation driving the
    /// serializer.
    Serde(String),
    /// Unsigned integers and characters are not representable in the
    /// supported format subset, by design.
    UnsignedIntNotInSpec,
    /// A string, byte payload or document whose encoded length exceeds the
    /// signed 32-bit length field: the format cannot express the result.
    DocumentTooLarge,
}

impl Error {
    /// A human-readable description of the error, standing in for a
    /// `Display` implementation.
    pub fn message(&self) -> (r: String)
        ensures
            match self {
                Error::NotSerializingStruct => r@
                    == "individual values cannot be serialised, try serialising a struct instead"@,
                Error::Serde(context) => r@ == "error from value serialiser: "@ + context@,
                Error::UnsignedIntNotInSpec => r@
                    == "unsigned ints are not supported in the bson spec"@,
                Error::DocumentTooLarge => r@
                    == "the encoded length exceeds the format's 32-bit length field"@,
            },
    {
        match self {
            Error::NotSerializingStruct => String::from_str(
                "individual values cannot be serialised, try serialising a struct instead",
            ),
            Error::Serde(context) => {
                let mut s = String::from_str("error from value serialiser: ");
                s.append(context.as_str());
                s
            },
            Error::UnsignedIntNotInSpec => String::from_str(
                "unsigned ints are not supported in the bson spec",
            ),
            Error::DocumentTooLarge => String::from_str(
                "the encoded length exceeds the format's 32-bit length field",
            ),
        }
    }
}

} // verus!
