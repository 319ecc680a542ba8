use vstd::prelude::*;

verus! {

/// Failures of the primitive codec and of the property framework.
#[derive(Debug, Clone, PartialEq, Eq)]
pub enum Error {
    /// The bytes of a string are not UTF-8, or hold a forbidden code point.
    InvalidUTF8String,
    /// The input ended early, or a value does not fit its wire form.
    MalformedPacket,
    /// A variable-length integer is outside its range; carries the offending number.
    InvalidVarUint32(u32),
    /// A variable-length integer ran past its last allowed byte; carries the multiplier reached.
    InvalidVarUint32Length(u32),
    /// A property that may occur once occurred again; carries the property's name.
    PropertyAlreadyExists(&'static str),
    /// A property identifier that the structure being read does not hold.
    InvalidPropertyID(u32),
}

impl View for Error {
    type V = Error;

    open spec fn view(&self) -> Error {
        *self
    }
}

} // verus!
