use vstd::prelude::*;

verus! {

/// The ways an operation on the embedded controller can fail.
#[derive(Debug, Clone, Copy, PartialEq, Eq, Structural)]
pub enum Error {
    /// No connected HID device matches a known controller signature.
    DeviceNotFound,
    /// A report could not be written or read, or every retry timed out.
    TransportError,
    /// The controller answered with a malformed or undersized response,
    /// or reported a failure code.
    ProtocolError,
    /// An identity or version payload is not valid UTF-8 text.
    EncodingError,
    /// An index or layer argument is out of range; nothing was sent.
    PreconditionViolation,
}

} // verus!
