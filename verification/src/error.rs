use vstd::prelude::*;

verus! {

/// Reasons a byte-level read out of a [`crate::parse_buffer::ParseBuffer`] fails.
#[derive(Debug, Clone, Copy, PartialEq, Eq, Structural)]
pub enum ParseError {
    /// Fewer bytes remain than the read asks for.
    InsufficientBytes,
    /// The bytes are present but do not form a valid value.
    InvalidData,
}

/// Errors raised by the TLS handshake and its cryptographic helpers.
#[derive(Debug, Clone, Copy, PartialEq, Eq, Structural)]
pub enum TlsError {
    /// An invariant of this library was not met by its caller.
    InternalError,
    /// A cryptographic primitive refused its input.
    CryptoError,
    /// A structure could not be decoded.
    DecodeError,
    /// A structure could not be encoded, usually for want of room.
    EncodeError,
    /// A signature did not verify.
    InvalidSignature,
    /// A handshake message is malformed.
    InvalidHandshake,
    /// The session id of a `ServerHello` is malformed.
    InvalidSessionIdLength,
    /// The cipher suite of a `ServerHello` is unknown.
    InvalidCipherSuite,
    /// A message carries an extension that it may not carry.
    UnsupportedExtension,
    /// A low-level read failed.
    ParseError(ParseError),
}

} // verus!
