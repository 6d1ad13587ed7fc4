use vstd::prelude::*;

verus! {

/// Why a codec or transformer refused its input.
#[derive(Debug, Clone, Copy, PartialEq, Eq)]
pub enum CodecError {
    /// A COBS code byte was zero.
    CobsZeroCode,
    /// A SLIP frame ended with an escape byte.
    SlipEscapeAtEnd,
    /// A SLIP escape byte was followed by the given byte.
    SlipBadEscape(u8),
    /// A SLIP frame held an unescaped END byte.
    SlipUnescapedEnd,
}

/// Why a transformer refused a message.
#[derive(Debug, Clone, Copy, PartialEq, Eq, Structural)]
pub enum TransformError {
    /// The payload is not valid UTF-8 text.
    InvalidUtf8,
    /// A CBRT payload does not start with the sync word.
    MissingSync,
    /// A CBRT payload ends in the middle of a frame.
    Truncated,
    /// A CBRT frame failed validation.
    Rejected,
    /// A JSON payload is not an object.
    NotJsonObject,
    /// A JSON payload could not be parsed.
    JsonSyntax,
}

} // verus!
