//! Error values reported by the resolver, the swizzle engine and the session.

use vstd::prelude::*;

verus! {

/// One error category per failure the library can report.
///
/// `Image` and `IOError` carry the message of a failed decode or of a failed
/// file operation, both of which happen outside the verified core; the other
/// variants are produced by the library itself.
#[derive(Debug, PartialEq, Eq)]
pub enum ErrorKind {
    /// A source file could not be decoded as an image.
    Image(String),
    /// A file or directory operation failed.
    IOError(String),
    /// A textual channel descriptor was not of the form `path:channel`.
    InvalidDescriptorString(String),
    /// A swizzle call had no present source at all.
    EmptyDescriptor,
    /// A target declared no input slot.
    NoInputs,
    /// Two present sources of one swizzle call disagree on width or height.
    InvalidSize,
    /// A descriptor asks for a channel the source image does not have.
    Invalid,
}

} // verus!
