//! A verified EXIF metadata engine for JPEG, PNG and WebP containers.
//!
//! The engine operates purely on in-memory byte buffers: it locates (or
//! determines the absence of) an embedded metadata segment, decodes the
//! TIFF-style tag directories into a metadata model, applies a tag edit,
//! re-encodes the model and splices the new segment back into the container,
//! leaving every byte outside the segment untouched.

use vstd::prelude::*;

pub mod bytes;
pub mod codec;
pub mod engine;
pub mod laws;
pub mod locator;
pub mod model;
pub mod tags;
pub mod writer;

verus! {

/// The supported container formats.
#[derive(Clone, Copy, PartialEq, Eq, Structural, Debug)]
pub enum ImageFormat {
    Jpeg,
    Png,
    Webp,
}

/// Byte order of a TIFF header and of every multi-byte field that follows it.
#[derive(Clone, Copy, PartialEq, Eq, Structural, Debug)]
pub enum ByteOrder {
    Little,
    Big,
}

/// Every failure the engine can surface. No recovery is attempted
/// internally; the caller decides what to do with the original bytes.
#[derive(Clone, Copy, PartialEq, Eq, Structural, Debug)]
pub enum EngineError {
    /// The requested format name is not one of the supported ones.
    InvalidFormat,
    /// The container's framing is inconsistent: a missing signature, a
    /// truncated header, or a length field that overruns the buffer.
    MalformedContainer,
    /// An IFD entry count or value offset would read past the segment bounds.
    TruncatedIfd,
    /// A tag name that the tag dictionary does not know.
    UnknownTag,
    /// A tag value incompatible with the tag's declared type or count.
    TypeMismatch,
    /// The encoded segment exceeds the format's hard size ceiling.
    SegmentTooLarge,
}

} // verus!
