//! The engine's entry point: one full pass over a container — locate,
//! decode (or start empty), set the timestamp tag, re-encode, splice.

use vstd::prelude::*;
use crate::{ByteOrder, EngineError, ImageFormat};
use crate::bytes::u32_seq;
use crate::codec::{
    DecodeOutcome, format_ceiling, spec_decode, spec_encodable, spec_model_size, spec_to_segment,
};
use crate::locator::{Location, SpecLocate, locate_segment, spec_locate};
use crate::model::{MetadataModel, SpecModel, spec_set_model};
use crate::tags::str_eq;
use crate::writer::{frame_segment, set_riff_size, spec_frame, splice_bytes};

verus! {

/// The format named by a caller-supplied string, if it is a supported one.
pub open spec fn spec_parse_format(name: Seq<char>) -> Option<ImageFormat> {
    if name == "jpeg"@ {
        Some(ImageFormat::Jpeg)
    } else if name == "png"@ {
        Some(ImageFormat::Png)
    } else if name == "webp"@ {
        Some(ImageFormat::Webp)
    } else {
        None
    }
}

/// Resolves a format name. `InvalidFormat` exactly when the name is not a
/// supported enumeration value.
pub fn parse_format(name: &str) -> (r: Result<ImageFormat, EngineError>)
    ensures
        match r {
            Ok(f) => spec_parse_format(name@) == Some(f),
            Err(e) => e == EngineError::InvalidFormat && spec_parse_format(name@) is None,
        },
{
    if str_eq(name, "jpeg") {
        Ok(ImageFormat::Jpeg)
    } else if str_eq(name, "png") {
        Ok(ImageFormat::Png)
    } else if str_eq(name, "webp") {
        Ok(ImageFormat::Webp)
    } else {
        Err(EngineError::InvalidFormat)
    }
}

/// The second half of an embedding pass: the mutated model re-encoded,
/// framed, and spliced over `lo..hi` of the container (an empty range for
/// insertion); a WebP container additionally gets its RIFF total-size field
/// rewritten.
pub open spec fn spec_embed_step(
    image: Seq<u8>,
    timestamp: Seq<char>,
    format: ImageFormat,
    m0: SpecModel,
    lo: int,
    hi: int,
) -> Result<Seq<u8>, EngineError> {
    match spec_set_model(m0, "DateTimeOriginal"@, timestamp) {
        Err(e) => Err(e),
        Ok(m1) => if !(spec_encodable(m1) && spec_model_size(m1) <= format_ceiling(format)) {
            Err(EngineError::SegmentTooLarge)
        } else {
            let out = image.take(lo) + spec_frame(spec_to_segment(m1, format), format)
                + image.skip(hi);
            match format {
                ImageFormat::Webp => if out.len() < 8 || out.len() - 8 > 0xFFFF_FFFF {
                    Err(EngineError::SegmentTooLarge)
                } else {
                    Ok(
                        out.take(4) + u32_seq(ByteOrder::Little, (out.len() - 8) as u32) + out.skip(
                            8,
                        ),
                    )
                },
                _ => Ok(out),
            }
        },
    }
}

/// One full embedding pass, as a mathematical function: where the metadata
/// segment is (or would go), the model it decodes to (or a fresh
/// little-endian one), the timestamp stored under `DateTimeOriginal`, and
/// the container re-assembled around the rebuilt segment.
pub open spec fn spec_embed(image: Seq<u8>, timestamp: Seq<char>, format: ImageFormat) -> Result<
    Seq<u8>,
    EngineError,
> {
    match spec_locate(format, image) {
        SpecLocate::Bad => Err(EngineError::MalformedContainer),
        SpecLocate::Found { lo, payload_lo, payload_hi, hi } => {
            match spec_decode(image.subrange(payload_lo, payload_hi)) {
                DecodeOutcome::Truncated => Err(EngineError::TruncatedIfd),
                DecodeOutcome::Malformed => Err(EngineError::MalformedContainer),
                DecodeOutcome::Model(m0) => spec_embed_step(image, timestamp, format, m0, lo, hi),
            }
        },
        SpecLocate::Absent { at } => spec_embed_step(
            image,
            timestamp,
            format,
            SpecModel {
                byte_order: ByteOrder::Little,
                primary: Seq::empty(),
                exif: Seq::empty(),
            },
            at,
            at,
        ),
    }
}

/// Embeds `timestamp` (19 ASCII characters, `YYYY:MM:DD HH:MM:SS`) as the
/// `DateTimeOriginal` tag of the container, preserving every byte outside
/// the metadata segment (and, for WebP, the RIFF size field). On any error
/// nothing is returned: the caller keeps its original bytes.
#[verifier::rlimit(60)]
pub fn embed_timestamp(image: &Vec<u8>, timestamp: &str, format: ImageFormat) -> (r: Result<
    Vec<u8>,
    EngineError,
>)
    ensures
        match r {
            Ok(out) => spec_embed(image@, timestamp@, format) == Ok::<Seq<u8>, EngineError>(out@),
            Err(e) => spec_embed(image@, timestamp@, format) == Err::<Seq<u8>, EngineError>(e),
        },
{
    let loc = match locate_segment(image, format) {
        Ok(l) => l,
        Err(e) => {
            return Err(e);
        },
    };
    let (mut m, lo, hi): (MetadataModel, usize, usize) = match loc {
        Location::Found { lo, payload_lo, payload_hi, hi } => {
            let seg = vstd::slice::slice_to_vec(
                vstd::slice::slice_subrange(image.as_slice(), payload_lo, payload_hi),
            );
            let m = match MetadataModel::from_segment(&seg) {
                Ok(m) => m,
                Err(e) => {
                    return Err(e);
                },
            };
            (m, lo, hi)
        },
        Location::Absent { at } => (MetadataModel::empty(ByteOrder::Little), at, at),
    };
    match m.set_tag("DateTimeOriginal", timestamp) {
        Ok(_) => (),
        Err(e) => {
            return Err(e);
        },
    }
    let seg = match m.to_segment(format) {
        Ok(s) => s,
        Err(e) => {
            return Err(e);
        },
    };
    proof {
        crate::codec::lemma_encode_model_len(m@);
    }
    let framed = match frame_segment(&seg, format) {
        Ok(f) => f,
        Err(e) => {
            proof {
                assert(false);
            }
            return Err(e);
        },
    };
    let out = splice_bytes(image, lo, hi, &framed);
    match format {
        ImageFormat::Webp => {
            if out.len() < 8 || out.len() as u64 - 8 > 0xFFFF_FFFF {
                return Err(EngineError::SegmentTooLarge);
            }
            Ok(set_riff_size(&out))
        },
        _ => Ok(out),
    }
}

} // verus!
