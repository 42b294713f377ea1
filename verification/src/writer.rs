//! The segment writer: wrapping an encoded segment payload in its
//! format-specific framing (marker header, chunk header with CRC, RIFF
//! sub-chunk with padding) and splicing it into the container.

use vstd::prelude::*;
use vstd::slice::{slice_subrange, slice_to_vec};
use crate::{ByteOrder, EngineError, ImageFormat};
use crate::bytes::{push_u16, push_u32, u16_seq, u32_seq};

verus! {

/// One shift-and-conditional-xor step of the reflected CRC-32 polynomial.
pub open spec fn crc_step(c: u32) -> u32 {
    if c & 1 == 1 {
        0xEDB88320u32 ^ (c >> 1)
    } else {
        c >> 1
    }
}

/// `crc_step` applied `k` times.
pub open spec fn crc_iter(c: u32, k: nat) -> u32
    decreases k,
{
    if k == 0 {
        c
    } else {
        crc_iter(crc_step(c), (k - 1) as nat)
    }
}

/// One input byte folded into the running CRC state.
pub open spec fn crc_byte(c: u32, b: u8) -> u32 {
    crc_iter(c ^ (b as u32), 8)
}

/// A whole byte sequence folded into the running CRC state.
pub open spec fn crc_fold(c: u32, s: Seq<u8>) -> u32
    decreases s.len(),
{
    if s.len() == 0 {
        c
    } else {
        crc_fold(crc_byte(c, s[0]), s.skip(1))
    }
}

/// The CRC-32 checksum (as PNG uses it) of a byte sequence.
pub open spec fn spec_crc32(s: Seq<u8>) -> u32 {
    crc_fold(0xFFFF_FFFFu32, s) ^ 0xFFFF_FFFFu32
}

/// Computes the CRC-32 checksum of `data`.
#[verifier::loop_isolation(false)]
pub fn crc32(data: &Vec<u8>) -> (r: u32)
    ensures
        r == spec_crc32(data@),
{
    let ghost s = data@;
    let n = data.len();
    let mut c: u32 = 0xFFFF_FFFF;
    let mut i: usize = 0;
    proof {
        assert(s.skip(0) =~= s);
    }
    while i < n
        invariant
            0 <= i <= n,
            crc_fold(c, s.skip(i as int)) == crc_fold(0xFFFF_FFFFu32, s),
        decreases n - i,
    {
        proof {
            assert(s.skip(i as int)[0] == s[i as int]);
            assert(s.skip(i as int).skip(1) =~= s.skip(i + 1));
        }
        let b = data[i];
        let mut x: u32 = c ^ (b as u32);
        let ghost x0 = x;
        let mut k: usize = 0;
        while k < 8
            invariant
                0 <= k <= 8,
                crc_iter(x, (8 - k) as nat) == crc_iter(x0, 8),
            decreases 8 - k,
        {
            x = if x & 1 == 1 {
                0xEDB88320u32 ^ (x >> 1)
            } else {
                x >> 1
            };
            k = k + 1;
        }
        c = x;
        i = i + 1;
    }
    proof {
        assert(s.skip(n as int) =~= Seq::<u8>::empty());
    }
    c ^ 0xFFFF_FFFF
}

/// The chunk type of a PNG metadata chunk, `eXIf`.
pub open spec fn png_exif_type() -> Seq<u8> {
    seq![0x65u8, 0x58u8, 0x49u8, 0x66u8]
}

/// The sub-chunk tag of a WebP metadata chunk, `EXIF`.
pub open spec fn webp_exif_type() -> Seq<u8> {
    seq![0x45u8, 0x58u8, 0x49u8, 0x46u8]
}

/// Whether a payload fits the format's framing fields: the JPEG marker
/// length field is 16 bits and counts itself, a PNG chunk length keeps its
/// top bit clear, a WebP size field is 32 bits with room for padding.
pub open spec fn frame_fits(payload: Seq<u8>, format: ImageFormat) -> bool {
    match format {
        ImageFormat::Jpeg => payload.len() + 2 <= 65535,
        ImageFormat::Png => payload.len() <= 0x7FFF_FFFF,
        ImageFormat::Webp => payload.len() <= 0xFFFF_FFF0,
    }
}

/// The framed segment: APP1 marker with a big-endian length for JPEG; an
/// `eXIf` chunk with big-endian length and CRC-32 over type and payload for
/// PNG; an `EXIF` sub-chunk with little-endian size, padded to even length,
/// for WebP.
pub open spec fn spec_frame(payload: Seq<u8>, format: ImageFormat) -> Seq<u8> {
    match format {
        ImageFormat::Jpeg => seq![0xFFu8, 0xE1u8] + u16_seq(
            ByteOrder::Big,
            (payload.len() + 2) as u16,
        ) + payload,
        ImageFormat::Png => u32_seq(ByteOrder::Big, payload.len() as u32) + png_exif_type()
            + payload + u32_seq(ByteOrder::Big, spec_crc32(png_exif_type() + payload)),
        ImageFormat::Webp => webp_exif_type() + u32_seq(ByteOrder::Little, payload.len() as u32)
            + payload + (if payload.len() % 2 == 1 {
            seq![0u8]
        } else {
            Seq::<u8>::empty()
        }),
    }
}

/// Wraps a segment payload in its format framing. `SegmentTooLarge` exactly
/// when a framing length field cannot hold the payload.
pub fn frame_segment(payload: &Vec<u8>, format: ImageFormat) -> (r: Result<Vec<u8>, EngineError>)
    ensures
        match r {
            Ok(out) => frame_fits(payload@, format) && out@ == spec_frame(payload@, format),
            Err(e) => e == EngineError::SegmentTooLarge && !frame_fits(payload@, format),
        },
{
    match format {
        ImageFormat::Jpeg => {
            if payload.len() > 65533 {
                return Err(EngineError::SegmentTooLarge);
            }
            let mut out: Vec<u8> = Vec::new();
            out.push(0xFF);
            out.push(0xE1);
            proof {
                assert(out@ =~= seq![0xFFu8, 0xE1u8]);
            }
            push_u16(&mut out, ByteOrder::Big, (payload.len() + 2) as u16);
            let mut p = slice_to_vec(payload.as_slice());
            out.append(&mut p);
            Ok(out)
        },
        ImageFormat::Png => {
            if payload.len() > 0x7FFF_FFFF {
                return Err(EngineError::SegmentTooLarge);
            }
            let mut tp: Vec<u8> = Vec::new();
            tp.push(0x65);
            tp.push(0x58);
            tp.push(0x49);
            tp.push(0x66);
            proof {
                assert(tp@ =~= png_exif_type());
            }
            let mut p = slice_to_vec(payload.as_slice());
            tp.append(&mut p);
            let crc = crc32(&tp);
            let mut out: Vec<u8> = Vec::new();
            push_u32(&mut out, ByteOrder::Big, payload.len() as u32);
            let mut tp2 = tp;
            out.append(&mut tp2);
            push_u32(&mut out, ByteOrder::Big, crc);
            Ok(out)
        },
        ImageFormat::Webp => {
            if payload.len() > 0xFFFF_FFF0 {
                return Err(EngineError::SegmentTooLarge);
            }
            let mut out: Vec<u8> = Vec::new();
            out.push(0x45);
            out.push(0x58);
            out.push(0x49);
            out.push(0x46);
            proof {
                assert(out@ =~= webp_exif_type());
            }
            push_u32(&mut out, ByteOrder::Little, payload.len() as u32);
            let mut p = slice_to_vec(payload.as_slice());
            out.append(&mut p);
            if payload.len() % 2 == 1 {
                out.push(0);
            }
            proof {
                assert(out@ =~= spec_frame(payload@, ImageFormat::Webp));
            }
            Ok(out)
        },
    }
}

/// Replaces `container[lo..hi]` with `seg`, copying everything around it
/// untouched.
pub fn splice_bytes(container: &Vec<u8>, lo: usize, hi: usize, seg: &Vec<u8>) -> (r: Vec<u8>)
    requires
        lo <= hi <= container@.len(),
    ensures
        r@ == container@.take(lo as int) + seg@ + container@.skip(hi as int),
{
    let mut out = slice_to_vec(slice_subrange(container.as_slice(), 0, lo));
    let mut mid = slice_to_vec(seg.as_slice());
    out.append(&mut mid);
    let n = container.len();
    let mut tail = slice_to_vec(slice_subrange(container.as_slice(), hi, n));
    out.append(&mut tail);
    proof {
        assert(out@ =~= container@.take(lo as int) + seg@ + container@.skip(hi as int));
    }
    out
}

/// A copy of a RIFF container with its total-size field rewritten to match
/// the container's length.
pub fn set_riff_size(v: &Vec<u8>) -> (r: Vec<u8>)
    requires
        v@.len() >= 8,
        v@.len() - 8 <= 0xFFFF_FFFF,
    ensures
        r@ == v@.take(4) + u32_seq(ByteOrder::Little, (v@.len() - 8) as u32) + v@.skip(8),
{
    let n = v.len();
    let mut out = slice_to_vec(slice_subrange(v.as_slice(), 0, 4));
    push_u32(&mut out, ByteOrder::Little, (n - 8) as u32);
    let mut tail = slice_to_vec(slice_subrange(v.as_slice(), 8, n));
    out.append(&mut tail);
    proof {
        assert(out@ =~= v@.take(4) + u32_seq(ByteOrder::Little, (v@.len() - 8) as u32) + v@.skip(
            8,
        ));
    }
    out
}

} // verus!
