//! The container locator: per-format scanning of a container's segment or
//! chunk structure, finding the existing metadata segment or the offset
//! where a fresh one belongs.

use vstd::prelude::*;
use crate::{ByteOrder, EngineError, ImageFormat};
use crate::bytes::{read_u16, read_u32, u16_of, u32_of};

verus! {

/// Four given bytes at position `p`.
pub open spec fn is4(s: Seq<u8>, p: int, a: u8, b: u8, c: u8, d: u8) -> bool {
    &&& 0 <= p
    &&& p + 4 <= s.len()
    &&& s[p] == a
    &&& s[p + 1] == b
    &&& s[p + 2] == c
    &&& s[p + 3] == d
}

/// The `Exif\0\0` signature at position `p`.
pub open spec fn is_exif_sig(s: Seq<u8>, p: int) -> bool {
    &&& p + 6 <= s.len()
    &&& is4(s, p, 0x45, 0x78, 0x69, 0x66)
    &&& s[p + 4] == 0
    &&& s[p + 5] == 0
}

/// Where a container's metadata segment is, or where one would go, or that
/// the framing is broken. A found segment carries the whole framed range
/// `lo..hi` and the payload (TIFF) range `payload_lo..payload_hi` inside it.
pub enum SpecLocate {
    Found { lo: int, payload_lo: int, payload_hi: int, hi: int },
    Absent { at: int },
    Bad,
}

/// Walks JPEG marker segments from `pos`, stopping at Start-Of-Scan or the
/// end; `ins` is the precomputed insertion point for the absent case.
pub open spec fn jpeg_scan(s: Seq<u8>, pos: int, ins: int) -> SpecLocate
    decreases s.len() - pos,
{
    if pos == s.len() {
        SpecLocate::Absent { at: ins }
    } else if pos < 0 || pos + 4 > s.len() {
        SpecLocate::Bad
    } else if s[pos] != 0xFF {
        SpecLocate::Bad
    } else if s[pos + 1] == 0xDA {
        SpecLocate::Absent { at: ins }
    } else {
        let l = u16_of(ByteOrder::Big, s.subrange(pos + 2, pos + 4)) as int;
        if l < 2 || pos + 2 + l > s.len() {
            SpecLocate::Bad
        } else if s[pos + 1] == 0xE1 && l >= 8 && is_exif_sig(s, pos + 4) {
            SpecLocate::Found {
                lo: pos,
                payload_lo: pos + 10,
                payload_hi: pos + 2 + l,
                hi: pos + 2 + l,
            }
        } else {
            jpeg_scan(s, pos + 2 + l, ins)
        }
    }
}

/// The JPEG insertion point: right after the APP0/JFIF segment when the
/// container opens with one, else right after the SOI marker.
pub open spec fn jpeg_ins(s: Seq<u8>) -> int {
    if s.len() >= 6 && s[2] == 0xFF && s[3] == 0xE0 {
        let l = u16_of(ByteOrder::Big, s.subrange(4, 6)) as int;
        if l >= 2 && 4 + l <= s.len() {
            4 + l
        } else {
            2
        }
    } else {
        2
    }
}

/// Locating within a JPEG: SOI, then the marker walk.
pub open spec fn jpeg_locate(s: Seq<u8>) -> SpecLocate {
    if s.len() < 2 || s[0] != 0xFF || s[1] != 0xD8 {
        SpecLocate::Bad
    } else {
        jpeg_scan(s, 2, jpeg_ins(s))
    }
}

/// Walks PNG chunks from `pos`.
pub open spec fn png_scan(s: Seq<u8>, pos: int, ins: int) -> SpecLocate
    decreases s.len() - pos,
{
    if pos == s.len() {
        SpecLocate::Absent { at: ins }
    } else if pos < 0 || pos + 8 > s.len() {
        SpecLocate::Bad
    } else {
        let l = u32_of(ByteOrder::Big, s.subrange(pos, pos + 4)) as int;
        if pos + 8 + l + 4 > s.len() {
            SpecLocate::Bad
        } else if is4(s, pos + 4, 0x65, 0x58, 0x49, 0x66) {
            SpecLocate::Found {
                lo: pos,
                payload_lo: pos + 8,
                payload_hi: pos + 8 + l,
                hi: pos + 8 + l + 4,
            }
        } else {
            png_scan(s, pos + 8 + l + 4, ins)
        }
    }
}

/// The PNG insertion point: right after the IHDR chunk, before any IDAT.
pub open spec fn png_ins(s: Seq<u8>) -> int {
    8 + 8 + (u32_of(ByteOrder::Big, s.subrange(8, 12)) as int) + 4
}

/// Locating within a PNG: the 8-byte signature, a leading IHDR chunk, then
/// the chunk walk.
pub open spec fn png_locate(s: Seq<u8>) -> SpecLocate {
    if s.len() < 8 || !is4(s, 0, 137, 80, 78, 71) || !is4(s, 4, 13, 10, 26, 10) {
        SpecLocate::Bad
    } else if s.len() < 16 || !is4(s, 12, 0x49, 0x48, 0x44, 0x52) || png_ins(s) > s.len() {
        SpecLocate::Bad
    } else {
        png_scan(s, 8, png_ins(s))
    }
}

/// Walks WebP RIFF sub-chunks from `pos`; payloads are padded to even size.
pub open spec fn webp_scan(s: Seq<u8>, pos: int, ins: int) -> SpecLocate
    decreases s.len() - pos,
{
    if pos == s.len() {
        SpecLocate::Absent { at: ins }
    } else if pos < 0 || pos + 8 > s.len() {
        SpecLocate::Bad
    } else {
        let l = u32_of(ByteOrder::Little, s.subrange(pos + 4, pos + 8)) as int;
        let end = pos + 8 + l + (l % 2);
        if end > s.len() {
            SpecLocate::Bad
        } else if is4(s, pos, 0x45, 0x58, 0x49, 0x46) {
            SpecLocate::Found { lo: pos, payload_lo: pos + 8, payload_hi: pos + 8 + l, hi: end }
        } else {
            webp_scan(s, end, ins)
        }
    }
}

/// The WebP insertion point: after the leading image-data chunk when one is
/// there, else right after the 12-byte RIFF/WEBP header.
pub open spec fn webp_ins(s: Seq<u8>) -> int {
    if s.len() >= 20 {
        let l = u32_of(ByteOrder::Little, s.subrange(16, 20)) as int;
        let e = 12 + 8 + l + (l % 2);
        if e <= s.len() {
            e
        } else {
            12
        }
    } else {
        12
    }
}

/// Locating within a WebP: the RIFF header with a consistent size field,
/// the WEBP tag, then the sub-chunk walk.
pub open spec fn webp_locate(s: Seq<u8>) -> SpecLocate {
    if s.len() < 12 || !is4(s, 0, 0x52, 0x49, 0x46, 0x46) || !is4(s, 8, 0x57, 0x45, 0x42, 0x50)
        || (u32_of(ByteOrder::Little, s.subrange(4, 8)) as int) + 8 != s.len() {
        SpecLocate::Bad
    } else {
        webp_scan(s, 12, webp_ins(s))
    }
}

/// Locating a metadata segment in any supported container.
pub open spec fn spec_locate(format: ImageFormat, s: Seq<u8>) -> SpecLocate {
    match format {
        ImageFormat::Jpeg => jpeg_locate(s),
        ImageFormat::Png => png_locate(s),
        ImageFormat::Webp => webp_locate(s),
    }
}

/// Every range a scan reports lies within the container.
pub open spec fn locate_in_bounds(r: SpecLocate, len: int) -> bool {
    match r {
        SpecLocate::Found { lo, payload_lo, payload_hi, hi } => 0 <= lo <= payload_lo
            <= payload_hi <= hi <= len,
        SpecLocate::Absent { at } => 0 <= at <= len,
        SpecLocate::Bad => true,
    }
}

proof fn lemma_jpeg_scan_bounds(s: Seq<u8>, pos: int, ins: int)
    requires
        0 <= pos <= s.len(),
        0 <= ins <= s.len(),
    ensures
        locate_in_bounds(jpeg_scan(s, pos, ins), s.len() as int),
    decreases s.len() - pos,
{
    if pos == s.len() || pos + 4 > s.len() || s[pos] != 0xFF || s[pos + 1] == 0xDA {
    } else {
        let l = u16_of(ByteOrder::Big, s.subrange(pos + 2, pos + 4)) as int;
        if l < 2 || pos + 2 + l > s.len() {
        } else if s[pos + 1] == 0xE1 && l >= 8 && is_exif_sig(s, pos + 4) {
        } else {
            lemma_jpeg_scan_bounds(s, pos + 2 + l, ins);
        }
    }
}

proof fn lemma_png_scan_bounds(s: Seq<u8>, pos: int, ins: int)
    requires
        0 <= pos <= s.len(),
        0 <= ins <= s.len(),
    ensures
        locate_in_bounds(png_scan(s, pos, ins), s.len() as int),
    decreases s.len() - pos,
{
    if pos == s.len() || pos + 8 > s.len() {
    } else {
        let l = u32_of(ByteOrder::Big, s.subrange(pos, pos + 4)) as int;
        if pos + 8 + l + 4 > s.len() {
        } else if is4(s, pos + 4, 0x65, 0x58, 0x49, 0x66) {
        } else {
            lemma_png_scan_bounds(s, pos + 8 + l + 4, ins);
        }
    }
}

proof fn lemma_webp_scan_bounds(s: Seq<u8>, pos: int, ins: int)
    requires
        0 <= pos <= s.len(),
        0 <= ins <= s.len(),
    ensures
        locate_in_bounds(webp_scan(s, pos, ins), s.len() as int),
    decreases s.len() - pos,
{
    if pos == s.len() || pos + 8 > s.len() {
    } else {
        let l = u32_of(ByteOrder::Little, s.subrange(pos + 4, pos + 8)) as int;
        let end = pos + 8 + l + (l % 2);
        if end > s.len() {
        } else if is4(s, pos, 0x45, 0x58, 0x49, 0x46) {
        } else {
            lemma_webp_scan_bounds(s, end, ins);
        }
    }
}

/// Whatever a locator reports stays within the container's bounds.
pub proof fn lemma_locate_bounds(format: ImageFormat, s: Seq<u8>)
    ensures
        locate_in_bounds(spec_locate(format, s), s.len() as int),
{
    match format {
        ImageFormat::Jpeg => {
            if !(s.len() < 2 || s[0] != 0xFF || s[1] != 0xD8) {
                lemma_jpeg_scan_bounds(s, 2, jpeg_ins(s));
            }
        },
        ImageFormat::Png => {
            if !(s.len() < 8 || !is4(s, 0, 137, 80, 78, 71) || !is4(s, 4, 13, 10, 26, 10)) {
                if !(s.len() < 16 || !is4(s, 12, 0x49, 0x48, 0x44, 0x52) || png_ins(s)
                    > s.len()) {
                    lemma_png_scan_bounds(s, 8, png_ins(s));
                }
            }
        },
        ImageFormat::Webp => {
            if !(s.len() < 12 || !is4(s, 0, 0x52, 0x49, 0x46, 0x46) || !is4(
                s,
                8,
                0x57,
                0x45,
                0x42,
                0x50,
            ) || (u32_of(ByteOrder::Little, s.subrange(4, 8)) as int) + 8 != s.len()) {
                lemma_webp_scan_bounds(s, 12, webp_ins(s));
            }
        },
    }
}

/// The executable image of a non-failing `SpecLocate`.
pub enum Location {
    Found { lo: usize, payload_lo: usize, payload_hi: usize, hi: usize },
    Absent { at: usize },
}

/// Four given bytes at position `p`.
fn check4(s: &Vec<u8>, p: usize, a: u8, b: u8, c: u8, d: u8) -> (r: bool)
    requires
        p + 4 <= s@.len(),
    ensures
        r == is4(s@, p as int, a, b, c, d),
{
    let n = s.len();
    s[p] == a && s[p + 1] == b && s[p + 2] == c && s[p + 3] == d
}

/// Scans a container for its metadata segment. Returns where it is (framed
/// range and payload range), or where one should be inserted, or
/// `MalformedContainer` exactly when the framing is inconsistent.
#[verifier::loop_isolation(false)]
#[verifier::rlimit(60)]
pub fn locate_segment(container: &Vec<u8>, format: ImageFormat) -> (r: Result<
    Location,
    EngineError,
>)
    ensures
        match r {
            Ok(Location::Found { lo, payload_lo, payload_hi, hi }) => spec_locate(
                format,
                container@,
            ) == (SpecLocate::Found {
                lo: lo as int,
                payload_lo: payload_lo as int,
                payload_hi: payload_hi as int,
                hi: hi as int,
            }) && lo <= payload_lo <= payload_hi <= hi <= container@.len(),
            Ok(Location::Absent { at }) => spec_locate(format, container@) == (SpecLocate::Absent {
                at: at as int,
            }) && at <= container@.len(),
            Err(e) => e == EngineError::MalformedContainer && spec_locate(format, container@)
                == SpecLocate::Bad,
        },
{
    match format {
        ImageFormat::Jpeg => locate_jpeg(container),
        ImageFormat::Png => locate_png(container),
        ImageFormat::Webp => locate_webp(container),
    }
}

#[verifier::loop_isolation(false)]
#[verifier::rlimit(60)]
fn locate_jpeg(s: &Vec<u8>) -> (r: Result<Location, EngineError>)
    ensures
        match r {
            Ok(Location::Found { lo, payload_lo, payload_hi, hi }) => jpeg_locate(s@)
                == (SpecLocate::Found {
                lo: lo as int,
                payload_lo: payload_lo as int,
                payload_hi: payload_hi as int,
                hi: hi as int,
            }) && lo <= payload_lo <= payload_hi <= hi <= s@.len(),
            Ok(Location::Absent { at }) => jpeg_locate(s@) == (SpecLocate::Absent { at: at as int })
                && at <= s@.len(),
            Err(e) => e == EngineError::MalformedContainer && jpeg_locate(s@) == SpecLocate::Bad,
        },
{
    let len = s.len();
    if len < 2 || s[0] != 0xFF || s[1] != 0xD8 {
        return Err(EngineError::MalformedContainer);
    }
    // insertion point: after a leading APP0 segment if one is there
    let mut ins: usize = 2;
    if len >= 6 && s[2] == 0xFF && s[3] == 0xE0 {
        let l0 = read_u16(s, 4, ByteOrder::Big) as usize;
        if l0 >= 2 && l0 <= len - 4 {
            ins = 4 + l0;
        }
    }
    proof {
        assert(ins as int == jpeg_ins(s@));
    }
    let mut pos: usize = 2;
    while pos != len
        invariant
            2 <= pos <= len,
            jpeg_scan(s@, 2, ins as int) == jpeg_scan(s@, pos as int, ins as int),
        decreases len - pos,
    {
        if len - pos < 4 {
            return Err(EngineError::MalformedContainer);
        }
        if s[pos] != 0xFF {
            return Err(EngineError::MalformedContainer);
        }
        let marker = s[pos + 1];
        if marker == 0xDA {
            return Ok(Location::Absent { at: ins });
        }
        let l = read_u16(s, pos + 2, ByteOrder::Big) as usize;
        if l < 2 || l > len - 2 - pos {
            return Err(EngineError::MalformedContainer);
        }
        let end = pos + 2 + l;
        if marker == 0xE1 && l >= 8 && check4(s, pos + 4, 0x45, 0x78, 0x69, 0x66) && s[pos + 8]
            == 0 && s[pos + 9] == 0 {
            return Ok(
                Location::Found { lo: pos, payload_lo: pos + 10, payload_hi: end, hi: end },
            );
        }
        pos = end;
    }
    Ok(Location::Absent { at: ins })
}

#[verifier::loop_isolation(false)]
#[verifier::rlimit(60)]
fn locate_png(s: &Vec<u8>) -> (r: Result<Location, EngineError>)
    ensures
        match r {
            Ok(Location::Found { lo, payload_lo, payload_hi, hi }) => png_locate(s@)
                == (SpecLocate::Found {
                lo: lo as int,
                payload_lo: payload_lo as int,
                payload_hi: payload_hi as int,
                hi: hi as int,
            }) && lo <= payload_lo <= payload_hi <= hi <= s@.len(),
            Ok(Location::Absent { at }) => png_locate(s@) == (SpecLocate::Absent { at: at as int })
                && at <= s@.len(),
            Err(e) => e == EngineError::MalformedContainer && png_locate(s@) == SpecLocate::Bad,
        },
{
    let len = s.len();
    if len < 8 || !check4(s, 0, 137, 80, 78, 71) || !check4(s, 4, 13, 10, 26, 10) {
        return Err(EngineError::MalformedContainer);
    }
    if len < 16 || !check4(s, 12, 0x49, 0x48, 0x44, 0x52) {
        return Err(EngineError::MalformedContainer);
    }
    let ihdr_len = read_u32(s, 8, ByteOrder::Big);
    if ihdr_len as u64 + 20 > len as u64 {
        return Err(EngineError::MalformedContainer);
    }
    let ins: usize = 20 + ihdr_len as usize;
    proof {
        assert(ins as int == png_ins(s@));
    }
    let mut pos: usize = 8;
    while pos != len
        invariant
            8 <= pos <= len,
            png_scan(s@, 8, ins as int) == png_scan(s@, pos as int, ins as int),
        decreases len - pos,
    {
        if len - pos < 8 {
            return Err(EngineError::MalformedContainer);
        }
        let l = read_u32(s, pos, ByteOrder::Big);
        let avail: u64 = len as u64 - pos as u64 - 8;
        if l as u64 + 4 > avail {
            return Err(EngineError::MalformedContainer);
        }
        let end = pos + 8 + l as usize + 4;
        if check4(s, pos + 4, 0x65, 0x58, 0x49, 0x66) {
            return Ok(
                Location::Found {
                    lo: pos,
                    payload_lo: pos + 8,
                    payload_hi: pos + 8 + l as usize,
                    hi: end,
                },
            );
        }
        pos = end;
    }
    Ok(Location::Absent { at: ins })
}

#[verifier::loop_isolation(false)]
#[verifier::rlimit(60)]
fn locate_webp(s: &Vec<u8>) -> (r: Result<Location, EngineError>)
    ensures
        match r {
            Ok(Location::Found { lo, payload_lo, payload_hi, hi }) => webp_locate(s@)
                == (SpecLocate::Found {
                lo: lo as int,
                payload_lo: payload_lo as int,
                payload_hi: payload_hi as int,
                hi: hi as int,
            }) && lo <= payload_lo <= payload_hi <= hi <= s@.len(),
            Ok(Location::Absent { at }) => webp_locate(s@) == (SpecLocate::Absent { at: at as int })
                && at <= s@.len(),
            Err(e) => e == EngineError::MalformedContainer && webp_locate(s@) == SpecLocate::Bad,
        },
{
    let len = s.len();
    if len < 12 || !check4(s, 0, 0x52, 0x49, 0x46, 0x46) || !check4(s, 8, 0x57, 0x45, 0x42, 0x50) {
        return Err(EngineError::MalformedContainer);
    }
    let riff_size = read_u32(s, 4, ByteOrder::Little);
    if riff_size as u64 + 8 != len as u64 {
        return Err(EngineError::MalformedContainer);
    }
    let mut ins: usize = 12;
    if len >= 20 {
        let l0 = read_u32(s, 16, ByteOrder::Little);
        let pad0: u64 = l0 as u64 % 2;
        if 20 as u64 + l0 as u64 + pad0 <= len as u64 {
            ins = 20 + l0 as usize + pad0 as usize;
        }
    }
    proof {
        assert(ins as int == webp_ins(s@));
    }
    let mut pos: usize = 12;
    while pos != len
        invariant
            12 <= pos <= len,
            webp_scan(s@, 12, ins as int) == webp_scan(s@, pos as int, ins as int),
        decreases len - pos,
    {
        if len - pos < 8 {
            return Err(EngineError::MalformedContainer);
        }
        let l = read_u32(s, pos + 4, ByteOrder::Little);
        let pad: u64 = l as u64 % 2;
        let avail: u64 = len as u64 - pos as u64 - 8;
        if l as u64 + pad > avail {
            return Err(EngineError::MalformedContainer);
        }
        let end = pos + 8 + l as usize + pad as usize;
        if check4(s, pos, 0x45, 0x58, 0x49, 0x46) {
            return Ok(
                Location::Found {
                    lo: pos,
                    payload_lo: pos + 8,
                    payload_hi: pos + 8 + l as usize,
                    hi: end,
                },
            );
        }
        pos = end;
    }
    Ok(Location::Absent { at: ins })
}

} // verus!
