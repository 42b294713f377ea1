//! The tag dictionary: a static map from logical tag names to their numeric
//! code, owning IFD and count rule. All tags known here are ASCII-typed.

use vstd::prelude::*;
use vstd::slice::slice_index_get;
use vstd::string::StringSliceAdditionalSpecFns;
use crate::EngineError;

verus! {

/// Which IFD of the metadata tree owns a tag.
#[derive(Clone, Copy, PartialEq, Eq, Structural, Debug)]
pub enum IfdKind {
    /// The primary image directory.
    Primary,
    /// The Exif sub-directory reached through the Exif pointer tag.
    Exif,
}

/// The count rule of an ASCII tag: a fixed total byte count (the NUL
/// terminator included) or a variable length.
#[derive(Clone, Copy, PartialEq, Eq, Structural, Debug)]
pub enum CountRule {
    Fixed(u32),
    Variable,
}

/// What the tag dictionary knows of one logical tag.
#[derive(Clone, Copy, PartialEq, Eq, Structural, Debug)]
pub struct TagInfo {
    pub code: u16,
    pub ifd: IfdKind,
    pub rule: CountRule,
}

/// The dictionary as a mathematical map: the entry for a tag name, or
/// `None` when the name is unknown.
pub open spec fn spec_lookup(name: Seq<char>) -> Option<TagInfo> {
    if name == "DateTimeOriginal"@ {
        Some(TagInfo { code: 0x9003, ifd: IfdKind::Exif, rule: CountRule::Fixed(20) })
    } else if name == "DateTimeDigitized"@ {
        Some(TagInfo { code: 0x9004, ifd: IfdKind::Exif, rule: CountRule::Fixed(20) })
    } else if name == "DateTime"@ {
        Some(TagInfo { code: 0x0132, ifd: IfdKind::Primary, rule: CountRule::Fixed(20) })
    } else if name == "ImageDescription"@ {
        Some(TagInfo { code: 0x010e, ifd: IfdKind::Primary, rule: CountRule::Variable })
    } else if name == "Make"@ {
        Some(TagInfo { code: 0x010f, ifd: IfdKind::Primary, rule: CountRule::Variable })
    } else if name == "Model"@ {
        Some(TagInfo { code: 0x0110, ifd: IfdKind::Primary, rule: CountRule::Variable })
    } else {
        None
    }
}

/// Decides equality of two strings by their UTF-8 bytes; UTF-8 encoding is
/// injective, so byte equality coincides with character equality.
#[verifier::loop_isolation(false)]
pub fn str_eq(a: &str, b: &str) -> (r: bool)
    ensures
        r == (a@ == b@),
{
    proof {
        vstd::utf8::encode_utf8_decode_utf8(a@);
        vstd::utf8::encode_utf8_decode_utf8(b@);
    }
    let ab = a.as_bytes();
    let bb = b.as_bytes();
    if ab.len() != bb.len() {
        return false;
    }
    let n = ab.len();
    let mut i: usize = 0;
    while i < n
        invariant
            n == ab@.len() == bb@.len(),
            0 <= i <= n,
            forall|j: int| 0 <= j < i ==> ab@[j] == bb@[j],
        decreases n - i,
    {
        if *slice_index_get(ab, i) != *slice_index_get(bb, i) {
            return false;
        }
        i = i + 1;
    }
    proof {
        assert(ab@ =~= bb@);
    }
    true
}

/// Resolves a logical tag name through the dictionary.
/// Returns `UnknownTag` exactly when the dictionary has no entry for it.
pub fn lookup_tag(name: &str) -> (r: Result<TagInfo, EngineError>)
    ensures
        match r {
            Ok(info) => spec_lookup(name@) == Some(info),
            Err(e) => e == EngineError::UnknownTag && spec_lookup(name@) is None,
        },
{
    if str_eq(name, "DateTimeOriginal") {
        Ok(TagInfo { code: 0x9003, ifd: IfdKind::Exif, rule: CountRule::Fixed(20) })
    } else if str_eq(name, "DateTimeDigitized") {
        Ok(TagInfo { code: 0x9004, ifd: IfdKind::Exif, rule: CountRule::Fixed(20) })
    } else if str_eq(name, "DateTime") {
        Ok(TagInfo { code: 0x0132, ifd: IfdKind::Primary, rule: CountRule::Fixed(20) })
    } else if str_eq(name, "ImageDescription") {
        Ok(TagInfo { code: 0x010e, ifd: IfdKind::Primary, rule: CountRule::Variable })
    } else if str_eq(name, "Make") {
        Ok(TagInfo { code: 0x010f, ifd: IfdKind::Primary, rule: CountRule::Variable })
    } else if str_eq(name, "Model") {
        Ok(TagInfo { code: 0x0110, ifd: IfdKind::Primary, rule: CountRule::Variable })
    } else {
        Err(EngineError::UnknownTag)
    }
}

} // verus!
