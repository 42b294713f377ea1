//! Laws of the engine: properties that relate several operations, stated
//! over the same spec functions the operations' contracts use.

use vstd::prelude::*;
use crate::{ByteOrder, EngineError};
use crate::codec::{
    DecodeOutcome, spec_decode, spec_encode_model, bo_marker, header_bytes, entries_bytes,
    pool_bytes,
};
use crate::model::{
    SpecEntry, SpecModel, SpecValue, entries_sorted, spec_get, spec_insert, spec_set_model,
    lemma_spec_insert_at, lemma_insert_effect,
};
use crate::tags::{IfdKind, spec_lookup};

verus! {

/// The first position whose code is not below `code`.
proof fn first_ge(s: Seq<SpecEntry>, code: u16) -> (i: int)
    ensures
        0 <= i <= s.len(),
        forall|j: int| 0 <= j < i ==> (#[trigger] s[j]).code < code,
        i < s.len() ==> s[i].code >= code,
    decreases s.len(),
{
    if s.len() == 0 {
        0
    } else if s[0].code >= code {
        0
    } else {
        let k = first_ge(s.skip(1), code);
        assert forall|j: int| 0 <= j < k + 1 implies (#[trigger] s[j]).code < code by {
            if j > 0 {
                assert(s.skip(1)[j - 1].code < code);
            }
        }
        if k + 1 < s.len() {
            assert(s[k + 1] == s.skip(1)[k]);
        }
        k + 1
    }
}

/// What a sorted insert does: the new code reads back, every other code
/// reads as before, and the directory stays sorted.
pub proof fn lemma_insert_props(s: Seq<SpecEntry>, e: SpecEntry)
    requires
        entries_sorted(s),
    ensures
        entries_sorted(spec_insert(s, e)),
        spec_get(spec_insert(s, e), e.code) == Some(e.value),
        forall|c: u16| c != e.code ==> spec_get(spec_insert(s, e), c) == spec_get(s, c),
{
    let i = first_ge(s, e.code);
    let replaced = i < s.len() && s[i].code == e.code;
    lemma_spec_insert_at(s, e, i, replaced);
    lemma_insert_effect(s, e, i, replaced, spec_insert(s, e));
}

/// Inserting the same entry twice equals inserting it once.
pub proof fn lemma_insert_idempotent(s: Seq<SpecEntry>, e: SpecEntry)
    requires
        entries_sorted(s),
    ensures
        spec_insert(spec_insert(s, e), e) == spec_insert(s, e),
{
    let i = first_ge(s, e.code);
    let replaced = i < s.len() && s[i].code == e.code;
    lemma_spec_insert_at(s, e, i, replaced);
    lemma_insert_effect(s, e, i, replaced, spec_insert(s, e));
    let t = spec_insert(s, e);
    assert(t[i] == e) by {
        assert(t =~= s.take(i) + seq![e] + (if replaced {
            s.skip(i + 1)
        } else {
            s.skip(i)
        }));
    }
    assert forall|j: int| 0 <= j < i implies (#[trigger] t[j]).code < e.code by {
        assert(t[j] == s[j]);
    }
    lemma_spec_insert_at(t, e, i, true);
    assert(t.take(i) =~= s.take(i));
    assert(spec_insert(t, e) =~= t.take(i) + seq![e] + t.skip(i + 1));
    assert(spec_insert(t, e) =~= t);
}

/// Setting the same tag to the same value a second time returns the model
/// unchanged — so embedding one timestamp twice re-encodes a byte-identical
/// metadata segment, and no duplicate segments accumulate.
pub proof fn lemma_set_tag_idempotent(
    m: SpecModel,
    name: Seq<char>,
    value: Seq<char>,
    m1: SpecModel,
)
    requires
        m.wf(),
        spec_set_model(m, name, value) == Ok::<SpecModel, EngineError>(m1),
    ensures
        spec_set_model(m1, name, value) == Ok::<SpecModel, EngineError>(m1),
{
    let info = spec_lookup(name)->Some_0;
    let e = SpecEntry {
        code: info.code,
        value: SpecValue::Ascii(crate::model::ascii_seq(value).push(0)),
    };
    match info.ifd {
        IfdKind::Primary => {
            lemma_insert_idempotent(m.primary, e);
        },
        IfdKind::Exif => {
            lemma_insert_idempotent(m.exif, e);
        },
    }
}

/// Reading a tag back right after setting it yields exactly the value
/// stored: the supplied ASCII bytes with their NUL terminator.
pub proof fn lemma_set_then_get(m: SpecModel, name: Seq<char>, value: Seq<char>, m1: SpecModel)
    requires
        m.wf(),
        spec_set_model(m, name, value) == Ok::<SpecModel, EngineError>(m1),
    ensures
        ({
            let info = spec_lookup(name)->Some_0;
            spec_get(m1.ifd_of(info.ifd), info.code) == Some(
                SpecValue::Ascii(crate::model::ascii_seq(value).push(0)),
            )
        }),
{
    let info = spec_lookup(name)->Some_0;
    let e = SpecEntry {
        code: info.code,
        value: SpecValue::Ascii(crate::model::ascii_seq(value).push(0)),
    };
    match info.ifd {
        IfdKind::Primary => {
            lemma_insert_props(m.primary, e);
        },
        IfdKind::Exif => {
            lemma_insert_props(m.exif, e);
        },
    }
}

/// Setting one tag never touches entries stored under any other code, in
/// either directory.
pub proof fn lemma_unrelated_tags_preserved(
    m: SpecModel,
    name: Seq<char>,
    value: Seq<char>,
    m1: SpecModel,
    c: u16,
)
    requires
        m.wf(),
        spec_set_model(m, name, value) == Ok::<SpecModel, EngineError>(m1),
        c != spec_lookup(name)->Some_0.code,
    ensures
        spec_get(m1.primary, c) == spec_get(m.primary, c),
        spec_get(m1.exif, c) == spec_get(m.exif, c),
{
    let info = spec_lookup(name)->Some_0;
    let e = SpecEntry {
        code: info.code,
        value: SpecValue::Ascii(crate::model::ascii_seq(value).push(0)),
    };
    match info.ifd {
        IfdKind::Primary => {
            lemma_insert_props(m.primary, e);
        },
        IfdKind::Exif => {
            lemma_insert_props(m.exif, e);
        },
    }
}

/// A decoded model carries the byte order its TIFF header declares, a tag
/// edit keeps it, and re-encoding writes the same order's marker: editing a
/// big-endian container never flips it to little-endian.
pub proof fn lemma_endianness_preserved(
    seg: Seq<u8>,
    m0: SpecModel,
    name: Seq<char>,
    value: Seq<char>,
    m1: SpecModel,
)
    requires
        spec_decode(seg) == DecodeOutcome::Model(m0),
        spec_set_model(m0, name, value) == Ok::<SpecModel, EngineError>(m1),
        seg[0] == 0x4d,
    ensures
        m1.byte_order == ByteOrder::Big,
        spec_encode_model(m1)[0] == 0x4d,
        spec_encode_model(m1)[1] == 0x4d,
{
    assert(m0.byte_order == ByteOrder::Big);
    assert(m1.byte_order == m0.byte_order);
    let out = spec_encode_model(m1);
    assert(out[0] == 0x4d && out[1] == 0x4d) by {
        assert(bo_marker(ByteOrder::Big)[0] == 0x4d);
        assert(bo_marker(ByteOrder::Big)[1] == 0x4d);
        assert(header_bytes(m1.byte_order)[0] == 0x4d);
        assert(header_bytes(m1.byte_order)[1] == 0x4d);
        assert(header_bytes(m1.byte_order).len() == 8);
    }
}

/// The byte range an embedding pass replaces: the located segment, or the
/// empty range at the insertion point.
pub open spec fn spec_edit_range(format: crate::ImageFormat, image: Seq<u8>) -> (int, int) {
    match crate::locator::spec_locate(format, image) {
        crate::locator::SpecLocate::Found { lo, hi, .. } => (lo, hi),
        crate::locator::SpecLocate::Absent { at } => (at, at),
        crate::locator::SpecLocate::Bad => (0, 0),
    }
}

/// Non-metadata bytes are preserved: on success, every byte of the input
/// outside the replaced segment range is bit-identical in the output — the
/// prefix in place, the suffix shifted by the new segment's size. The one
/// exception is the RIFF total-size field of a WebP container (bytes 4 to
/// 7), which frames the whole file and must track the new length.
#[verifier::rlimit(100)]
pub proof fn lemma_bytes_outside_segment_preserved(
    image: Seq<u8>,
    t: Seq<char>,
    format: crate::ImageFormat,
    out: Seq<u8>,
)
    requires
        crate::engine::spec_embed(image, t, format) == Ok::<Seq<u8>, EngineError>(out),
    ensures
        ({
            let (lo, hi) = spec_edit_range(format, image);
            &&& 0 <= lo <= hi <= image.len()
            &&& out.len() >= lo + (image.len() - hi)
            &&& forall|k: int|
                0 <= k < lo && !(format == crate::ImageFormat::Webp && 4 <= k < 8)
                    ==> out[k] == image[k]
            &&& forall|k: int|
                hi <= k < image.len() ==> out[out.len() - (image.len() - k)] == image[k]
        }),
{
    crate::locator::lemma_locate_bounds(format, image);
    let (lo, hi) = spec_edit_range(format, image);
    let loc = crate::locator::spec_locate(format, image);
    assert(!(loc is Bad));
    let m0 = match loc {
        crate::locator::SpecLocate::Found { payload_lo, payload_hi, .. } => {
            crate::codec::spec_decode(
                image.subrange(payload_lo, payload_hi),
            )->Model_0
        },
        _ => SpecModel {
            byte_order: ByteOrder::Little,
            primary: Seq::empty(),
            exif: Seq::empty(),
        },
    };
    let m1 = spec_set_model(m0, "DateTimeOriginal"@, t)->Ok_0;
    let frame = crate::writer::spec_frame(
        crate::codec::spec_to_segment(m1, format),
        format,
    );
    let mid = image.take(lo) + frame + image.skip(hi);
    match format {
        crate::ImageFormat::Webp => {
            assert(out == mid.take(4) + crate::bytes::u32_seq(
                ByteOrder::Little,
                (mid.len() - 8) as u32,
            ) + mid.skip(8));
            assert(out.len() == mid.len());
            assert forall|k: int|
                0 <= k < lo && !(4 <= k < 8) implies out[k] == image[k] by {
                if k < 4 {
                    assert(out[k] == mid[k]);
                } else {
                    assert(out[k] == mid.skip(8)[k - 8]);
                }
                assert(mid[k] == image.take(lo)[k]);
            }
            assert forall|k: int| hi <= k < image.len() implies out[out.len() - (image.len()
                - k)] == image[k] by {
                let p = out.len() - (image.len() - k);
                assert(p >= lo + frame.len());
                assert(mid[p] == image.skip(hi)[p - lo - frame.len()]);
                assert(out[p] == mid.skip(8)[p - 8]);
            }
        },
        _ => {
            assert(out == mid);
            assert forall|k: int| 0 <= k < lo implies out[k] == image[k] by {
                assert(mid[k] == image.take(lo)[k]);
            }
            assert forall|k: int| hi <= k < image.len() implies out[out.len() - (image.len()
                - k)] == image[k] by {
                let p = out.len() - (image.len() - k);
                assert(mid[p] == image.skip(hi)[p - lo - frame.len()]);
            }
        },
    }
}

/// An empty model survives the encode/decode round trip: wrapping and
/// unwrapping a fresh metadata structure yields the same empty model, in
/// either byte order.
pub proof fn lemma_empty_model_round_trip(bo: ByteOrder)
    ensures
        ({
            let m = SpecModel { byte_order: bo, primary: Seq::empty(), exif: Seq::empty() };
            spec_decode(spec_encode_model(m)) == DecodeOutcome::Model(m)
        }),
{
    let m = SpecModel { byte_order: bo, primary: Seq::<SpecEntry>::empty(), exif: Seq::<
        SpecEntry,
    >::empty() };
    let seg = spec_encode_model(m);
    crate::bytes::lemma_u16_round(bo, 42);
    crate::bytes::lemma_u16_round(bo, 0);
    crate::bytes::lemma_u32_round(bo, 8);
    crate::bytes::lemma_u32_round(bo, 0);
    assert(entries_bytes(m.primary, bo, 14) =~= Seq::<u8>::empty());
    assert(pool_bytes(m.primary) =~= Seq::<u8>::empty());
    assert(seg =~= bo_marker(bo) + crate::bytes::u16_seq(bo, 42) + crate::bytes::u32_seq(bo, 8)
        + crate::bytes::u16_seq(bo, 0) + crate::bytes::u32_seq(bo, 0));
    assert(seg.len() == 14);
    assert(seg.subrange(0, 2) =~= bo_marker(bo));
    assert(seg.subrange(2, 4) =~= crate::bytes::u16_seq(bo, 42));
    assert(seg.subrange(4, 8) =~= crate::bytes::u32_seq(bo, 8));
    assert(seg.subrange(8, 10) =~= crate::bytes::u16_seq(bo, 0));
    assert(seg[0] == bo_marker(bo)[0] && seg[1] == bo_marker(bo)[1]);
    assert(crate::bytes::u16_of(bo, seg.subrange(2, 4)) == 42);
    assert(crate::bytes::u32_of(bo, seg.subrange(4, 8)) == 8);
    assert(crate::bytes::u16_of(bo, seg.subrange(8, 10)) == 0);
    match bo {
        ByteOrder::Little => {
            assert(crate::codec::spec_tiff_order(seg) == Some(ByteOrder::Little));
        },
        ByteOrder::Big => {
            assert(crate::codec::spec_tiff_order(seg) == Some(ByteOrder::Big));
        },
    }
    assert(crate::codec::parse_ifd(seg, bo, 8) == Some(Seq::<SpecEntry>::empty()));
    assert(spec_get(Seq::<SpecEntry>::empty(), crate::model::EXIF_POINTER_TAG) is None);
    assert(spec_decode(seg) == DecodeOutcome::Model(m));
}

} // verus!
