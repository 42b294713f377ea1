//! The IFD codec: serializing a metadata model to TIFF bytes and parsing
//! TIFF bytes back into a model. Encoding is always a full rebuild from the
//! model — never an in-place patch — so every value offset is recomputed.

use vstd::prelude::*;
use vstd::slice::{slice_subrange, slice_to_vec};
use crate::{ByteOrder, EngineError};
use crate::bytes::{push_u16, push_u32, read_u16, read_u32, u16_seq, u32_seq, u16_of, u32_of};
use crate::model::{
    EXIF_POINTER_TAG, MetadataModel, SpecEntry, SpecModel, SpecValue, TagEntry, TagValue,
    entries_sorted, entries_view, entries_wf, spec_insert, spec_type_size, type_size,
};

verus! {

/// `n` zero bytes.
pub open spec fn zeros(n: nat) -> Seq<u8> {
    Seq::new(n, |i: int| 0u8)
}

/// The size in bytes of a value on disk.
pub open spec fn value_size(v: SpecValue) -> nat {
    v.data().len()
}

/// How much of the out-of-line value pool a value takes: values of more
/// than 4 bytes go to the pool, smaller ones are inlined.
pub open spec fn big_size(v: SpecValue) -> nat {
    if value_size(v) > 4 {
        value_size(v)
    } else {
        0
    }
}

/// The 12 bytes of one directory entry, given the pool offset its value
/// would be placed at if it is out-of-line.
pub open spec fn entry_bytes(e: SpecEntry, bo: ByteOrder, off: int) -> Seq<u8> {
    u16_seq(bo, e.code) + u16_seq(bo, e.value.type_code()) + u32_seq(bo, e.value.count()) + (
    if value_size(e.value) <= 4 {
        e.value.data() + zeros((4 - value_size(e.value)) as nat)
    } else {
        u32_seq(bo, off as u32)
    })
}

/// The directory records of `s`, values placed in the pool from `off` on.
pub open spec fn entries_bytes(s: Seq<SpecEntry>, bo: ByteOrder, off: int) -> Seq<u8>
    decreases s.len(),
{
    if s.len() == 0 {
        Seq::<u8>::empty()
    } else {
        entry_bytes(s[0], bo, off) + entries_bytes(s.skip(1), bo, off + big_size(s[0].value))
    }
}

/// The out-of-line value pool of `s`: the large values, in entry order.
pub open spec fn pool_bytes(s: Seq<SpecEntry>) -> Seq<u8>
    decreases s.len(),
{
    if s.len() == 0 {
        Seq::<u8>::empty()
    } else {
        (if value_size(s[0].value) > 4 {
            s[0].value.data()
        } else {
            Seq::<u8>::empty()
        }) + pool_bytes(s.skip(1))
    }
}

/// The size of the pool of `s`.
pub open spec fn pool_size(s: Seq<SpecEntry>) -> nat
    decreases s.len(),
{
    if s.len() == 0 {
        0
    } else {
        big_size(s[0].value) + pool_size(s.skip(1))
    }
}

/// The full encoded size of one IFD: count field, records, next-IFD link,
/// pool.
pub open spec fn ifd_size(s: Seq<SpecEntry>) -> nat {
    6 + 12 * s.len() + pool_size(s)
}

/// Pool size distributes over concatenation.
pub proof fn lemma_pool_size_concat(a: Seq<SpecEntry>, b: Seq<SpecEntry>)
    ensures
        pool_size(a + b) == pool_size(a) + pool_size(b),
    decreases a.len(),
{
    if a.len() == 0 {
        assert(a + b =~= b);
    } else {
        assert((a + b).skip(1) =~= a.skip(1) + b);
        assert((a + b)[0] == a[0]);
        lemma_pool_size_concat(a.skip(1), b);
    }
}

/// The length of the directory records is 12 bytes per entry.
pub proof fn lemma_entries_bytes_len(s: Seq<SpecEntry>, bo: ByteOrder, off: int)
    ensures
        entries_bytes(s, bo, off).len() == 12 * s.len(),
    decreases s.len(),
{
    if s.len() > 0 {
        lemma_entries_bytes_len(s.skip(1), bo, off + big_size(s[0].value));
    }
}

/// The length of the pool equals its size.
pub proof fn lemma_pool_bytes_len(s: Seq<SpecEntry>)
    ensures
        pool_bytes(s).len() == pool_size(s),
    decreases s.len(),
{
    if s.len() > 0 {
        lemma_pool_bytes_len(s.skip(1));
    }
}

/// One encoded IFD placed with its first byte at offset `base` from the
/// TIFF header: entry count, records, terminal next-IFD link, value pool.
pub open spec fn spec_encode_ifd(s: Seq<SpecEntry>, bo: ByteOrder, base: int) -> Seq<u8> {
    u16_seq(bo, s.len() as u16) + entries_bytes(s, bo, base + 6 + 12 * s.len()) + u32_seq(bo, 0)
        + pool_bytes(s)
}

/// An encoded IFD takes exactly `ifd_size` bytes.
pub proof fn lemma_encode_ifd_len(s: Seq<SpecEntry>, bo: ByteOrder, base: int)
    ensures
        spec_encode_ifd(s, bo, base).len() == ifd_size(s),
{
    lemma_entries_bytes_len(s, bo, base + 6 + 12 * s.len());
    lemma_pool_bytes_len(s);
}

/// The byte-order marker of a TIFF header.
pub open spec fn bo_marker(bo: ByteOrder) -> Seq<u8> {
    match bo {
        ByteOrder::Little => seq![0x49u8, 0x49u8],
        ByteOrder::Big => seq![0x4du8, 0x4du8],
    }
}

/// The 8-byte TIFF header: byte-order marker, magic 42, offset 8 to IFD0.
pub open spec fn header_bytes(bo: ByteOrder) -> Seq<u8> {
    bo_marker(bo) + u16_seq(bo, 42) + u32_seq(bo, 8)
}

/// Where the Exif sub-IFD begins, relative to the TIFF header: right after
/// the primary IFD with the pointer entry added.
pub open spec fn spec_exif_base(m: SpecModel) -> int {
    8 + 6 + 12 * (m.primary.len() + 1) + pool_size(m.primary) as int
}

/// The synthesized Exif pointer entry: type LONG, count 1, value the
/// sub-IFD's offset.
pub open spec fn spec_pointer_entry(m: SpecModel) -> SpecEntry {
    SpecEntry {
        code: EXIF_POINTER_TAG,
        value: SpecValue::Opaque {
            type_code: 4,
            count: 1,
            data: u32_seq(m.byte_order, spec_exif_base(m) as u32),
        },
    }
}

/// The full TIFF serialization of a model: header, primary IFD (with the
/// pointer entry woven in when an Exif IFD exists), then the Exif IFD.
pub open spec fn spec_encode_model(m: SpecModel) -> Seq<u8> {
    if m.exif.len() == 0 {
        header_bytes(m.byte_order) + spec_encode_ifd(m.primary, m.byte_order, 8)
    } else {
        header_bytes(m.byte_order) + spec_encode_ifd(
            spec_insert(m.primary, spec_pointer_entry(m)),
            m.byte_order,
            8,
        ) + spec_encode_ifd(m.exif, m.byte_order, spec_exif_base(m))
    }
}

/// The total encoded size of a model.
pub open spec fn spec_model_size(m: SpecModel) -> nat {
    if m.exif.len() == 0 {
        8 + ifd_size(m.primary)
    } else {
        8 + ifd_size(m.primary) + 12 + ifd_size(m.exif)
    }
}

/// Whether the model fits the TIFF format at all: entry counts fit the
/// 16-bit count fields and every offset fits 32 bits.
pub open spec fn spec_encodable(m: SpecModel) -> bool {
    &&& m.primary.len() + (if m.exif.len() == 0 {
        0int
    } else {
        1
    }) <= 0xFFFF
    &&& m.exif.len() <= 0xFFFF
    &&& spec_model_size(m) <= 0xFFFF_FFFF
}

/// Computes the pool size of a directory, refusing early when it cannot
/// fit a 32-bit offset space.
#[verifier::loop_isolation(false)]
fn pool_size_exec(entries: &Vec<TagEntry>) -> (r: Option<u64>)
    ensures
        match r {
            Some(p) => p == pool_size(entries_view(entries@)) && p <= 0xFFFF_FFFF,
            None => pool_size(entries_view(entries@)) > 0xFFFF_FFFF,
        },
{
    let ghost s = entries_view(entries@);
    let n = entries.len();
    let mut acc: u64 = 0;
    let mut i: usize = 0;
    proof {
        assert(s.skip(0) =~= s);
    }
    while i < n
        invariant
            0 <= i <= n,
            acc <= 0xFFFF_FFFF,
            acc + pool_size(s.skip(i as int)) == pool_size(s),
        decreases n - i,
    {
        proof {
            assert(s.skip(i as int)[0] == s[i as int]);
            assert(s.skip(i as int).skip(1) =~= s.skip(i + 1));
        }
        let sz = match &entries[i].value {
            TagValue::Ascii(d) => d.len(),
            TagValue::Opaque { data, .. } => data.len(),
        };
        if sz > 4 {
            if sz as u64 > 0xFFFF_FFFF - acc {
                proof {
                    assert(pool_size(s) >= acc + big_size(s[i as int].value));
                }
                return None;
            }
            acc = acc + sz as u64;
        }
        i = i + 1;
    }
    proof {
        assert(s.skip(n as int) =~= Seq::<SpecEntry>::empty());
    }
    Some(acc)
}

/// Appends the bytes of `d`, then zero padding up to 4 bytes in all.
#[verifier::loop_isolation(false)]
fn push_inline(out: &mut Vec<u8>, d: &Vec<u8>)
    requires
        d@.len() <= 4,
    ensures
        final(out)@ == old(out)@ + d@ + zeros((4 - d@.len()) as nat),
{
    let dn = d.len();
    let mut k: usize = 0;
    while k < dn
        invariant
            0 <= k <= dn,
            out@ == old(out)@ + d@.take(k as int),
        decreases dn - k,
    {
        out.push(d[k]);
        k = k + 1;
        proof {
            assert(d@.take(k as int) =~= d@.take(k - 1).push(d@[k - 1]));
        }
    }
    proof {
        assert(d@.take(dn as int) =~= d@);
        assert(zeros(0) =~= Seq::<u8>::empty());
    }
    while k < 4
        invariant
            dn <= k <= 4,
            out@ == old(out)@ + d@ + zeros((k - dn) as nat),
        decreases 4 - k,
    {
        out.push(0u8);
        k = k + 1;
        proof {
            assert(zeros((k - dn) as nat) =~= zeros((k - 1 - dn) as nat).push(0u8));
        }
    }
}

/// Appends the 12-byte directory record of one entry, `off` being the pool
/// offset its value gets if it is out-of-line.
fn write_entry(out: &mut Vec<u8>, e: &TagEntry, bo: ByteOrder, off: u32)
    requires
        e@.wf(),
    ensures
        final(out)@ == old(out)@ + entry_bytes(e@, bo, off as int),
{
    push_u16(out, bo, e.code);
    match &e.value {
        TagValue::Ascii(d) => {
            push_u16(out, bo, 2);
            push_u32(out, bo, d.len() as u32);
            if d.len() <= 4 {
                push_inline(out, d);
            } else {
                push_u32(out, bo, off);
            }
        },
        TagValue::Opaque { type_code, count, data } => {
            push_u16(out, bo, *type_code);
            push_u32(out, bo, *count);
            if data.len() <= 4 {
                push_inline(out, data);
            } else {
                push_u32(out, bo, off);
            }
        },
    }
    proof {
        assert(out@ =~= old(out)@ + entry_bytes(e@, bo, off as int));
    }
}

/// Appends one encoded IFD whose first byte will sit at offset `base` from
/// the TIFF header.
#[verifier::loop_isolation(false)]
#[verifier::rlimit(60)]
fn encode_ifd(out: &mut Vec<u8>, entries: &Vec<TagEntry>, bo: ByteOrder, base: u32)
    requires
        entries_wf(entries_view(entries@)),
        entries@.len() <= 0xFFFF,
        base + ifd_size(entries_view(entries@)) <= 0xFFFF_FFFF,
    ensures
        final(out)@ == old(out)@ + spec_encode_ifd(entries_view(entries@), bo, base as int),
{
    let ghost s = entries_view(entries@);
    let n = entries.len();
    push_u16(out, bo, n as u16);
    let pool_base: u64 = base as u64 + 6 + 12 * (n as u64);
    let mut off: u64 = pool_base;
    let mut i: usize = 0;
    proof {
        assert(s.skip(0) =~= s);
    }
    while i < n
        invariant
            0 <= i <= n,
            off + pool_size(s.skip(i as int)) == pool_base + pool_size(s),
            out@ + entries_bytes(s.skip(i as int), bo, off as int) == old(out)@ + u16_seq(
                bo,
                n as u16,
            ) + entries_bytes(s, bo, pool_base as int),
        decreases n - i,
    {
        let ghost pre = out@;
        let ghost off0 = off as int;
        proof {
            assert(s.skip(i as int)[0] == s[i as int]);
            assert(s.skip(i as int).skip(1) =~= s.skip(i + 1));
            assert(s[i as int].wf());
        }
        let e = &entries[i];
        write_entry(out, e, bo, off as u32);
        let sz = match &e.value {
            TagValue::Ascii(d) => d.len(),
            TagValue::Opaque { data, .. } => data.len(),
        };
        if sz > 4 {
            off = off + sz as u64;
        }
        i = i + 1;
        proof {
            assert(out@ + entries_bytes(s.skip(i as int), bo, off as int) =~= pre + (entry_bytes(
                s[i - 1],
                bo,
                off0,
            ) + entries_bytes(s.skip(i as int), bo, off as int)));
        }
    }
    proof {
        assert(s.skip(n as int) =~= Seq::<SpecEntry>::empty());
        assert(out@ =~= old(out)@ + u16_seq(bo, n as u16) + entries_bytes(
            s,
            bo,
            pool_base as int,
        ));
    }
    push_u32(out, bo, 0);
    let ghost mid = out@;
    let mut i: usize = 0;
    proof {
        assert(s.skip(0) =~= s);
    }
    while i < n
        invariant
            0 <= i <= n,
            out@ + pool_bytes(s.skip(i as int)) == mid + pool_bytes(s),
        decreases n - i,
    {
        proof {
            assert(s.skip(i as int)[0] == s[i as int]);
            assert(s.skip(i as int).skip(1) =~= s.skip(i + 1));
        }
        let d = match &entries[i].value {
            TagValue::Ascii(d) => d,
            TagValue::Opaque { data, .. } => data,
        };
        if d.len() > 4 {
            let mut tmp = slice_to_vec(d.as_slice());
            out.append(&mut tmp);
        }
        i = i + 1;
    }
    proof {
        assert(s.skip(n as int) =~= Seq::<SpecEntry>::empty());
        assert(out@ =~= old(out)@ + spec_encode_ifd(s, bo, base as int));
    }
}

/// Inserting an inline entry with a fresh code leaves the pool unchanged
/// and grows the directory by one.
pub proof fn lemma_pool_size_insert(s: Seq<SpecEntry>, e: SpecEntry)
    requires
        big_size(e.value) == 0,
        !crate::model::has_code(s, e.code),
    ensures
        pool_size(spec_insert(s, e)) == pool_size(s),
        spec_insert(s, e).len() == s.len() + 1,
    decreases s.len(),
{
    if s.len() == 0 {
        assert(seq![e].skip(1) =~= Seq::<SpecEntry>::empty());
        assert(pool_size(seq![e]) == big_size(e.value) + pool_size(seq![e].skip(1)));
        assert(pool_size(Seq::<SpecEntry>::empty()) == 0);
    } else if e.code < s[0].code {
        assert((seq![e] + s).skip(1) =~= s);
        assert((seq![e] + s)[0] == e);
        assert(pool_size(seq![e] + s) == big_size(e.value) + pool_size((seq![e] + s).skip(1)));
    } else if e.code == s[0].code {
        assert(crate::model::has_code(s, e.code)) by {
            assert(0 <= 0 < s.len() && s[0].code == e.code);
        }
        assert(false);
    } else {
        let tail = s.skip(1);
        assert(!crate::model::has_code(tail, e.code)) by {
            if crate::model::has_code(tail, e.code) {
                let k = choose|k: int| 0 <= k < tail.len() && tail[k].code == e.code;
                assert(s[k + 1].code == e.code);
            }
        }
        lemma_pool_size_insert(tail, e);
        assert((seq![s[0]] + spec_insert(tail, e)).skip(1) =~= spec_insert(tail, e));
        assert((seq![s[0]] + spec_insert(tail, e))[0] == s[0]);
        assert(pool_size(seq![s[0]] + spec_insert(tail, e)) == big_size(s[0].value) + pool_size(
            (seq![s[0]] + spec_insert(tail, e)).skip(1),
        ));
        assert(pool_size(s) == big_size(s[0].value) + pool_size(tail));
    }
}

/// A field-for-field copy of a directory.
#[verifier::loop_isolation(false)]
fn clone_entries(entries: &Vec<TagEntry>) -> (r: Vec<TagEntry>)
    ensures
        entries_view(r@) == entries_view(entries@),
{
    let n = entries.len();
    let mut r: Vec<TagEntry> = Vec::new();
    let mut i: usize = 0;
    while i < n
        invariant
            0 <= i <= n,
            r@.len() == i,
            forall|k: int| 0 <= k < i ==> r@[k]@ == entries@[k]@,
        decreases n - i,
    {
        let e = &entries[i];
        let value = match &e.value {
            TagValue::Ascii(d) => TagValue::Ascii(slice_to_vec(d.as_slice())),
            TagValue::Opaque { type_code, count, data } => TagValue::Opaque {
                type_code: *type_code,
                count: *count,
                data: slice_to_vec(data.as_slice()),
            },
        };
        r.push(TagEntry { code: e.code, value });
        i = i + 1;
    }
    proof {
        assert(entries_view(r@) =~= entries_view(entries@));
    }
    r
}

/// Serializes a well-formed model to TIFF bytes: header, primary IFD (the
/// Exif pointer entry synthesized when the Exif IFD is non-empty), Exif IFD.
/// Fails with `SegmentTooLarge` exactly when a count or offset field of the
/// format cannot hold the model.
#[verifier::loop_isolation(false)]
#[verifier::rlimit(60)]
pub fn encode_model(m: &MetadataModel) -> (r: Result<Vec<u8>, EngineError>)
    requires
        m@.wf(),
    ensures
        match r {
            Ok(out) => spec_encodable(m@) && out@ == spec_encode_model(m@) && out@.len()
                == spec_model_size(m@),
            Err(e) => e == EngineError::SegmentTooLarge && !spec_encodable(m@),
        },
{
    let bo = m.byte_order;
    let n_prim = m.primary.len();
    let n_exif = m.exif.len();
    let with_ptr = n_exif > 0;
    if with_ptr && n_prim > 0xFFFE {
        return Err(EngineError::SegmentTooLarge);
    }
    if !with_ptr && n_prim > 0xFFFF {
        return Err(EngineError::SegmentTooLarge);
    }
    if n_exif > 0xFFFF {
        return Err(EngineError::SegmentTooLarge);
    }
    let prim_pool = match pool_size_exec(&m.primary) {
        Some(p) => p,
        None => {
            return Err(EngineError::SegmentTooLarge);
        },
    };
    let exif_pool = match pool_size_exec(&m.exif) {
        Some(p) => p,
        None => {
            return Err(EngineError::SegmentTooLarge);
        },
    };
    let dirs: u64 = if with_ptr {
        12 * (n_prim as u64 + 1) + 6 + 6 + 12 * (n_exif as u64)
    } else {
        6 + 12 * (n_prim as u64)
    };
    let total: u64 = 8 + dirs + prim_pool + (if with_ptr {
        exif_pool
    } else {
        0
    });
    if total > 0xFFFF_FFFF {
        return Err(EngineError::SegmentTooLarge);
    }
    proof {
        assert(spec_encodable(m@));
    }
    let mut out: Vec<u8> = Vec::new();
    match bo {
        ByteOrder::Little => {
            out.push(0x49);
            out.push(0x49);
        },
        ByteOrder::Big => {
            out.push(0x4d);
            out.push(0x4d);
        },
    }
    push_u16(&mut out, bo, 42);
    push_u32(&mut out, bo, 8);
    proof {
        assert(out@ =~= header_bytes(bo));
    }
    if !with_ptr {
        encode_ifd(&mut out, &m.primary, bo, 8);
        proof {
            lemma_encode_ifd_len(m@.primary, bo, 8);
        }
        Ok(out)
    } else {
        let exif_base: u64 = 8 + 6 + 12 * (n_prim as u64 + 1) + prim_pool;
        let mut pdata: Vec<u8> = Vec::new();
        push_u32(&mut pdata, bo, exif_base as u32);
        let pentry = TagEntry {
            code: EXIF_POINTER_TAG,
            value: TagValue::Opaque { type_code: 4, count: 1, data: pdata },
        };
        proof {
            assert(pentry@.wf()) by {
                assert(pdata@.len() == 4);
                assert(spec_type_size(4) == 4);
            }
            assert(pentry@ == spec_pointer_entry(m@));
            assert(!crate::model::has_code(m@.primary, EXIF_POINTER_TAG)) by {
                if crate::model::has_code(m@.primary, EXIF_POINTER_TAG) {
                    let k = choose|k: int|
                        0 <= k < m@.primary.len() && m@.primary[k].code == EXIF_POINTER_TAG;
                    assert(m@.primary[k].code != EXIF_POINTER_TAG);
                }
            }
            lemma_pool_size_insert(m@.primary, pentry@);
        }
        let mut prim2 = clone_entries(&m.primary);
        crate::model::insert_entry(&mut prim2, pentry);
        encode_ifd(&mut out, &prim2, bo, 8);
        proof {
            lemma_encode_ifd_len(entries_view(prim2@), bo, 8);
            lemma_encode_ifd_len(m@.exif, bo, exif_base as int);
        }
        encode_ifd(&mut out, &m.exif, bo, exif_base as u32);
        Ok(out)
    }
}

/// What decoding a segment yields: a model, or one of the two failure
/// kinds.
pub enum DecodeOutcome {
    Model(SpecModel),
    Truncated,
    Malformed,
}

/// The value of one parsed entry: ASCII becomes interpreted, recognized
/// non-ASCII types stay opaque with their exact data, unrecognized type
/// codes keep the 4 raw value-or-offset bytes.
pub open spec fn mk_value(t: u16, cnt: u32, data: Seq<u8>) -> SpecValue {
    if t == 2 {
        SpecValue::Ascii(data)
    } else {
        SpecValue::Opaque { type_code: t, count: cnt, data }
    }
}

/// Parses the 12-byte entry at `pos`; `None` when an out-of-line value
/// offset overruns the segment.
pub open spec fn parse_entry(seg: Seq<u8>, bo: ByteOrder, pos: int) -> Option<SpecEntry>
    recommends
        0 <= pos,
        pos + 12 <= seg.len(),
{
    let code = u16_of(bo, seg.subrange(pos, pos + 2));
    let t = u16_of(bo, seg.subrange(pos + 2, pos + 4));
    let cnt = u32_of(bo, seg.subrange(pos + 4, pos + 8));
    if spec_type_size(t) == 0 {
        Some(SpecEntry { code, value: mk_value(t, cnt, seg.subrange(pos + 8, pos + 12)) })
    } else {
        let size = spec_type_size(t) * cnt;
        if size <= 4 {
            Some(SpecEntry { code, value: mk_value(t, cnt, seg.subrange(pos + 8, pos + 8 + size)) })
        } else {
            let off = u32_of(bo, seg.subrange(pos + 8, pos + 12)) as int;
            if off + size <= seg.len() {
                Some(SpecEntry { code, value: mk_value(t, cnt, seg.subrange(off, off + size)) })
            } else {
                None
            }
        }
    }
}

/// Parses `n` consecutive entries from `pos`.
pub open spec fn parse_entries(seg: Seq<u8>, bo: ByteOrder, pos: int, n: nat) -> Option<
    Seq<SpecEntry>,
>
    decreases n,
{
    if n == 0 {
        Some(Seq::<SpecEntry>::empty())
    } else if pos < 0 || pos + 12 > seg.len() {
        None
    } else {
        match parse_entry(seg, bo, pos) {
            None => None,
            Some(e) => match parse_entries(seg, bo, pos + 12, (n - 1) as nat) {
                None => None,
                Some(r) => Some(seq![e] + r),
            },
        }
    }
}

/// Parses the IFD whose count field sits at `pos`: the count, the entries,
/// and the 4 next-IFD bytes must all lie within the segment.
pub open spec fn parse_ifd(seg: Seq<u8>, bo: ByteOrder, pos: int) -> Option<Seq<SpecEntry>> {
    if pos < 0 || pos + 2 > seg.len() {
        None
    } else {
        let n = u16_of(bo, seg.subrange(pos, pos + 2)) as int;
        if pos + 2 + 12 * n + 4 > seg.len() {
            None
        } else {
            parse_entries(seg, bo, pos + 2, n as nat)
        }
    }
}

/// The byte order a TIFF header declares, if its marker and magic are good.
pub open spec fn spec_tiff_order(seg: Seq<u8>) -> Option<ByteOrder> {
    if seg.len() < 8 {
        None
    } else if seg[0] == 0x49 && seg[1] == 0x49 && u16_of(ByteOrder::Little, seg.subrange(2, 4))
        == 42 {
        Some(ByteOrder::Little)
    } else if seg[0] == 0x4d && seg[1] == 0x4d && u16_of(ByteOrder::Big, seg.subrange(2, 4))
        == 42 {
        Some(ByteOrder::Big)
    } else {
        None
    }
}

/// A directory with its first entry carrying `code` removed; scans front to
/// back, touching nothing else.
pub open spec fn remove_code(s: Seq<SpecEntry>, code: u16) -> Seq<SpecEntry>
    decreases s.len(),
{
    if s.len() == 0 {
        s
    } else if s[0].code == code {
        s.skip(1)
    } else {
        seq![s[0]] + remove_code(s.skip(1), code)
    }
}

/// `remove_code` removes exactly the first occurrence.
pub proof fn lemma_remove_code_at(s: Seq<SpecEntry>, code: u16, i: int)
    requires
        0 <= i < s.len(),
        forall|j: int| 0 <= j < i ==> (#[trigger] s[j]).code != code,
        s[i].code == code,
    ensures
        remove_code(s, code) == s.take(i) + s.skip(i + 1),
    decreases i,
{
    if i == 0 {
        assert(s.take(0) =~= Seq::<SpecEntry>::empty());
        assert(remove_code(s, code) =~= s.take(0) + s.skip(1));
    } else {
        let tail = s.skip(1);
        assert forall|j: int| 0 <= j < i - 1 implies (#[trigger] tail[j]).code != code by {
            assert(tail[j] == s[j + 1]);
        }
        assert(tail[i - 1] == s[i]);
        lemma_remove_code_at(tail, code, i - 1);
        assert(tail.take(i - 1) =~= s.take(i).skip(1));
        assert(tail.skip(i) =~= s.skip(i + 1));
        assert(seq![s[0]] + (tail.take(i - 1) + tail.skip(i)) =~= s.take(i) + s.skip(i + 1));
    }
}

/// The full decoding of a raw TIFF segment, as a mathematical function.
pub open spec fn spec_decode(seg: Seq<u8>) -> DecodeOutcome {
    match spec_tiff_order(seg) {
        None => DecodeOutcome::Malformed,
        Some(bo) => {
            let off = u32_of(bo, seg.subrange(4, 8)) as int;
            match parse_ifd(seg, bo, off) {
                None => DecodeOutcome::Truncated,
                Some(raw) => if !entries_sorted(raw) {
                    DecodeOutcome::Malformed
                } else {
                    match crate::model::spec_get(raw, EXIF_POINTER_TAG) {
                        None => DecodeOutcome::Model(
                            SpecModel { byte_order: bo, primary: raw, exif: Seq::empty() },
                        ),
                        Some(v) => if v.type_code() == 4 && v.count() == 1 {
                            let eoff = u32_of(bo, v.data()) as int;
                            match parse_ifd(seg, bo, eoff) {
                                None => DecodeOutcome::Truncated,
                                Some(eraw) => if !entries_sorted(eraw) {
                                    DecodeOutcome::Malformed
                                } else {
                                    DecodeOutcome::Model(
                                        SpecModel {
                                            byte_order: bo,
                                            primary: remove_code(raw, EXIF_POINTER_TAG),
                                            exif: eraw,
                                        },
                                    )
                                },
                            }
                        } else {
                            DecodeOutcome::Malformed
                        },
                    }
                },
            }
        },
    }
}

/// The encoded model takes exactly `spec_model_size` bytes.
pub proof fn lemma_encode_model_len(m: SpecModel)
    requires
        m.wf(),
    ensures
        spec_encode_model(m).len() == spec_model_size(m),
{
    if m.exif.len() == 0 {
        lemma_encode_ifd_len(m.primary, m.byte_order, 8);
    } else {
        let p = spec_pointer_entry(m);
        assert(!crate::model::has_code(m.primary, EXIF_POINTER_TAG)) by {
            if crate::model::has_code(m.primary, EXIF_POINTER_TAG) {
                let k = choose|k: int|
                    0 <= k < m.primary.len() && m.primary[k].code == EXIF_POINTER_TAG;
                assert(m.primary[k].code != EXIF_POINTER_TAG);
            }
        }
        assert(big_size(p.value) == 0) by {
            assert(p.value.data().len() == 4);
        }
        lemma_pool_size_insert(m.primary, p);
        lemma_encode_ifd_len(spec_insert(m.primary, p), m.byte_order, 8);
        lemma_encode_ifd_len(m.exif, m.byte_order, spec_exif_base(m));
    }
}

/// The `Exif\0\0` signature a JPEG APP1 payload begins with.
pub open spec fn exif_sig() -> Seq<u8> {
    seq![0x45u8, 0x78u8, 0x69u8, 0x66u8, 0u8, 0u8]
}

/// The byte ceiling a TIFF blob must stay under for one format: a JPEG
/// marker segment's payload is capped at 65533 bytes (6 of which the
/// signature takes), a PNG chunk length must keep its top bit clear, a WebP
/// sub-chunk size field is 32 bits with room left for padding and the RIFF
/// framing.
pub open spec fn format_ceiling(format: crate::ImageFormat) -> nat {
    match format {
        crate::ImageFormat::Jpeg => 65527,
        crate::ImageFormat::Png => 0x7FFF_FFFF,
        crate::ImageFormat::Webp => 0xFFFF_FFF0,
    }
}

/// The segment payload of a model for one format: JPEG prepends the
/// `Exif\0\0` signature to the TIFF blob, PNG and WebP carry it bare.
pub open spec fn spec_to_segment(m: SpecModel, format: crate::ImageFormat) -> Seq<u8> {
    match format {
        crate::ImageFormat::Jpeg => exif_sig() + spec_encode_model(m),
        _ => spec_encode_model(m),
    }
}

/// Copies `seg[a..b]` into a fresh vector.
fn copy_range(seg: &Vec<u8>, a: usize, b: usize) -> (r: Vec<u8>)
    requires
        a <= b <= seg@.len(),
    ensures
        r@ == seg@.subrange(a as int, b as int),
{
    slice_to_vec(slice_subrange(seg.as_slice(), a, b))
}

/// Pairwise order follows from adjacent order.
pub proof fn lemma_adjacent_sorted(s: Seq<SpecEntry>)
    requires
        forall|k: int| 0 <= k < s.len() - 1 ==> (#[trigger] s[k]).code < s[k + 1].code,
    ensures
        entries_sorted(s),
{
    assert forall|i: int, j: int| 0 <= i < j < s.len() implies s[i].code < s[j].code by {
        lemma_adjacent_lt(s, i, j);
    }
}

proof fn lemma_adjacent_lt(s: Seq<SpecEntry>, i: int, j: int)
    requires
        forall|k: int| 0 <= k < s.len() - 1 ==> (#[trigger] s[k]).code < s[k + 1].code,
        0 <= i < j < s.len(),
    ensures
        s[i].code < s[j].code,
    decreases j - i,
{
    if j == i + 1 {
        assert(s[i].code < s[i + 1].code);
    } else {
        lemma_adjacent_lt(s, i, j - 1);
        assert(s[j - 1].code < s[j].code);
    }
}

/// Decides whether a directory is strictly ascending by tag code.
#[verifier::loop_isolation(false)]
fn check_sorted(entries: &Vec<TagEntry>) -> (r: bool)
    ensures
        r == entries_sorted(entries_view(entries@)),
{
    let ghost s = entries_view(entries@);
    let n = entries.len();
    if n == 0 {
        return true;
    }
    let mut i: usize = 0;
    while i < n - 1
        invariant
            0 <= i <= n - 1,
            n == s.len(),
            n >= 1,
            forall|k: int| 0 <= k < i ==> (#[trigger] s[k]).code < s[k + 1].code,
        decreases n - i,
    {
        if entries[i].code >= entries[i + 1].code {
            proof {
                assert(!entries_sorted(s)) by {
                    assert(s[i as int].code >= s[i + 1].code);
                }
            }
            return false;
        }
        i = i + 1;
    }
    proof {
        lemma_adjacent_sorted(s);
    }
    true
}

/// Parses the 12-byte entry record at `cur`, fetching an out-of-line value
/// when the entry's data exceeds 4 bytes.
#[verifier::rlimit(60)]
fn parse_entry_exec(seg: &Vec<u8>, bo: ByteOrder, cur: usize) -> (r: Result<TagEntry, EngineError>)
    requires
        cur + 12 <= seg@.len(),
    ensures
        match r {
            Ok(e) => parse_entry(seg@, bo, cur as int) == Some(e@) && e@.wf(),
            Err(err) => err == EngineError::TruncatedIfd && parse_entry(seg@, bo, cur as int)
                is None,
        },
{
    let len = seg.len();
    let code = read_u16(seg, cur, bo);
    let t = read_u16(seg, cur + 2, bo);
    let cnt = read_u32(seg, cur + 4, bo);
    let esize = type_size(t);
    let value = if esize == 0 {
        TagValue::Opaque { type_code: t, count: cnt, data: copy_range(seg, cur + 8, cur + 12) }
    } else {
        let size: u64 = (esize as u64) * (cnt as u64);
        proof {
            if t == 2 {
                assert(spec_type_size(t) == 1);
                assert(size == cnt);
            }
        }
        if size <= 4 {
            let data = copy_range(seg, cur + 8, cur + 8 + size as usize);
            if t == 2 {
                TagValue::Ascii(data)
            } else {
                TagValue::Opaque { type_code: t, count: cnt, data }
            }
        } else {
            let off = read_u32(seg, cur + 8, bo);
            if off as u64 > len as u64 || size > len as u64 - off as u64 {
                return Err(EngineError::TruncatedIfd);
            }
            let data = copy_range(seg, off as usize, off as usize + size as usize);
            if t == 2 {
                TagValue::Ascii(data)
            } else {
                TagValue::Opaque { type_code: t, count: cnt, data }
            }
        }
    };
    let e = TagEntry { code, value };
    proof {
        assert(parse_entry(seg@, bo, cur as int) == Some(e@));
        assert(e@.wf());
    }
    Ok(e)
}

/// Parses the IFD whose count field is at `pos`, yielding its entries.
/// `TruncatedIfd` exactly when a count or offset reads past the segment.
#[verifier::loop_isolation(false)]
#[verifier::rlimit(60)]
fn parse_ifd_exec(seg: &Vec<u8>, bo: ByteOrder, pos: u64) -> (r: Result<Vec<TagEntry>, EngineError>)
    ensures
        match r {
            Ok(v) => parse_ifd(seg@, bo, pos as int) == Some(entries_view(v@)) && (forall|k: int|
                0 <= k < v@.len() ==> (#[trigger] entries_view(v@)[k]).wf()),
            Err(e) => e == EngineError::TruncatedIfd && parse_ifd(seg@, bo, pos as int) is None,
        },
{
    let len = seg.len();
    if pos > u64::MAX - 2 || pos + 2 > len as u64 {
        return Err(EngineError::TruncatedIfd);
    }
    let p = pos as usize;
    let n = read_u16(seg, p, bo) as usize;
    let remaining: u64 = len as u64 - p as u64 - 2;
    if 12 * (n as u64) + 4 > remaining {
        return Err(EngineError::TruncatedIfd);
    }
    let ghost goal = parse_entries(seg@, bo, p + 2, n as nat);
    let mut out: Vec<TagEntry> = Vec::new();
    let mut cur: usize = p + 2;
    let mut i: usize = 0;
    proof {
        assert(entries_view(out@) =~= Seq::<SpecEntry>::empty());
    }
    while i < n
        invariant
            0 <= i <= n,
            cur == p + 2 + 12 * i,
            out@.len() == i,
            forall|k: int| 0 <= k < i ==> (#[trigger] entries_view(out@)[k]).wf(),
            goal == (match parse_entries(seg@, bo, cur as int, (n - i) as nat) {
                None => None::<Seq<SpecEntry>>,
                Some(r) => Some(entries_view(out@) + r),
            }),
        decreases n - i,
    {
        let entry = match parse_entry_exec(seg, bo, cur) {
            Ok(e) => e,
            Err(e) => {
                proof {
                    assert(parse_entries(seg@, bo, cur as int, (n - i) as nat) is None);
                }
                return Err(e);
            },
        };
        let ghost prev_view = entries_view(out@);
        out.push(entry);
        cur = cur + 12;
        i = i + 1;
        proof {
            assert(entries_view(out@) =~= prev_view + seq![entry@]);
            let tail = parse_entries(seg@, bo, cur as int, (n - i) as nat);
            assert(parse_entries(seg@, bo, cur as int - 12, (n - i + 1) as nat) == (match tail {
                None => None::<Seq<SpecEntry>>,
                Some(r) => Some(seq![entry@] + r),
            }));
            if tail is Some {
                assert((prev_view + seq![entry@]) + tail->Some_0 =~= prev_view + (seq![entry@]
                    + tail->Some_0));
            }
        }
    }
    proof {
        assert(parse_entries(seg@, bo, cur as int, 0) == Some(Seq::<SpecEntry>::empty()));
        assert(entries_view(out@) + Seq::<SpecEntry>::empty() =~= entries_view(out@));
    }
    Ok(out)
}

impl MetadataModel {
    /// Decodes a raw TIFF segment into a model: TIFF header, the primary
    /// IFD, and the Exif sub-IFD the pointer tag leads to. Entries must be
    /// in ascending tag-code order; unrecognized value types are preserved
    /// opaquely. `TruncatedIfd` when a count or offset reads past the
    /// segment, `MalformedContainer` when the header, the entry order or
    /// the pointer's shape is wrong.
    pub fn from_segment(seg: &Vec<u8>) -> (r: Result<MetadataModel, EngineError>)
        ensures
            match r {
                Ok(m) => spec_decode(seg@) == DecodeOutcome::Model(m@) && m@.wf(),
                Err(e) => (e == EngineError::TruncatedIfd && spec_decode(seg@)
                    == DecodeOutcome::Truncated) || (e == EngineError::MalformedContainer
                    && spec_decode(seg@) == DecodeOutcome::Malformed),
            },
    {
        let len = seg.len();
        if len < 8 {
            return Err(EngineError::MalformedContainer);
        }
        let bo = if seg[0] == 0x49 && seg[1] == 0x49 {
            ByteOrder::Little
        } else if seg[0] == 0x4d && seg[1] == 0x4d {
            ByteOrder::Big
        } else {
            return Err(EngineError::MalformedContainer);
        };
        if read_u16(seg, 2, bo) != 42 {
            return Err(EngineError::MalformedContainer);
        }
        proof {
            assert(spec_tiff_order(seg@) == Some(bo));
        }
        let off = read_u32(seg, 4, bo);
        let mut raw = match parse_ifd_exec(seg, bo, off as u64) {
            Ok(v) => v,
            Err(e) => {
                return Err(e);
            },
        };
        if !check_sorted(&raw) {
            return Err(EngineError::MalformedContainer);
        }
        let pi = match crate::model::find_entry(&raw, EXIF_POINTER_TAG) {
            None => {
                let m = MetadataModel { byte_order: bo, primary: raw, exif: Vec::new() };
                proof {
                    assert(m@.exif =~= Seq::<SpecEntry>::empty());
                    crate::model::lemma_get_has(entries_view(raw@), EXIF_POINTER_TAG);
                    assert(m@.wf());
                }
                return Ok(m);
            },
            Some(i) => i,
        };
        let eoff = match &raw[pi].value {
            TagValue::Opaque { type_code, count, data } => {
                if *type_code != 4 || *count != 1 {
                    return Err(EngineError::MalformedContainer);
                }
                proof {
                    assert(entries_view(raw@)[pi as int].wf());
                    assert(data@.len() == 4);
                }
                let v = read_u32(data, 0, bo);
                proof {
                    assert(data@.subrange(0, 4) =~= data@);
                }
                v
            },
            TagValue::Ascii(_) => {
                return Err(EngineError::MalformedContainer);
            },
        };
        let exif = match parse_ifd_exec(seg, bo, eoff as u64) {
            Ok(v) => v,
            Err(e) => {
                return Err(e);
            },
        };
        if !check_sorted(&exif) {
            return Err(EngineError::MalformedContainer);
        }
        let ghost s = entries_view(raw@);
        let _ = raw.remove(pi);
        proof {
            assert forall|j: int| 0 <= j < pi implies (#[trigger] s[j]).code != EXIF_POINTER_TAG
                by {
                assert(s[j].code < s[pi as int].code);
            }
            lemma_remove_code_at(s, EXIF_POINTER_TAG, pi as int);
            assert(entries_view(raw@) =~= s.take(pi as int) + s.skip(pi + 1));
        }
        let m = MetadataModel { byte_order: bo, primary: raw, exif };
        proof {
            let t = entries_view(raw@);
            assert forall|k: int| 0 <= k < t.len() implies #[trigger] t[k] == (if k < pi {
                s[k]
            } else {
                s[k + 1]
            }) by {
                if k >= pi {
                    assert(t[k] == s.skip(pi + 1)[k - pi]);
                }
            }
            assert(entries_sorted(t));
            assert(forall|k: int| 0 <= k < t.len() ==> (#[trigger] t[k]).wf());
            assert forall|k: int| 0 <= k < t.len() implies (#[trigger] t[k]).code
                != EXIF_POINTER_TAG by {
                if k < pi {
                    assert(t[k].code < s[pi as int].code);
                } else {
                    assert(t[k].code > s[pi as int].code);
                }
            }
            assert(m@.wf());
        }
        Ok(m)
    }

    /// Re-encodes the model and wraps it in the format's envelope.
    /// `SegmentTooLarge` exactly when the model cannot be encoded or the
    /// result would exceed the format's ceiling.
    pub fn to_segment(&self, format: crate::ImageFormat) -> (r: Result<Vec<u8>, EngineError>)
        requires
            self@.wf(),
        ensures
            match r {
                Ok(out) => spec_encodable(self@) && spec_model_size(self@) <= format_ceiling(
                    format,
                ) && out@ == spec_to_segment(self@, format),
                Err(e) => e == EngineError::SegmentTooLarge && !(spec_encodable(self@)
                    && spec_model_size(self@) <= format_ceiling(format)),
            },
    {
        let tiff = match encode_model(self) {
            Ok(t) => t,
            Err(e) => {
                return Err(e);
            },
        };
        match format {
            crate::ImageFormat::Jpeg => {
                if tiff.len() > 65527 {
                    return Err(EngineError::SegmentTooLarge);
                }
                let mut out: Vec<u8> = Vec::new();
                out.push(0x45);
                out.push(0x78);
                out.push(0x69);
                out.push(0x66);
                out.push(0);
                out.push(0);
                proof {
                    assert(out@ =~= exif_sig());
                }
                let mut t = tiff;
                out.append(&mut t);
                Ok(out)
            },
            crate::ImageFormat::Png => {
                if tiff.len() > 0x7FFF_FFFF {
                    return Err(EngineError::SegmentTooLarge);
                }
                Ok(tiff)
            },
            crate::ImageFormat::Webp => {
                if tiff.len() > 0xFFFF_FFF0 {
                    return Err(EngineError::SegmentTooLarge);
                }
                Ok(tiff)
            },
        }
    }
}

} // verus!
