//! The metadata model: the tree of tag directories (primary IFD plus the
//! optional Exif sub-IFD) that an edit session owns, together with the
//! tag-set and tag-get operations.

use vstd::prelude::*;
use vstd::slice::slice_to_vec;
use vstd::string::StringSliceAdditionalSpecFns;
use crate::{ByteOrder, EngineError};
use crate::tags::{CountRule, IfdKind, TagInfo, lookup_tag, spec_lookup};

verus! {

/// The code of the pointer tag that links the primary IFD to the Exif
/// sub-IFD. It never appears as an ordinary entry of the primary IFD: the
/// codec synthesizes it on encode and consumes it on decode.
pub const EXIF_POINTER_TAG: u16 = 0x8769;

/// The TIFF value-type code of ASCII values.
pub const TYPE_ASCII: u16 = 2;

/// Bytes per element of a TIFF value type; 0 for an unrecognized code.
pub open spec fn spec_type_size(t: u16) -> nat {
    if t == 1 || t == 2 || t == 6 || t == 7 {
        1
    } else if t == 3 || t == 8 {
        2
    } else if t == 4 || t == 9 || t == 11 {
        4
    } else if t == 5 || t == 10 || t == 12 {
        8
    } else {
        0
    }
}

/// Bytes per element of a TIFF value type; 0 for an unrecognized code.
pub fn type_size(t: u16) -> (r: usize)
    ensures
        r == spec_type_size(t),
{
    if t == 1 || t == 2 || t == 6 || t == 7 {
        1
    } else if t == 3 || t == 8 {
        2
    } else if t == 4 || t == 9 || t == 11 {
        4
    } else if t == 5 || t == 10 || t == 12 {
        8
    } else {
        0
    }
}

/// The value of one tag entry. ASCII values are the ones the tag dictionary
/// works with and are interpreted; every other value is preserved opaquely,
/// as the raw bytes found in the container, so that unrecognized or
/// vendor-specific entries survive a rewrite unchanged.
pub enum TagValue {
    /// An ASCII value: the raw bytes, NUL terminator included.
    Ascii(Vec<u8>),
    /// Any other value, kept as raw bytes. For a recognized type code `data`
    /// holds `count` elements of the type's size; for an unrecognized code it
    /// holds the entry's 4 value-or-offset bytes unread.
    Opaque { type_code: u16, count: u32, data: Vec<u8> },
}

/// One directory entry: a tag code and its value.
pub struct TagEntry {
    pub code: u16,
    pub value: TagValue,
}

/// The mathematical image of a `TagValue`.
pub enum SpecValue {
    Ascii(Seq<u8>),
    Opaque { type_code: u16, count: u32, data: Seq<u8> },
}

/// The mathematical image of a `TagEntry`.
pub struct SpecEntry {
    pub code: u16,
    pub value: SpecValue,
}

/// The mathematical image of a `MetadataModel`.
pub struct SpecModel {
    pub byte_order: ByteOrder,
    pub primary: Seq<SpecEntry>,
    pub exif: Seq<SpecEntry>,
}

impl View for TagValue {
    type V = SpecValue;

    open spec fn view(&self) -> SpecValue {
        match self {
            TagValue::Ascii(d) => SpecValue::Ascii(d@),
            TagValue::Opaque { type_code, count, data } => SpecValue::Opaque {
                type_code: *type_code,
                count: *count,
                data: data@,
            },
        }
    }
}

impl View for TagEntry {
    type V = SpecEntry;

    open spec fn view(&self) -> SpecEntry {
        SpecEntry { code: self.code, value: self.value@ }
    }
}

/// The mathematical image of a list of entries.
pub open spec fn entries_view(s: Seq<TagEntry>) -> Seq<SpecEntry> {
    Seq::new(s.len(), |i: int| s[i]@)
}

impl SpecValue {
    /// The TIFF type code the value is written with.
    pub open spec fn type_code(self) -> u16 {
        match self {
            SpecValue::Ascii(_) => TYPE_ASCII,
            SpecValue::Opaque { type_code, .. } => type_code,
        }
    }

    /// The element count the value is written with.
    pub open spec fn count(self) -> u32 {
        match self {
            SpecValue::Ascii(d) => d.len() as u32,
            SpecValue::Opaque { count, .. } => count,
        }
    }

    /// The raw value bytes, in the byte order of the segment they came from
    /// or will go to.
    pub open spec fn data(self) -> Seq<u8> {
        match self {
            SpecValue::Ascii(d) => d,
            SpecValue::Opaque { data, .. } => data,
        }
    }

    /// Consistency of count, type code and data size.
    pub open spec fn wf(self) -> bool {
        match self {
            SpecValue::Ascii(d) => d.len() <= 0xFFFF_FFFF,
            SpecValue::Opaque { type_code, count, data } => {
                &&& type_code != TYPE_ASCII
                &&& if spec_type_size(type_code) > 0 {
                    data.len() == spec_type_size(type_code) * count
                } else {
                    data.len() == 4
                }
            },
        }
    }
}

impl SpecEntry {
    pub open spec fn wf(self) -> bool {
        self.value.wf()
    }
}

/// Tag codes strictly ascending, which also makes them unique.
pub open spec fn entries_sorted(s: Seq<SpecEntry>) -> bool {
    forall|i: int, j: int| 0 <= i < j < s.len() ==> s[i].code < s[j].code
}

/// A well-formed directory: sorted, unique codes, consistent values.
pub open spec fn entries_wf(s: Seq<SpecEntry>) -> bool {
    &&& entries_sorted(s)
    &&& forall|i: int| 0 <= i < s.len() ==> (#[trigger] s[i]).wf()
}

impl SpecModel {
    /// The model invariant: both directories well-formed, and the Exif
    /// pointer never stored as an ordinary primary entry.
    pub open spec fn wf(self) -> bool {
        &&& entries_wf(self.primary)
        &&& entries_wf(self.exif)
        &&& forall|i: int| 0 <= i < self.primary.len() ==> (#[trigger] self.primary[i]).code
            != EXIF_POINTER_TAG
    }

    /// The directory a tag with the given owner lives in.
    pub open spec fn ifd_of(self, kind: IfdKind) -> Seq<SpecEntry> {
        match kind {
            IfdKind::Primary => self.primary,
            IfdKind::Exif => self.exif,
        }
    }
}

/// The value stored under `code`, scanning front to back.
pub open spec fn spec_get(s: Seq<SpecEntry>, code: u16) -> Option<SpecValue>
    decreases s.len(),
{
    if s.len() == 0 {
        None
    } else if s[0].code == code {
        Some(s[0].value)
    } else {
        spec_get(s.subrange(1, s.len() as int), code)
    }
}

/// Whether some entry carries `code`.
pub open spec fn has_code(s: Seq<SpecEntry>, code: u16) -> bool {
    exists|i: int| 0 <= i < s.len() && s[i].code == code
}

/// One unfolding step of `spec_get`.
pub proof fn lemma_get_unfold(s: Seq<SpecEntry>, code: u16)
    requires
        s.len() > 0,
    ensures
        spec_get(s, code) == if s[0].code == code {
            Some(s[0].value)
        } else {
            spec_get(s.skip(1), code)
        },
{
    assert(s.subrange(1, s.len() as int) =~= s.skip(1));
}

/// `spec_get` finds a value exactly when some entry carries the code.
pub proof fn lemma_get_has(s: Seq<SpecEntry>, code: u16)
    ensures
        (spec_get(s, code) is Some) == has_code(s, code),
    decreases s.len(),
{
    if s.len() == 0 {
    } else if s[0].code == code {
        assert(has_code(s, code)) by {
            assert(0 <= 0 < s.len() && s[0].code == code);
        }
    } else {
        assert(s.subrange(1, s.len() as int) =~= s.skip(1));
        lemma_get_has(s.skip(1), code);
        assert(has_code(s, code) == has_code(s.skip(1), code)) by {
            if has_code(s, code) {
                let i = choose|i: int| 0 <= i < s.len() && s[i].code == code;
                assert(s.skip(1)[i - 1].code == code);
            }
            if has_code(s.skip(1), code) {
                let i = choose|i: int| 0 <= i < s.skip(1).len() && s.skip(1)[i].code == code;
                assert(s[i + 1].code == code);
            }
        }
    }
}

/// `spec_get` over a concatenation looks left first.
pub proof fn lemma_get_concat(a: Seq<SpecEntry>, b: Seq<SpecEntry>, code: u16)
    ensures
        spec_get(a + b, code) == if has_code(a, code) {
            spec_get(a, code)
        } else {
            spec_get(b, code)
        },
    decreases a.len(),
{
    if a.len() == 0 {
        assert(a + b =~= b);
        assert(!has_code(a, code));
    } else {
        lemma_get_unfold(a + b, code);
        lemma_get_unfold(a, code);
        if a[0].code == code {
            assert((a + b)[0] == a[0]);
            assert(has_code(a, code));
        } else {
            assert((a + b).skip(1) =~= a.skip(1) + b);
            lemma_get_concat(a.skip(1), b, code);
            assert(has_code(a, code) == has_code(a.skip(1), code)) by {
                if has_code(a, code) {
                    let i = choose|i: int| 0 <= i < a.len() && a[i].code == code;
                    assert(a.skip(1)[i - 1].code == code);
                }
                if has_code(a.skip(1), code) {
                    let i = choose|i: int| 0 <= i < a.skip(1).len() && a.skip(1)[i].code == code;
                    assert(a[i + 1].code == code);
                }
            }
        }
    }
}

/// What a sorted insert-or-replace at position `i` does to a directory.
pub proof fn lemma_insert_effect(s: Seq<SpecEntry>, e: SpecEntry, i: int, replaced: bool, t: Seq<
    SpecEntry,
>)
    requires
        entries_sorted(s),
        0 <= i <= s.len(),
        forall|j: int| 0 <= j < i ==> (#[trigger] s[j]).code < e.code,
        i < s.len() ==> s[i].code >= e.code,
        replaced == (i < s.len() && s[i].code == e.code),
        t == s.take(i) + seq![e] + (if replaced {
            s.skip(i + 1)
        } else {
            s.skip(i)
        }),
    ensures
        entries_sorted(t),
        has_code(s, e.code) == replaced,
        spec_get(t, e.code) == Some(e.value),
        forall|c: u16| c != e.code ==> spec_get(t, c) == spec_get(s, c),
        forall|k: int| 0 <= k < t.len() ==> t[k] == e || s.contains(t[k]),
        t.len() == s.len() + (if replaced {
            0int
        } else {
            1
        }),
{
    let a = s.take(i);
    let rest = if replaced {
        s.skip(i + 1)
    } else {
        s.skip(i)
    };
    assert(t =~= a + (seq![e] + rest));

    // where each element of t comes from
    assert forall|k: int| 0 <= k < t.len() implies #[trigger] t[k] == (if k < i {
        s[k]
    } else if k == i {
        e
    } else if replaced {
        s[k]
    } else {
        s[k - 1]
    }) by {
        if k > i {
            assert(t[k] == rest[k - i - 1]);
        }
    }

    // has_code(s, e.code) == replaced
    if replaced {
        assert(s[i].code == e.code);
        assert(has_code(s, e.code));
    } else {
        assert(!has_code(s, e.code)) by {
            if has_code(s, e.code) {
                let k = choose|k: int| 0 <= k < s.len() && s[k].code == e.code;
                if k < i {
                    assert(s[k].code < e.code);
                } else if k > i {
                    assert(s[i].code < s[k].code);
                }
            }
        }
    }

    assert(!has_code(a, e.code)) by {
        if has_code(a, e.code) {
            let k = choose|k: int| 0 <= k < a.len() && a[k].code == e.code;
            assert(s[k].code < e.code);
        }
    }

    // sortedness of t
    assert forall|p: int, q: int| 0 <= p < q < t.len() implies t[p].code < t[q].code by {
        if p == i && q > i && !replaced {
            assert(s[i].code > e.code);
            assert(t[q] == s[q - 1]);
            assert(s[q - 1].code >= s[i].code);
        }
    }

    // spec_get(t, e.code)
    lemma_get_concat(a, seq![e] + rest, e.code);
    lemma_get_unfold(seq![e] + rest, e.code);
    assert((seq![e] + rest)[0] == e);

    // spec_get(t, c) for c != e.code
    assert forall|c: u16| c != e.code implies spec_get(t, c) == spec_get(s, c) by {
        lemma_get_concat(a, seq![e] + rest, c);
        lemma_get_unfold(seq![e] + rest, c);
        assert((seq![e] + rest).skip(1) =~= rest);
        assert(s =~= a + s.skip(i));
        lemma_get_concat(a, s.skip(i), c);
        if !has_code(a, c) {
            if replaced {
                assert(s.skip(i).len() > 0);
                assert(s.skip(i)[0] == s[i]);
                lemma_get_unfold(s.skip(i), c);
                assert(s.skip(i).skip(1) =~= s.skip(i + 1));
            }
        }
    }

    // provenance of every element of t
    assert forall|k: int| 0 <= k < t.len() implies t[k] == e || s.contains(t[k]) by {
        if k < i {
            assert(s.contains(t[k])) by {
                assert(s[k] == t[k]);
            }
        } else if k > i {
            if replaced {
                assert(s.contains(t[k])) by {
                    assert(s[k] == t[k]);
                }
            } else {
                assert(s.contains(t[k])) by {
                    assert(s[k - 1] == t[k]);
                }
            }
        }
    }
}

/// Insert-or-replace into a sorted directory, as a mathematical function.
pub open spec fn spec_insert(s: Seq<SpecEntry>, e: SpecEntry) -> Seq<SpecEntry>
    decreases s.len(),
{
    if s.len() == 0 {
        seq![e]
    } else if e.code < s[0].code {
        seq![e] + s
    } else if e.code == s[0].code {
        seq![e] + s.skip(1)
    } else {
        seq![s[0]] + spec_insert(s.skip(1), e)
    }
}

/// `spec_insert` lands at the first position whose code is not below the
/// new entry's code.
pub proof fn lemma_spec_insert_at(s: Seq<SpecEntry>, e: SpecEntry, i: int, replaced: bool)
    requires
        0 <= i <= s.len(),
        forall|j: int| 0 <= j < i ==> (#[trigger] s[j]).code < e.code,
        i < s.len() ==> s[i].code >= e.code,
        replaced == (i < s.len() && s[i].code == e.code),
    ensures
        spec_insert(s, e) == s.take(i) + seq![e] + (if replaced {
            s.skip(i + 1)
        } else {
            s.skip(i)
        }),
    decreases i,
{
    if i == 0 {
        assert(s.take(0) =~= Seq::<SpecEntry>::empty());
        if s.len() == 0 {
            assert(spec_insert(s, e) =~= s.take(0) + seq![e] + s.skip(0));
        } else if replaced {
            assert(spec_insert(s, e) =~= s.take(0) + seq![e] + s.skip(1));
        } else {
            assert(e.code < s[0].code);
            assert(s.skip(0) =~= s);
            assert(spec_insert(s, e) =~= s.take(0) + seq![e] + s);
        }
    } else {
        assert(s[0].code < e.code);
        let tail = s.skip(1);
        assert forall|j: int| 0 <= j < i - 1 implies (#[trigger] tail[j]).code < e.code by {
            assert(tail[j] == s[j + 1]);
        }
        lemma_spec_insert_at(tail, e, i - 1, replaced);
        assert(tail.take(i - 1) =~= s.take(i).skip(1));
        if replaced {
            assert(tail.skip(i) =~= s.skip(i + 1));
            assert(seq![s[0]] + (tail.take(i - 1) + seq![e] + tail.skip(i)) =~= s.take(i) + seq![e]
                + s.skip(i + 1));
        } else {
            assert(tail.skip(i - 1) =~= s.skip(i));
            assert(seq![s[0]] + (tail.take(i - 1) + seq![e] + tail.skip(i - 1)) =~= s.take(i)
                + seq![e] + s.skip(i));
        }
    }
}

/// The exact relation between a directory before and after setting one tag.
pub open spec fn entries_updated(old_s: Seq<SpecEntry>, new_s: Seq<SpecEntry>, e: SpecEntry) -> bool {
    &&& spec_get(new_s, e.code) == Some(e.value)
    &&& forall|c: u16| c != e.code ==> spec_get(new_s, c) == spec_get(old_s, c)
    &&& forall|k: int| 0 <= k < new_s.len() ==> new_s[k] == e || old_s.contains(new_s[k])
    &&& new_s.len() == old_s.len() + (if has_code(old_s, e.code) {
        0int
    } else {
        1
    })
}

/// Inserts an entry into a sorted directory, replacing the entry with the
/// same code if one is there.
#[verifier::loop_isolation(false)]
pub fn insert_entry(entries: &mut Vec<TagEntry>, entry: TagEntry)
    requires
        entries_wf(entries_view(old(entries)@)),
        entry@.wf(),
    ensures
        entries_view(final(entries)@) == spec_insert(entries_view(old(entries)@), entry@),
        entries_wf(entries_view(final(entries)@)),
        entries_updated(entries_view(old(entries)@), entries_view(final(entries)@), entry@),
{
    let ghost s = entries_view(old(entries)@);
    let code = entry.code;
    let n = entries.len();
    let mut i: usize = 0;
    while i < n && entries[i].code < code
        invariant
            0 <= i <= n,
            forall|j: int| 0 <= j < i ==> (#[trigger] s[j]).code < code,
        decreases n - i,
    {
        i = i + 1;
    }
    let replaced = i < n && entries[i].code == code;
    if replaced {
        let _ = entries.remove(i);
    }
    entries.insert(i, entry);
    proof {
        let t = entries_view(entries@);
        assert(t =~= s.take(i as int) + seq![entry@] + (if replaced {
            s.skip(i + 1)
        } else {
            s.skip(i as int)
        }));
        lemma_insert_effect(s, entry@, i as int, replaced, t);
        lemma_spec_insert_at(s, entry@, i as int, replaced);
    }
}

/// Finds the index of the entry carrying `code`, if any, and relates it to
/// `spec_get`.
#[verifier::loop_isolation(false)]
pub fn find_entry(entries: &Vec<TagEntry>, code: u16) -> (r: Option<usize>)
    ensures
        match r {
            Some(i) => i < entries@.len() && entries@[i as int]@.code == code && spec_get(
                entries_view(entries@),
                code,
            ) == Some(entries@[i as int]@.value),
            None => spec_get(entries_view(entries@), code) is None,
        },
{
    let ghost s = entries_view(entries@);
    proof {
        assert(s.skip(0) =~= s);
    }
    let n = entries.len();
    let mut i: usize = 0;
    while i < n
        invariant
            0 <= i <= n,
            spec_get(s, code) == spec_get(s.skip(i as int), code),
        decreases n - i,
    {
        if entries[i].code == code {
            proof {
                lemma_get_unfold(s.skip(i as int), code);
                assert(s.skip(i as int)[0] == s[i as int]);
            }
            return Some(i);
        }
        proof {
            lemma_get_unfold(s.skip(i as int), code);
            assert(s.skip(i as int)[0] == s[i as int]);
            assert(s.skip(i as int).skip(1) =~= s.skip(i + 1));
        }
        i = i + 1;
    }
    proof {
        assert(s.skip(n as int) =~= Seq::<SpecEntry>::empty());
    }
    None
}

/// The UTF-8 bytes of an ASCII character sequence.
pub open spec fn ascii_seq(s: Seq<char>) -> Seq<u8> {
    Seq::new(s.len(), |i: int| s[i] as u8)
}

/// Whether a supplied value length satisfies a tag's count rule, the NUL
/// terminator counted.
pub open spec fn spec_count_ok(rule: CountRule, n: nat) -> bool {
    match rule {
        CountRule::Fixed(c) => n + 1 == c,
        CountRule::Variable => n + 1 <= 0xFFFF_FFFF,
    }
}

/// Setting a tag, as a mathematical function on models.
pub open spec fn spec_set_model(m: SpecModel, name: Seq<char>, value: Seq<char>) -> Result<
    SpecModel,
    EngineError,
> {
    match spec_lookup(name) {
        None => Err(EngineError::UnknownTag),
        Some(info) => if !(vstd::utf8::is_ascii_chars(value) && spec_count_ok(
            info.rule,
            value.len(),
        )) {
            Err(EngineError::TypeMismatch)
        } else {
            let e = SpecEntry { code: info.code, value: SpecValue::Ascii(ascii_seq(value).push(0)) };
            Ok(
                match info.ifd {
                    IfdKind::Primary => SpecModel {
                        byte_order: m.byte_order,
                        primary: spec_insert(m.primary, e),
                        exif: m.exif,
                    },
                    IfdKind::Exif => SpecModel {
                        byte_order: m.byte_order,
                        primary: m.primary,
                        exif: spec_insert(m.exif, e),
                    },
                },
            )
        },
    }
}

/// The full metadata structure of one edit session: the primary IFD and the
/// Exif sub-IFD (empty when absent), in one byte order.
pub struct MetadataModel {
    pub byte_order: ByteOrder,
    pub primary: Vec<TagEntry>,
    pub exif: Vec<TagEntry>,
}

impl View for MetadataModel {
    type V = SpecModel;

    open spec fn view(&self) -> SpecModel {
        SpecModel {
            byte_order: self.byte_order,
            primary: entries_view(self.primary@),
            exif: entries_view(self.exif@),
        }
    }
}

impl MetadataModel {
    /// A fresh model with no tags: a single empty primary IFD.
    pub fn empty(byte_order: ByteOrder) -> (r: MetadataModel)
        ensures
            r@ == (SpecModel {
                byte_order,
                primary: Seq::<SpecEntry>::empty(),
                exif: Seq::<SpecEntry>::empty(),
            }),
            r@.wf(),
    {
        let r = MetadataModel { byte_order, primary: Vec::new(), exif: Vec::new() };
        proof {
            assert(r@.primary =~= Seq::<SpecEntry>::empty());
            assert(r@.exif =~= Seq::<SpecEntry>::empty());
        }
        r
    }

    /// Resolves `name` through the tag dictionary, validates `value` against
    /// the tag's type and count rule, and stores it in the tag's IFD,
    /// replacing an existing entry with the same code or inserting a new one
    /// in ascending code order. On any error the model is untouched.
    pub fn set_tag(&mut self, name: &str, value: &str) -> (r: Result<(), EngineError>)
        requires
            old(self)@.wf(),
        ensures
            final(self)@.wf(),
            final(self)@.byte_order == old(self)@.byte_order,
            match r {
                Ok(_) => spec_set_model(old(self)@, name@, value@) == Ok::<SpecModel, EngineError>(
                    final(self)@,
                ),
                Err(e) => spec_set_model(old(self)@, name@, value@) == Err::<SpecModel, EngineError>(
                    e,
                ),
            },
            match r {
                Ok(_) => spec_lookup(name@) matches Some(info) && {
                    &&& vstd::utf8::is_ascii_chars(value@)
                    &&& spec_count_ok(info.rule, value@.len())
                    &&& {
                        let e = SpecEntry {
                            code: info.code,
                            value: SpecValue::Ascii(ascii_seq(value@).push(0)),
                        };
                        match info.ifd {
                            IfdKind::Primary => final(self)@.exif == old(self)@.exif
                                && entries_updated(old(self)@.primary, final(self)@.primary, e),
                            IfdKind::Exif => final(self)@.primary == old(self)@.primary
                                && entries_updated(old(self)@.exif, final(self)@.exif, e),
                        }
                    }
                },
                Err(e) => *final(self) == *old(self) && ((e == EngineError::UnknownTag
                    && spec_lookup(name@) is None) || (e == EngineError::TypeMismatch
                    && spec_lookup(name@) is Some && !(vstd::utf8::is_ascii_chars(value@)
                    && spec_count_ok(spec_lookup(name@)->Some_0.rule, value@.len())))),
            },
    {
        let info = match lookup_tag(name) {
            Ok(info) => info,
            Err(e) => {
                return Err(e);
            },
        };
        if !value.is_ascii() {
            return Err(EngineError::TypeMismatch);
        }
        let vb = value.as_bytes();
        let len_ok = match info.rule {
            CountRule::Fixed(c) => c >= 1 && vb.len() == (c - 1) as usize,
            CountRule::Variable => vb.len() <= 0xFFFF_FFFE,
        };
        if !len_ok {
            return Err(EngineError::TypeMismatch);
        }
        let mut data = slice_to_vec(vb);
        data.push(0);
        proof {
            vstd::string::is_ascii_spec_bytes(value);
            assert(data@ =~= ascii_seq(value@).push(0));
        }
        let entry = TagEntry { code: info.code, value: TagValue::Ascii(data) };
        match info.ifd {
            IfdKind::Primary => insert_entry(&mut self.primary, entry),
            IfdKind::Exif => insert_entry(&mut self.exif, entry),
        }
        Ok(())
    }

    /// Reads back the ASCII value stored under a dictionary tag, without its
    /// NUL terminator. `None` when the tag is unknown, absent, or not ASCII.
    pub fn get_tag(&self, name: &str) -> (r: Option<Vec<u8>>)
        ensures
            match spec_lookup(name@) {
                Some(info) => match spec_get(self@.ifd_of(info.ifd), info.code) {
                    Some(SpecValue::Ascii(d)) => if d.len() >= 1 {
                        r matches Some(v) && v@ == d.take(d.len() - 1)
                    } else {
                        r is None
                    },
                    _ => r is None,
                },
                None => r is None,
            },
    {
        let info = match lookup_tag(name) {
            Ok(info) => info,
            Err(_) => {
                return None;
            },
        };
        let entries = match info.ifd {
            IfdKind::Primary => &self.primary,
            IfdKind::Exif => &self.exif,
        };
        let i = match find_entry(entries, info.code) {
            Some(i) => i,
            None => {
                return None;
            },
        };
        match &entries[i].value {
            TagValue::Ascii(d) => {
                if d.len() >= 1 {
                    let end = d.len() - 1;
                    let out = slice_to_vec(vstd::slice::slice_subrange(d.as_slice(), 0, end));
                    proof {
                        assert(out@ =~= d@.take(d@.len() - 1));
                    }
                    Some(out)
                } else {
                    None
                }
            },
            TagValue::Opaque { .. } => None,
        }
    }
}

} // verus!
