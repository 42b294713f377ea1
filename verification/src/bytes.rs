//! Reading and writing 16- and 32-bit fields in either byte order.

use vstd::prelude::*;
use crate::ByteOrder;

verus! {

/// The two bytes of `v` in little-endian order.
pub open spec fn le16_seq(v: u16) -> Seq<u8> {
    seq![(v & 0xff) as u8, ((v >> 8) & 0xff) as u8]
}

/// The two bytes of `v` in big-endian order.
pub open spec fn be16_seq(v: u16) -> Seq<u8> {
    seq![((v >> 8) & 0xff) as u8, (v & 0xff) as u8]
}

/// The four bytes of `v` in little-endian order.
pub open spec fn le32_seq(v: u32) -> Seq<u8> {
    seq![
        (v & 0xff) as u8,
        ((v >> 8) & 0xff) as u8,
        ((v >> 16) & 0xff) as u8,
        ((v >> 24) & 0xff) as u8,
    ]
}

/// The four bytes of `v` in big-endian order.
pub open spec fn be32_seq(v: u32) -> Seq<u8> {
    seq![
        ((v >> 24) & 0xff) as u8,
        ((v >> 16) & 0xff) as u8,
        ((v >> 8) & 0xff) as u8,
        (v & 0xff) as u8,
    ]
}

/// The two bytes of `v` in byte order `bo`.
pub open spec fn u16_seq(bo: ByteOrder, v: u16) -> Seq<u8> {
    match bo {
        ByteOrder::Little => le16_seq(v),
        ByteOrder::Big => be16_seq(v),
    }
}

/// The four bytes of `v` in byte order `bo`.
pub open spec fn u32_seq(bo: ByteOrder, v: u32) -> Seq<u8> {
    match bo {
        ByteOrder::Little => le32_seq(v),
        ByteOrder::Big => be32_seq(v),
    }
}

/// The value of a 2-byte field read in byte order `bo`.
pub open spec fn u16_of(bo: ByteOrder, s: Seq<u8>) -> u16
    recommends
        s.len() == 2,
{
    match bo {
        ByteOrder::Little => (s[0] as u16) | ((s[1] as u16) << 8),
        ByteOrder::Big => ((s[0] as u16) << 8) | (s[1] as u16),
    }
}

/// The value of a 4-byte field read in byte order `bo`.
pub open spec fn u32_of(bo: ByteOrder, s: Seq<u8>) -> u32
    recommends
        s.len() == 4,
{
    match bo {
        ByteOrder::Little => (s[0] as u32) | ((s[1] as u32) << 8) | ((s[2] as u32) << 16) | ((
        s[3] as u32) << 24),
        ByteOrder::Big => ((s[0] as u32) << 24) | ((s[1] as u32) << 16) | ((s[2] as u32) << 8) | (
        s[3] as u32),
    }
}

/// Writing a 16-bit field and reading it back in the same byte order
/// yields the value written.
pub proof fn lemma_u16_round(bo: ByteOrder, v: u16)
    ensures
        u16_seq(bo, v).len() == 2,
        u16_of(bo, u16_seq(bo, v)) == v,
{
    assert((((v & 0xff) as u8) as u16) | ((((v >> 8) & 0xff) as u8) as u16) << 8 == v)
        by (bit_vector);
    assert(((((v >> 8) & 0xff) as u8) as u16) << 8 | (((v & 0xff) as u8) as u16) == v)
        by (bit_vector);
}

/// Writing a 32-bit field and reading it back in the same byte order
/// yields the value written.
pub proof fn lemma_u32_round(bo: ByteOrder, v: u32)
    ensures
        u32_seq(bo, v).len() == 4,
        u32_of(bo, u32_seq(bo, v)) == v,
{
    assert((((v & 0xff) as u8) as u32) | ((((v >> 8) & 0xff) as u8) as u32) << 8 | ((((v >> 16)
        & 0xff) as u8) as u32) << 16 | ((((v >> 24) & 0xff) as u8) as u32) << 24 == v)
        by (bit_vector);
    assert(((((v >> 24) & 0xff) as u8) as u32) << 24 | ((((v >> 16) & 0xff) as u8) as u32) << 16 | (
    (((v >> 8) & 0xff) as u8) as u32) << 8 | (((v & 0xff) as u8) as u32) == v) by (bit_vector);
}

/// Appends the two bytes of `v` in byte order `bo`.
pub fn push_u16(out: &mut Vec<u8>, bo: ByteOrder, v: u16)
    ensures
        final(out)@ == old(out)@ + u16_seq(bo, v),
{
    let lo = (v & 0xff) as u8;
    let hi = ((v >> 8) & 0xff) as u8;
    match bo {
        ByteOrder::Little => {
            out.push(lo);
            out.push(hi);
        },
        ByteOrder::Big => {
            out.push(hi);
            out.push(lo);
        },
    }
    assert(out@ =~= old(out)@ + u16_seq(bo, v));
}

/// Appends the four bytes of `v` in byte order `bo`.
pub fn push_u32(out: &mut Vec<u8>, bo: ByteOrder, v: u32)
    ensures
        final(out)@ == old(out)@ + u32_seq(bo, v),
{
    let b0 = (v & 0xff) as u8;
    let b1 = ((v >> 8) & 0xff) as u8;
    let b2 = ((v >> 16) & 0xff) as u8;
    let b3 = ((v >> 24) & 0xff) as u8;
    match bo {
        ByteOrder::Little => {
            out.push(b0);
            out.push(b1);
            out.push(b2);
            out.push(b3);
        },
        ByteOrder::Big => {
            out.push(b3);
            out.push(b2);
            out.push(b1);
            out.push(b0);
        },
    }
    assert(out@ =~= old(out)@ + u32_seq(bo, v));
}

/// Reads the 2-byte field at `pos` in byte order `bo`.
pub fn read_u16(buf: &Vec<u8>, pos: usize, bo: ByteOrder) -> (r: u16)
    requires
        pos + 2 <= buf@.len(),
    ensures
        r == u16_of(bo, buf@.subrange(pos as int, pos + 2)),
{
    let n = buf.len();
    let b0 = buf[pos];
    let b1 = buf[pos + 1];
    proof {
        assert(buf@.subrange(pos as int, pos + 2) =~= seq![b0, b1]);
    }
    match bo {
        ByteOrder::Little => (b0 as u16) | ((b1 as u16) << 8),
        ByteOrder::Big => ((b0 as u16) << 8) | (b1 as u16),
    }
}

/// Reads the 4-byte field at `pos` in byte order `bo`.
pub fn read_u32(buf: &Vec<u8>, pos: usize, bo: ByteOrder) -> (r: u32)
    requires
        pos + 4 <= buf@.len(),
    ensures
        r == u32_of(bo, buf@.subrange(pos as int, pos + 4)),
{
    let n = buf.len();
    let b0 = buf[pos];
    let b1 = buf[pos + 1];
    let b2 = buf[pos + 2];
    let b3 = buf[pos + 3];
    proof {
        assert(buf@.subrange(pos as int, pos + 4) =~= seq![b0, b1, b2, b3]);
    }
    match bo {
        ByteOrder::Little => (b0 as u32) | ((b1 as u32) << 8) | ((b2 as u32) << 16) | ((
        b3 as u32) << 24),
        ByteOrder::Big => ((b0 as u32) << 24) | ((b1 as u32) << 16) | ((b2 as u32) << 8) | (
        b3 as u32),
    }
}

} // verus!
