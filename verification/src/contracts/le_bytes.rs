//! Little-endian integer fields inside byte buffers, as used by the wire
//! protocol and the storage format.

use vstd::bytes::*;
use vstd::prelude::*;
use vstd::slice::slice_subrange;

verus! {

/// Little-endian bytes of a `u16`.
pub open spec fn le16(v: u16) -> Seq<u8> {
    spec_u16_to_le_bytes(v)
}

/// Little-endian bytes of a `u32`: least significant byte first.
pub closed spec fn le32(v: u32) -> Seq<u8> {
    seq![
        (v & 0xff) as u8,
        ((v >> 8) & 0xff) as u8,
        ((v >> 16) & 0xff) as u8,
        ((v >> 24) & 0xff) as u8,
    ]
}

/// The `u32` whose little-endian bytes are the four bytes of `s`.
pub closed spec fn u32_of_le(s: Seq<u8>) -> u32 {
    (s[0] as u32) | (s[1] as u32) << 8 | (s[2] as u32) << 16 | (s[3] as u32) << 24
}

/// Little-endian bytes of a `u64`.
pub open spec fn le64(v: u64) -> Seq<u8> {
    spec_u64_to_le_bytes(v)
}

/// Two's-complement little-endian bytes of an `i32`.
pub open spec fn le_i32(v: i32) -> Seq<u8> {
    le32(v as u32)
}

/// Two's-complement little-endian bytes of an `i64`.
pub open spec fn le_i64(v: i64) -> Seq<u8> {
    le64(v as u64)
}

/// The `u16` whose little-endian bytes stand at `off` in `s`.
pub open spec fn at16(s: Seq<u8>, off: int) -> u16 {
    spec_u16_from_le_bytes(s.subrange(off, off + 2))
}

/// The `u32` whose little-endian bytes stand at `off` in `s`.
pub open spec fn at32(s: Seq<u8>, off: int) -> u32 {
    u32_of_le(s.subrange(off, off + 4))
}

/// The `u64` whose little-endian bytes stand at `off` in `s`.
pub open spec fn at64(s: Seq<u8>, off: int) -> u64 {
    spec_u64_from_le_bytes(s.subrange(off, off + 8))
}

/// `s` with the bytes from `off` on replaced by `b`.
pub open spec fn splice(s: Seq<u8>, off: int, b: Seq<u8>) -> Seq<u8> {
    s.take(off) + b + s.skip(off + b.len())
}

pub broadcast proof fn lemma_le16(v: u16)
    ensures
        #[trigger] le16(v).len() == 2,
        spec_u16_from_le_bytes(le16(v)) == v,
{
    lemma_auto_spec_u16_to_from_le_bytes();
    assert(spec_u16_to_le_bytes(v).len() == 2);
}

pub broadcast proof fn lemma_le32(v: u32)
    ensures
        #[trigger] le32(v).len() == 4,
        u32_of_le(le32(v)) == v,
{
    let b = le32(v);
    let (b0, b1, b2, b3): (u8, u8, u8, u8) = (b[0], b[1], b[2], b[3]);
    assert(b0 == (v & 0xff) as u8 && b1 == ((v >> 8) & 0xff) as u8);
    assert(b2 == ((v >> 16) & 0xff) as u8 && b3 == ((v >> 24) & 0xff) as u8);
    assert((b0 as u32) | (b1 as u32) << 8 | (b2 as u32) << 16 | (b3 as u32) << 24 == v)
        by (bit_vector)
        requires
            b0 == (v & 0xff) as u8,
            b1 == ((v >> 8) & 0xff) as u8,
            b2 == ((v >> 16) & 0xff) as u8,
            b3 == ((v >> 24) & 0xff) as u8,
    ;
}

pub broadcast proof fn lemma_le64(v: u64)
    ensures
        #[trigger] le64(v).len() == 8,
        spec_u64_from_le_bytes(le64(v)) == v,
{
    lemma_auto_spec_u64_to_from_le_bytes();
}

pub broadcast proof fn lemma_from_le16(s: Seq<u8>)
    requires
        s.len() == 2,
    ensures
        #[trigger] le16(spec_u16_from_le_bytes(s)) == s,
{
    lemma_auto_spec_u16_to_from_le_bytes();
}

pub broadcast proof fn lemma_from_le32(s: Seq<u8>)
    requires
        s.len() == 4,
    ensures
        #[trigger] le32(u32_of_le(s)) == s,
{
    let (s0, s1, s2, s3): (u8, u8, u8, u8) = (s[0], s[1], s[2], s[3]);
    let x = u32_of_le(s);
    assert(x == (s0 as u32) | (s1 as u32) << 8 | (s2 as u32) << 16 | (s3 as u32) << 24);
    assert((x & 0xff) as u8 == s0 && ((x >> 8) & 0xff) as u8 == s1 && ((x >> 16) & 0xff) as u8
        == s2 && ((x >> 24) & 0xff) as u8 == s3) by (bit_vector)
        requires
            x == (s0 as u32) | (s1 as u32) << 8 | (s2 as u32) << 16 | (s3 as u32) << 24,
    ;
    assert(le32(x) =~= s);
}

/// The bytes of `le32(v)`, one by one.
pub proof fn lemma_le32_bytes(v: u32)
    ensures
        le32(v) == seq![
            (v & 0xff) as u8,
            ((v >> 8) & 0xff) as u8,
            ((v >> 16) & 0xff) as u8,
            ((v >> 24) & 0xff) as u8,
        ],
{
}

/// Four bytes at `off` read as the little-endian `v` exactly when they are
/// the bytes `le32(v)`.
pub proof fn lemma_at32_is_le32(s: Seq<u8>, off: int, v: u32)
    requires
        0 <= off,
        off + 4 <= s.len(),
    ensures
        at32(s, off) == v <==> s.subrange(off, off + 4) == le32(v),
{
    lemma_le32(v);
    lemma_from_le32(s.subrange(off, off + 4));
}

pub broadcast proof fn lemma_from_le64(s: Seq<u8>)
    requires
        s.len() == 8,
    ensures
        #[trigger] le64(spec_u64_from_le_bytes(s)) == s,
{
    lemma_auto_spec_u64_to_from_le_bytes();
}

pub broadcast proof fn lemma_i32_bits(v: i32)
    ensures
        #[trigger] ((v as u32) as i32) == v,
{
    assert(((v as u32) as i32) == v) by (bit_vector);
}

pub broadcast proof fn lemma_i64_bits(v: i64)
    ensures
        #[trigger] ((v as u64) as i64) == v,
{
    assert(((v as u64) as i64) == v) by (bit_vector);
}

pub broadcast proof fn lemma_u32_bits(v: u32)
    ensures
        #[trigger] ((v as i32) as u32) == v,
{
    assert(((v as i32) as u32) == v) by (bit_vector);
}

pub broadcast proof fn lemma_u64_bits(v: u64)
    ensures
        #[trigger] ((v as i64) as u64) == v,
{
    assert(((v as i64) as u64) == v) by (bit_vector);
}

pub broadcast group group_le_bytes {
    lemma_le16,
    lemma_le32,
    lemma_le64,
    lemma_from_le16,
    lemma_from_le32,
    lemma_from_le64,
    lemma_i32_bits,
    lemma_i64_bits,
    lemma_u32_bits,
    lemma_u64_bits,
}

/// Reads the little-endian `u16` at `off`.
pub fn get_u16(buf: &[u8], off: usize) -> (r: u16)
    requires
        off + 2 <= buf@.len(),
    ensures
        r == at16(buf@, off as int),
{
    let _n = buf.len();
    u16_from_le_bytes(slice_subrange(buf, off, off + 2))
}

/// Reads the little-endian `u32` at `off`.
pub fn get_u32(buf: &[u8], off: usize) -> (r: u32)
    requires
        off + 4 <= buf@.len(),
    ensures
        r == at32(buf@, off as int),
{
    let b0 = buf[off] as u32;
    let b1 = buf[off + 1] as u32;
    let b2 = buf[off + 2] as u32;
    let b3 = buf[off + 3] as u32;
    assert(buf@.subrange(off as int, off + 4)[1] == buf@[off + 1]);
    assert(buf@.subrange(off as int, off + 4)[2] == buf@[off + 2]);
    assert(buf@.subrange(off as int, off + 4)[3] == buf@[off + 3]);
    b0 | b1 << 8 | b2 << 16 | b3 << 24
}

/// Reads the little-endian `u64` at `off`.
pub fn get_u64(buf: &[u8], off: usize) -> (r: u64)
    requires
        off + 8 <= buf@.len(),
    ensures
        r == at64(buf@, off as int),
{
    let _n = buf.len();
    u64_from_le_bytes(slice_subrange(buf, off, off + 8))
}

/// Reads the two's-complement little-endian `i32` at `off`.
pub fn get_i32(buf: &[u8], off: usize) -> (r: i32)
    requires
        off + 4 <= buf@.len(),
    ensures
        r == at32(buf@, off as int) as i32,
{
    get_u32(buf, off) as i32
}

/// Reads the two's-complement little-endian `i64` at `off`.
pub fn get_i64(buf: &[u8], off: usize) -> (r: i64)
    requires
        off + 8 <= buf@.len(),
    ensures
        r == at64(buf@, off as int) as i64,
{
    get_u64(buf, off) as i64
}

/// Overwrites the bytes from `off` on with `src`.
pub fn put_bytes(buf: &mut [u8], off: usize, src: &[u8])
    requires
        off + src@.len() <= old(buf)@.len(),
    ensures
        final(buf)@ == splice(old(buf)@, off as int, src@),
{
    let _n = buf.len();
    let mut i: usize = 0;
    while i < src.len()
        invariant
            off + src@.len() <= buf@.len(),
            buf@.len() == old(buf)@.len(),
            buf@.len() <= usize::MAX,
            0 <= i <= src@.len(),
            forall|k: int| 0 <= k < off ==> buf@[k] == old(buf)@[k],
            forall|k: int| off <= k < off + i ==> buf@[k] == src@[k - off],
            forall|k: int| off + i <= k < buf@.len() ==> buf@[k] == old(buf)@[k],
        decreases src@.len() - i,
    {
        buf[off + i] = src[i];
        i = i + 1;
    }
    assert(buf@ =~= splice(old(buf)@, off as int, src@));
}

/// Overwrites the two bytes at `off` with the little-endian `v`.
pub fn put_u16(buf: &mut [u8], off: usize, v: u16)
    requires
        off + 2 <= old(buf)@.len(),
    ensures
        final(buf)@ == splice(old(buf)@, off as int, le16(v)),
{
    broadcast use group_le_bytes;
    let b = u16_to_le_bytes(v);
    put_bytes(buf, off, b.as_slice());
}

/// Overwrites the four bytes at `off` with the little-endian `v`.
pub fn put_u32(buf: &mut [u8], off: usize, v: u32)
    requires
        off + 4 <= old(buf)@.len(),
    ensures
        final(buf)@ == splice(old(buf)@, off as int, le32(v)),
{
    let b: [u8; 4] = [
        (v & 0xff) as u8,
        ((v >> 8) & 0xff) as u8,
        ((v >> 16) & 0xff) as u8,
        ((v >> 24) & 0xff) as u8,
    ];
    assert(b@ =~= le32(v));
    put_bytes(buf, off, &b);
}

/// Overwrites the eight bytes at `off` with the little-endian `v`.
pub fn put_u64(buf: &mut [u8], off: usize, v: u64)
    requires
        off + 8 <= old(buf)@.len(),
    ensures
        final(buf)@ == splice(old(buf)@, off as int, le64(v)),
{
    broadcast use group_le_bytes;
    let b = u64_to_le_bytes(v);
    put_bytes(buf, off, b.as_slice());
}

/// Appends the little-endian `v`.
pub fn push_u16(out: &mut Vec<u8>, v: u16)
    ensures
        final(out)@ == old(out)@ + le16(v),
{
    let b = u16_to_le_bytes(v);
    out.extend_from_slice(b.as_slice());
}

/// Appends the little-endian `v`.
pub fn push_u32(out: &mut Vec<u8>, v: u32)
    ensures
        final(out)@ == old(out)@ + le32(v),
{
    out.push((v & 0xff) as u8);
    out.push(((v >> 8) & 0xff) as u8);
    out.push(((v >> 16) & 0xff) as u8);
    out.push(((v >> 24) & 0xff) as u8);
    assert(final(out)@ =~= old(out)@ + le32(v));
}

/// Appends the little-endian `v`.
pub fn push_u64(out: &mut Vec<u8>, v: u64)
    ensures
        final(out)@ == old(out)@ + le64(v),
{
    let b = u64_to_le_bytes(v);
    out.extend_from_slice(b.as_slice());
}

} // verus!
