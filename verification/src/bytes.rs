//! Fixed-width integers as bytes, and small helpers on byte sequences.

use vstd::prelude::*;
use vstd::slice::{slice_subrange, slice_to_vec};

verus! {

/// The 2 bytes of `x`, least significant first.
pub open spec fn le16(x: u16) -> Seq<u8> {
    seq![x as u8, (x >> 8) as u8]
}

/// The 4 bytes of `x`, least significant first.
pub open spec fn le32(x: u32) -> Seq<u8> {
    seq![x as u8, (x >> 8) as u8, (x >> 16) as u8, (x >> 24) as u8]
}

/// The 8 bytes of `x`, least significant first.
pub open spec fn le64(x: u64) -> Seq<u8> {
    seq![x as u8, (x >> 8) as u8, (x >> 16) as u8, (x >> 24) as u8, (x >> 32) as u8, (x >> 40) as u8, (x >> 48) as u8, (x >> 56) as u8]
}

/// The 2 bytes of `x`, most significant first.
pub open spec fn be16(x: u16) -> Seq<u8> {
    seq![(x >> 8) as u8, x as u8]
}

/// The 4 bytes of `x`, most significant first.
pub open spec fn be32(x: u32) -> Seq<u8> {
    seq![(x >> 24) as u8, (x >> 16) as u8, (x >> 8) as u8, x as u8]
}

/// The 8 bytes of `x`, most significant first.
pub open spec fn be64(x: u64) -> Seq<u8> {
    seq![(x >> 56) as u8, (x >> 48) as u8, (x >> 40) as u8, (x >> 32) as u8, (x >> 24) as u8, (x >> 16) as u8, (x >> 8) as u8, x as u8]
}

/// The number that 2 bytes hold, least significant first.
pub open spec fn un_le16(s: Seq<u8>) -> u16 {
    (s[0] as u16) | ((s[1] as u16) << 8)
}

/// The number that 4 bytes hold, least significant first.
pub open spec fn un_le32(s: Seq<u8>) -> u32 {
    (s[0] as u32) | ((s[1] as u32) << 8) | ((s[2] as u32) << 16) | ((s[3] as u32) << 24)
}

/// The number that 8 bytes hold, least significant first.
pub open spec fn un_le64(s: Seq<u8>) -> u64 {
    (s[0] as u64) | ((s[1] as u64) << 8) | ((s[2] as u64) << 16) | ((s[3] as u64) << 24) | ((s[4] as u64) << 32) | ((s[5] as u64) << 40) | ((s[6] as u64) << 48) | ((s[7] as u64) << 56)
}

/// The number that 2 bytes hold, most significant first.
pub open spec fn un_be16(s: Seq<u8>) -> u16 {
    ((s[0] as u16) << 8) | (s[1] as u16)
}

/// The number that 4 bytes hold, most significant first.
pub open spec fn un_be32(s: Seq<u8>) -> u32 {
    ((s[0] as u32) << 24) | ((s[1] as u32) << 16) | ((s[2] as u32) << 8) | (s[3] as u32)
}

/// The number that 8 bytes hold, most significant first.
pub open spec fn un_be64(s: Seq<u8>) -> u64 {
    ((s[0] as u64) << 56) | ((s[1] as u64) << 48) | ((s[2] as u64) << 40) | ((s[3] as u64) << 32) | ((s[4] as u64) << 24) | ((s[5] as u64) << 16) | ((s[6] as u64) << 8) | (s[7] as u64)
}

/// Writing a number and reading it gives it back.
pub proof fn law_le16_read_write(x: u16)
    ensures
        le16(x).len() == 2,
        un_le16(le16(x)) == x,
{
    assert((((x as u8) as u16) | ((((x >> 8) as u8) as u16) << 8)) == x) by (bit_vector);
}

/// Reading bytes and writing the number gives them back.
pub proof fn law_le16_write_read(s: Seq<u8>)
    requires
        s.len() == 2,
    ensures
        le16(un_le16(s)) == s,
{
    let b0 = s[0];
    let b1 = s[1];
    let x = un_le16(s);
    assert(b0 == x as u8 && b1 == (x >> 8) as u8) by (bit_vector)
        requires
            x == (b0 as u16) | ((b1 as u16) << 8),
    ;
    assert(le16(x) =~= s);
}

/// Writing a number and reading it gives it back.
pub proof fn law_le32_read_write(x: u32)
    ensures
        le32(x).len() == 4,
        un_le32(le32(x)) == x,
{
    assert((((x as u8) as u32) | ((((x >> 8) as u8) as u32) << 8) | ((((x >> 16) as u8) as u32) << 16) | ((((x >> 24) as u8) as u32) << 24)) == x) by (bit_vector);
}

/// Reading bytes and writing the number gives them back.
pub proof fn law_le32_write_read(s: Seq<u8>)
    requires
        s.len() == 4,
    ensures
        le32(un_le32(s)) == s,
{
    let b0 = s[0];
    let b1 = s[1];
    let b2 = s[2];
    let b3 = s[3];
    let x = un_le32(s);
    assert(b0 == x as u8 && b1 == (x >> 8) as u8 && b2 == (x >> 16) as u8 && b3 == (x >> 24) as u8) by (bit_vector)
        requires
            x == (b0 as u32) | ((b1 as u32) << 8) | ((b2 as u32) << 16) | ((b3 as u32) << 24),
    ;
    assert(le32(x) =~= s);
}

/// Writing a number and reading it gives it back.
pub proof fn law_le64_read_write(x: u64)
    ensures
        le64(x).len() == 8,
        un_le64(le64(x)) == x,
{
    assert((((x as u8) as u64) | ((((x >> 8) as u8) as u64) << 8) | ((((x >> 16) as u8) as u64) << 16) | ((((x >> 24) as u8) as u64) << 24) | ((((x >> 32) as u8) as u64) << 32) | ((((x >> 40) as u8) as u64) << 40) | ((((x >> 48) as u8) as u64) << 48) | ((((x >> 56) as u8) as u64) << 56)) == x) by (bit_vector);
}

/// Reading bytes and writing the number gives them back.
pub proof fn law_le64_write_read(s: Seq<u8>)
    requires
        s.len() == 8,
    ensures
        le64(un_le64(s)) == s,
{
    let b0 = s[0];
    let b1 = s[1];
    let b2 = s[2];
    let b3 = s[3];
    let b4 = s[4];
    let b5 = s[5];
    let b6 = s[6];
    let b7 = s[7];
    let x = un_le64(s);
    assert(b0 == x as u8 && b1 == (x >> 8) as u8 && b2 == (x >> 16) as u8 && b3 == (x >> 24) as u8 && b4 == (x >> 32) as u8 && b5 == (x >> 40) as u8 && b6 == (x >> 48) as u8 && b7 == (x >> 56) as u8) by (bit_vector)
        requires
            x == (b0 as u64) | ((b1 as u64) << 8) | ((b2 as u64) << 16) | ((b3 as u64) << 24) | ((b4 as u64) << 32) | ((b5 as u64) << 40) | ((b6 as u64) << 48) | ((b7 as u64) << 56),
    ;
    assert(le64(x) =~= s);
}

/// Writing a number and reading it gives it back.
pub proof fn law_be16_read_write(x: u16)
    ensures
        be16(x).len() == 2,
        un_be16(be16(x)) == x,
{
    assert((((((x >> 8) as u8) as u16) << 8) | ((x as u8) as u16)) == x) by (bit_vector);
}

/// Reading bytes and writing the number gives them back.
pub proof fn law_be16_write_read(s: Seq<u8>)
    requires
        s.len() == 2,
    ensures
        be16(un_be16(s)) == s,
{
    let b0 = s[0];
    let b1 = s[1];
    let x = un_be16(s);
    assert(b0 == (x >> 8) as u8 && b1 == x as u8) by (bit_vector)
        requires
            x == ((b0 as u16) << 8) | (b1 as u16),
    ;
    assert(be16(x) =~= s);
}

/// Writing a number and reading it gives it back.
pub proof fn law_be32_read_write(x: u32)
    ensures
        be32(x).len() == 4,
        un_be32(be32(x)) == x,
{
    assert((((((x >> 24) as u8) as u32) << 24) | ((((x >> 16) as u8) as u32) << 16) | ((((x >> 8) as u8) as u32) << 8) | ((x as u8) as u32)) == x) by (bit_vector);
}

/// Reading bytes and writing the number gives them back.
pub proof fn law_be32_write_read(s: Seq<u8>)
    requires
        s.len() == 4,
    ensures
        be32(un_be32(s)) == s,
{
    let b0 = s[0];
    let b1 = s[1];
    let b2 = s[2];
    let b3 = s[3];
    let x = un_be32(s);
    assert(b0 == (x >> 24) as u8 && b1 == (x >> 16) as u8 && b2 == (x >> 8) as u8 && b3 == x as u8) by (bit_vector)
        requires
            x == ((b0 as u32) << 24) | ((b1 as u32) << 16) | ((b2 as u32) << 8) | (b3 as u32),
    ;
    assert(be32(x) =~= s);
}

/// Writing a number and reading it gives it back.
pub proof fn law_be64_read_write(x: u64)
    ensures
        be64(x).len() == 8,
        un_be64(be64(x)) == x,
{
    assert((((((x >> 56) as u8) as u64) << 56) | ((((x >> 48) as u8) as u64) << 48) | ((((x >> 40) as u8) as u64) << 40) | ((((x >> 32) as u8) as u64) << 32) | ((((x >> 24) as u8) as u64) << 24) | ((((x >> 16) as u8) as u64) << 16) | ((((x >> 8) as u8) as u64) << 8) | ((x as u8) as u64)) == x) by (bit_vector);
}

/// Reading bytes and writing the number gives them back.
pub proof fn law_be64_write_read(s: Seq<u8>)
    requires
        s.len() == 8,
    ensures
        be64(un_be64(s)) == s,
{
    let b0 = s[0];
    let b1 = s[1];
    let b2 = s[2];
    let b3 = s[3];
    let b4 = s[4];
    let b5 = s[5];
    let b6 = s[6];
    let b7 = s[7];
    let x = un_be64(s);
    assert(b0 == (x >> 56) as u8 && b1 == (x >> 48) as u8 && b2 == (x >> 40) as u8 && b3 == (x >> 32) as u8 && b4 == (x >> 24) as u8 && b5 == (x >> 16) as u8 && b6 == (x >> 8) as u8 && b7 == x as u8) by (bit_vector)
        requires
            x == ((b0 as u64) << 56) | ((b1 as u64) << 48) | ((b2 as u64) << 40) | ((b3 as u64) << 32) | ((b4 as u64) << 24) | ((b5 as u64) << 16) | ((b6 as u64) << 8) | (b7 as u64),
    ;
    assert(be64(x) =~= s);
}

/// Appends the 2 bytes of `x`.
pub fn put_le16(out: &mut Vec<u8>, x: u16)
    ensures
        final(out)@ == old(out)@ + le16(x),
{
    let ghost start = out@;
    out.push(x as u8);
    out.push((x >> 8) as u8);
    assert(out@ =~= start + le16(x));
}

/// Reads 2 bytes at `at`.
pub fn get_le16(buf: &[u8], at: usize) -> (x: u16)
    requires
        at + 2 <= buf@.len(),
    ensures
        x == un_le16(buf@.subrange(at as int, at + 2)),
{
    (buf[at] as u16) | ((buf[at + 1] as u16) << 8)
}

/// Appends the 4 bytes of `x`.
pub fn put_le32(out: &mut Vec<u8>, x: u32)
    ensures
        final(out)@ == old(out)@ + le32(x),
{
    let ghost start = out@;
    out.push(x as u8);
    out.push((x >> 8) as u8);
    out.push((x >> 16) as u8);
    out.push((x >> 24) as u8);
    assert(out@ =~= start + le32(x));
}

/// Reads 4 bytes at `at`.
pub fn get_le32(buf: &[u8], at: usize) -> (x: u32)
    requires
        at + 4 <= buf@.len(),
    ensures
        x == un_le32(buf@.subrange(at as int, at + 4)),
{
    (buf[at] as u32) | ((buf[at + 1] as u32) << 8) | ((buf[at + 2] as u32) << 16) | ((buf[at + 3] as u32) << 24)
}

/// Appends the 8 bytes of `x`.
pub fn put_le64(out: &mut Vec<u8>, x: u64)
    ensures
        final(out)@ == old(out)@ + le64(x),
{
    let ghost start = out@;
    out.push(x as u8);
    out.push((x >> 8) as u8);
    out.push((x >> 16) as u8);
    out.push((x >> 24) as u8);
    out.push((x >> 32) as u8);
    out.push((x >> 40) as u8);
    out.push((x >> 48) as u8);
    out.push((x >> 56) as u8);
    assert(out@ =~= start + le64(x));
}

/// Reads 8 bytes at `at`.
pub fn get_le64(buf: &[u8], at: usize) -> (x: u64)
    requires
        at + 8 <= buf@.len(),
    ensures
        x == un_le64(buf@.subrange(at as int, at + 8)),
{
    (buf[at] as u64) | ((buf[at + 1] as u64) << 8) | ((buf[at + 2] as u64) << 16) | ((buf[at + 3] as u64) << 24) | ((buf[at + 4] as u64) << 32) | ((buf[at + 5] as u64) << 40) | ((buf[at + 6] as u64) << 48) | ((buf[at + 7] as u64) << 56)
}

/// Appends the 2 bytes of `x`.
pub fn put_be16(out: &mut Vec<u8>, x: u16)
    ensures
        final(out)@ == old(out)@ + be16(x),
{
    let ghost start = out@;
    out.push((x >> 8) as u8);
    out.push(x as u8);
    assert(out@ =~= start + be16(x));
}

/// Reads 2 bytes at `at`.
pub fn get_be16(buf: &[u8], at: usize) -> (x: u16)
    requires
        at + 2 <= buf@.len(),
    ensures
        x == un_be16(buf@.subrange(at as int, at + 2)),
{
    ((buf[at] as u16) << 8) | (buf[at + 1] as u16)
}

/// Appends the 4 bytes of `x`.
pub fn put_be32(out: &mut Vec<u8>, x: u32)
    ensures
        final(out)@ == old(out)@ + be32(x),
{
    let ghost start = out@;
    out.push((x >> 24) as u8);
    out.push((x >> 16) as u8);
    out.push((x >> 8) as u8);
    out.push(x as u8);
    assert(out@ =~= start + be32(x));
}

/// Reads 4 bytes at `at`.
pub fn get_be32(buf: &[u8], at: usize) -> (x: u32)
    requires
        at + 4 <= buf@.len(),
    ensures
        x == un_be32(buf@.subrange(at as int, at + 4)),
{
    ((buf[at] as u32) << 24) | ((buf[at + 1] as u32) << 16) | ((buf[at + 2] as u32) << 8) | (buf[at + 3] as u32)
}

/// Appends the 8 bytes of `x`.
pub fn put_be64(out: &mut Vec<u8>, x: u64)
    ensures
        final(out)@ == old(out)@ + be64(x),
{
    let ghost start = out@;
    out.push((x >> 56) as u8);
    out.push((x >> 48) as u8);
    out.push((x >> 40) as u8);
    out.push((x >> 32) as u8);
    out.push((x >> 24) as u8);
    out.push((x >> 16) as u8);
    out.push((x >> 8) as u8);
    out.push(x as u8);
    assert(out@ =~= start + be64(x));
}

/// Reads 8 bytes at `at`.
pub fn get_be64(buf: &[u8], at: usize) -> (x: u64)
    requires
        at + 8 <= buf@.len(),
    ensures
        x == un_be64(buf@.subrange(at as int, at + 8)),
{
    ((buf[at] as u64) << 56) | ((buf[at + 1] as u64) << 48) | ((buf[at + 2] as u64) << 40) | ((buf[at + 3] as u64) << 32) | ((buf[at + 4] as u64) << 24) | ((buf[at + 5] as u64) << 16) | ((buf[at + 6] as u64) << 8) | (buf[at + 7] as u64)
}

/// Appends a slice.
pub fn append(out: &mut Vec<u8>, data: &[u8])
    ensures
        final(out)@ == old(out)@ + data@,
{
    let ghost start = out@;
    out.extend_from_slice(data);
    assert(out@ =~= start + data@);
}

/// The bytes from `from` up to `to`.
pub fn piece(buf: &[u8], from: usize, to: usize) -> (out: Vec<u8>)
    requires
        from <= to <= buf@.len(),
    ensures
        out@ == buf@.subrange(from as int, to as int),
{
    slice_to_vec(slice_subrange(buf, from, to))
}

/// Whether two byte strings are the same.
pub fn same(a: &[u8], b: &[u8]) -> (r: bool)
    ensures
        r == (a@ == b@),
{
    if a.len() != b.len() {
        return false;
    }
    let n: usize = a.len();
    let mut i: usize = 0;
    while i < n
        invariant
            i <= n,
            n == a@.len(),
            n == b@.len(),
            forall|j: int| 0 <= j < i ==> a@[j] == b@[j],
        decreases n - i,
    {
        if a[i] != b[i] {
            return false;
        }
        i = i + 1;
    }
    assert(a@ =~= b@);
    true
}

/// The `N` bytes from `at` on, as an array.
pub fn array<const N: usize>(buf: &[u8], at: usize) -> (out: [u8; N])
    requires
        at + N <= buf@.len(),
    ensures
        out@ == buf@.subrange(at as int, at + N),
{
    let len: usize = buf.len();
    let mut out: [u8; N] = [0u8; N];
    let mut i: usize = 0;
    while i < N
        invariant
            i <= N,
            at + N <= len,
            len == buf@.len(),
            forall|j: int| 0 <= j < i ==> out@[j] == buf@[at + j],
        decreases N - i,
    {
        out[i] = buf[at + i];
        i = i + 1;
    }
    assert(out@ =~= buf@.subrange(at as int, at + N));
    out
}

/// The bytes of a number of 16 bits, least significant first, are its digits to the base 256, and
/// the other way round most significant first.
pub proof fn law_order16(x: u16)
    ensures
        le16(x)[0] == x % 256,
        le16(x)[1] == x / 0x100,
        be16(x) == le16(x).reverse(),
{
    assert(x as u8 == x % 256) by (bit_vector);
    assert((x >> 8) as u8 == x / 0x100) by (bit_vector);
    assert(be16(x) =~= le16(x).reverse());
}


/// The bytes of a number of 32 bits, least significant first, are its digits to the base 256, and
/// the other way round most significant first.
pub proof fn law_order32(x: u32)
    ensures
        le32(x)[0] == x % 256,
        le32(x)[3] == x / 0x1000000,
        be32(x) == le32(x).reverse(),
{
    assert(x as u8 == x % 256) by (bit_vector);
    assert((x >> 24) as u8 == x / 0x1000000) by (bit_vector);
    assert(be32(x) =~= le32(x).reverse());
}


/// The bytes of a number of 64 bits, least significant first, are its digits to the base 256, and
/// the other way round most significant first.
pub proof fn law_order64(x: u64)
    ensures
        le64(x)[0] == x % 256,
        le64(x)[7] == x / 0x100000000000000,
        be64(x) == le64(x).reverse(),
{
    assert(x as u8 == x % 256) by (bit_vector);
    assert((x >> 56) as u8 == x / 0x100000000000000) by (bit_vector);
    assert(be64(x) =~= le64(x).reverse());
}

} // verus!
