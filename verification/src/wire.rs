//! Little-endian integers and byte regions at the bottom of every record.
//!
//! The integers are read by `nom`; what `nom` returns is stated here as plain
//! arithmetic on the bytes (`le16`, `le32`, `le64`), and everything above this
//! module is proved from those statements.

use vstd::prelude::*;
use vstd::slice::slice_subrange;

verus! {

/// Why a record could not be decoded.
#[derive(Clone, Copy, Debug, PartialEq, Eq, Structural)]
pub enum ParseError {
    /// The input ends before the record does.
    TooShort,
    /// A magic number is not the expected one.
    BadMagic,
    /// A size or count in the record cannot be represented or used.
    BadGeometry,
}

/// The unsigned 16-bit value stored little-endian at `off`.
pub open spec fn le16(s: Seq<u8>, off: int) -> int {
    s[off] as int + 256 * (s[off + 1] as int)
}

/// The unsigned 32-bit value stored little-endian at `off`.
pub open spec fn le32(s: Seq<u8>, off: int) -> int {
    s[off] as int + 256 * (s[off + 1] as int) + 65536 * (s[off + 2] as int) + 16777216 * (s[off
        + 3] as int)
}

/// The unsigned 64-bit value stored little-endian at `off`.
pub open spec fn le64(s: Seq<u8>, off: int) -> int {
    le32(s, off) + 4294967296 * le32(s, off + 4)
}

/// The two bytes that store `v` little-endian.
pub open spec fn u16_bytes(v: u16) -> Seq<u8> {
    seq![(v % 256) as u8, (v / 256) as u8]
}

/// The four bytes that store `v` little-endian.
pub open spec fn u32_bytes(v: u32) -> Seq<u8> {
    seq![
        (v % 256) as u8,
        (v / 256 % 256) as u8,
        (v / 65536 % 256) as u8,
        (v / 16777216) as u8,
    ]
}

/// The eight bytes that store `v` little-endian.
pub open spec fn u64_bytes(v: u64) -> Seq<u8> {
    u32_bytes((v % 4294967296) as u32) + u32_bytes((v / 4294967296) as u32)
}

/// `nom::number::complete::le_u8`: fails on empty input, else hands back the
/// first byte and the input after it.
#[verifier::external_body]
fn nom_le_u8(input: &[u8]) -> (r: Option<(&[u8], u8)>)
    ensures
        r is Some <==> input@.len() >= 1,
        r matches Some((rest, value)) ==> rest@ == input@.skip(1) && value == input@[0],
{
    nom::number::complete::le_u8::<&[u8], nom::error::Error<&[u8]>>(input).ok()
}

/// `nom::number::complete::le_u16`: fails on fewer than two bytes, else hands
/// back the first two bytes as a little-endian number and the input after
/// them.
#[verifier::external_body]
fn nom_le_u16(input: &[u8]) -> (r: Option<(&[u8], u16)>)
    ensures
        r is Some <==> input@.len() >= 2,
        r matches Some((rest, value)) ==> rest@ == input@.skip(2) && value == le16(input@, 0),
{
    nom::number::complete::le_u16::<&[u8], nom::error::Error<&[u8]>>(input).ok()
}

/// `nom::number::complete::le_u32`: fails on fewer than four bytes, else
/// hands back the first four bytes as a little-endian number and the input
/// after them.
#[verifier::external_body]
fn nom_le_u32(input: &[u8]) -> (r: Option<(&[u8], u32)>)
    ensures
        r is Some <==> input@.len() >= 4,
        r matches Some((rest, value)) ==> rest@ == input@.skip(4) && value == le32(input@, 0),
{
    nom::number::complete::le_u32::<&[u8], nom::error::Error<&[u8]>>(input).ok()
}

/// `nom::number::complete::le_u64`: fails on fewer than eight bytes, else
/// hands back the first eight bytes as a little-endian number and the input
/// after them.
#[verifier::external_body]
fn nom_le_u64(input: &[u8]) -> (r: Option<(&[u8], u64)>)
    ensures
        r is Some <==> input@.len() >= 8,
        r matches Some((rest, value)) ==> rest@ == input@.skip(8) && value == le64(input@, 0),
{
    nom::number::complete::le_u64::<&[u8], nom::error::Error<&[u8]>>(input).ok()
}

/// `nom::bytes::streaming::take`: fails when the input holds fewer than
/// `count` bytes, else splits it there and hands back the rest first, the
/// taken prefix second.
#[verifier::external_body]
fn nom_take(input: &[u8], count: usize) -> (r: Option<(&[u8], &[u8])>)
    ensures
        r is Some <==> input@.len() >= count,
        r matches Some((rest, taken)) ==> rest@ == input@.skip(count as int) && taken@
            == input@.take(count as int),
{
    nom::bytes::streaming::take::<usize, &[u8], nom::error::Error<&[u8]>>(count)(input).ok()
}

/// The byte at `off`.
pub fn read_u8(input: &[u8], off: usize) -> (v: u8)
    requires
        off < input@.len(),
    ensures
        v == input@[off as int],
{
    let window = slice_subrange(input, off, input.len());
    match nom_le_u8(window) {
        Some((_, v)) => v,
        None => 0,
    }
}

/// The little-endian 16-bit number at `off`.
pub fn read_u16(input: &[u8], off: usize) -> (v: u16)
    requires
        off + 2 <= input@.len(),
    ensures
        v == le16(input@, off as int),
{
    let window = slice_subrange(input, off, input.len());
    match nom_le_u16(window) {
        Some((_, v)) => v,
        None => 0,
    }
}

/// The little-endian 32-bit number at `off`.
pub fn read_u32(input: &[u8], off: usize) -> (v: u32)
    requires
        off + 4 <= input@.len(),
    ensures
        v == le32(input@, off as int),
{
    let window = slice_subrange(input, off, input.len());
    match nom_le_u32(window) {
        Some((_, v)) => v,
        None => 0,
    }
}

/// The little-endian 64-bit number at `off`.
pub fn read_u64(input: &[u8], off: usize) -> (v: u64)
    requires
        off + 8 <= input@.len(),
    ensures
        v == le64(input@, off as int),
{
    let window = slice_subrange(input, off, input.len());
    match nom_le_u64(window) {
        Some((_, v)) => v,
        None => 0,
    }
}

/// Splits `count` bytes off the front of `input`: the rest first, the taken
/// bytes second. Fails exactly when the input is shorter than `count`.
pub fn take(input: &[u8], count: usize) -> (r: Result<(&[u8], &[u8]), ParseError>)
    ensures
        r is Ok <==> count <= input@.len(),
        r is Err ==> r == Err::<(&[u8], &[u8]), ParseError>(ParseError::TooShort),
        r matches Ok((rest, taken)) ==> rest@ == input@.skip(count as int) && taken@
            == input@.take(count as int),
{
    match nom_take(input, count) {
        Some(pair) => Ok(pair),
        None => Err(ParseError::TooShort),
    }
}

/// The `N` bytes at `off`.
pub fn read_bytes<const N: usize>(input: &[u8], off: usize) -> (r: [u8; N])
    requires
        off + N <= input@.len(),
    ensures
        r@ == input@.subrange(off as int, off + N),
{
    let mut r: [u8; N] = [0u8; N];
    let len = input.len();
    let mut i: usize = 0;
    while i < N
        invariant
            i <= N,
            off + N <= len == input@.len(),
            forall|k: int| 0 <= k < i ==> r@[k] == input@[off + k],
        decreases N - i,
    {
        r[i] = read_u8(input, off + i);
        i += 1;
    }
    assert(r@ =~= input@.subrange(off as int, off + N));
    r
}

/// The `N` little-endian 32-bit numbers stored back to back from `off`.
pub fn read_words<const N: usize>(input: &[u8], off: usize) -> (r: [u32; N])
    requires
        off + 4 * N <= input@.len(),
    ensures
        forall|k: int| 0 <= k < N ==> r@[k] == le32(input@, off + 4 * k),
{
    let mut r: [u32; N] = [0u32; N];
    let len = input.len();
    let mut i: usize = 0;
    while i < N
        invariant
            i <= N,
            off + 4 * N <= len == input@.len(),
            forall|k: int| 0 <= k < i ==> r@[k] == le32(input@, off + 4 * k),
        decreases N - i,
    {
        r[i] = read_u32(input, off + 4 * i);
        i += 1;
    }
    r
}

/// Appends the little-endian bytes of `v`.
pub fn put_u16(out: &mut Vec<u8>, v: u16)
    ensures
        final(out)@ == old(out)@ + u16_bytes(v),
{
    out.push((v % 256) as u8);
    out.push((v / 256) as u8);
    assert(out@ =~= old(out)@ + u16_bytes(v));
}

/// Appends the little-endian bytes of `v`.
pub fn put_u32(out: &mut Vec<u8>, v: u32)
    ensures
        final(out)@ == old(out)@ + u32_bytes(v),
{
    out.push((v % 256) as u8);
    out.push((v / 256 % 256) as u8);
    out.push((v / 65536 % 256) as u8);
    out.push((v / 16777216) as u8);
    assert(out@ =~= old(out)@ + u32_bytes(v));
}

/// Appends the little-endian bytes of `v`.
pub fn put_u64(out: &mut Vec<u8>, v: u64)
    ensures
        final(out)@ == old(out)@ + u64_bytes(v),
{
    put_u32(out, (v % 4294967296) as u32);
    put_u32(out, (v / 4294967296) as u32);
    assert(out@ =~= old(out)@ + u64_bytes(v));
}

/// Appends `bytes` as they are.
pub fn put_bytes(out: &mut Vec<u8>, bytes: &[u8])
    ensures
        final(out)@ == old(out)@ + bytes@,
{
    let mut i: usize = 0;
    while i < bytes.len()
        invariant
            i <= bytes@.len(),
            out@ == old(out)@ + bytes@.take(i as int),
        decreases bytes@.len() - i,
    {
        out.push(bytes[i]);
        i += 1;
        assert(out@ =~= old(out)@ + bytes@.take(i as int));
    }
    assert(bytes@.take(bytes@.len() as int) =~= bytes@);
}

/// Reading back what `u16_bytes` wrote gives the number again.
pub proof fn lemma_le16_of_bytes(v: u16)
    ensures
        le16(u16_bytes(v), 0) == v,
{
    assert(v % 256 < 256 && v / 256 < 256 && v % 256 + 256 * (v / 256) == v) by (bit_vector);
}

/// Reading back what `u32_bytes` wrote gives the number again.
pub proof fn lemma_le32_of_bytes(v: u32)
    ensures
        le32(u32_bytes(v), 0) == v,
{
    assert(v % 256 < 256 && v / 256 % 256 < 256 && v / 65536 % 256 < 256 && v / 16777216 < 256
        && v % 256 + 256 * (v / 256 % 256) + 65536 * (v / 65536 % 256) + 16777216 * (v / 16777216)
        == v) by (bit_vector);
}

/// Reading back what `u64_bytes` wrote gives the number again.
pub proof fn lemma_le64_of_bytes(v: u64)
    ensures
        le64(u64_bytes(v), 0) == v,
{
    let lo = (v % 4294967296) as u32;
    let hi = (v / 4294967296) as u32;
    lemma_le32_of_bytes(lo);
    lemma_le32_of_bytes(hi);
    let s = u64_bytes(v);
    assert(le32(s, 0) == le32(u32_bytes(lo), 0));
    assert(le32(s, 4) == le32(u32_bytes(hi), 0));
}

/// Writing the number read at `off` gives the two bytes at `off` again.
pub proof fn lemma_bytes_of_le16(s: Seq<u8>, off: int)
    requires
        0 <= off,
        off + 2 <= s.len(),
    ensures
        0 <= le16(s, off) <= u16::MAX,
        u16_bytes(le16(s, off) as u16) == s.subrange(off, off + 2),
{
    let b0 = s[off] as u32;
    let b1 = s[off + 1] as u32;
    assert(b0 < 256 && b1 < 256 ==> b0 + 256 * b1 <= 0xffff && ((b0 + 256 * b1) as u32) % 256 == b0
        && ((b0 + 256 * b1) as u32) / 256 == b1) by (bit_vector);
    assert(u16_bytes(le16(s, off) as u16) =~= s.subrange(off, off + 2));
}

proof fn lemma_digits32(b0: u32, b1: u32, b2: u32, b3: u32)
    by (bit_vector)
    requires
        b0 < 256,
        b1 < 256,
        b2 < 256,
        b3 < 256,
    ensures
        ({
            let v = (b0 + 256 * b1 + 65536 * b2 + 16777216 * b3) as u32;
            &&& b0 + 256 * b1 + 65536 * b2 + 16777216 * b3 <= 0xffff_ffff
            &&& v % 256 == b0
            &&& v / 256 % 256 == b1
            &&& v / 65536 % 256 == b2
            &&& v / 16777216 == b3
        }),
{
}

/// Writing the number read at `off` gives the four bytes at `off` again.
pub proof fn lemma_bytes_of_le32(s: Seq<u8>, off: int)
    requires
        0 <= off,
        off + 4 <= s.len(),
    ensures
        0 <= le32(s, off) <= u32::MAX,
        u32_bytes(le32(s, off) as u32) == s.subrange(off, off + 4),
{
    lemma_digits32(s[off] as u32, s[off + 1] as u32, s[off + 2] as u32, s[off + 3] as u32);
    assert(u32_bytes(le32(s, off) as u32) =~= s.subrange(off, off + 4));
}

proof fn lemma_halves64(lo: u64, hi: u64)
    by (bit_vector)
    requires
        lo <= 0xffff_ffff,
        hi <= 0xffff_ffff,
    ensures
        ({
            let v = (lo + 4294967296 * hi) as u64;
            &&& lo + 4294967296 * hi <= 0xffff_ffff_ffff_ffff
            &&& v % 4294967296 == lo
            &&& v / 4294967296 == hi
        }),
{
}

/// Writing the number read at `off` gives the eight bytes at `off` again.
pub proof fn lemma_bytes_of_le64(s: Seq<u8>, off: int)
    requires
        0 <= off,
        off + 8 <= s.len(),
    ensures
        0 <= le64(s, off) <= u64::MAX,
        u64_bytes(le64(s, off) as u64) == s.subrange(off, off + 8),
{
    lemma_bytes_of_le32(s, off);
    lemma_bytes_of_le32(s, off + 4);
    let lo = le32(s, off) as u64;
    let hi = le32(s, off + 4) as u64;
    lemma_halves64(lo, hi);
    let v = le64(s, off) as u64;
    assert(v == (lo + 4294967296 * hi) as u64);
    assert(u64_bytes(v) == s.subrange(off, off + 4) + s.subrange(off + 4, off + 8));
    assert(s.subrange(off, off + 4) + s.subrange(off + 4, off + 8) =~= s.subrange(off, off + 8));
}

} // verus!
