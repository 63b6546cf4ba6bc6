//! The postcard encodings of the plain values that make up a primary key,
//! and the xxh3 hash of bytes.
use vstd::prelude::*;
use vstd::utf8::{decode_utf8, encode_utf8, encode_utf8_decode_utf8};

verus! {

/// The error type of `postcard`.
#[verifier::external_type_specification]
#[verifier::external_body]
pub struct ExPostcardError(postcard::Error);

/// The varint that postcard writes for `n`: seven bits per byte, least
/// significant first, the high bit set on every byte but the last.
pub open spec fn varint(n: nat) -> Seq<u8>
    decreases n,
{
    if n < 0x80 {
        seq![n as u8]
    } else {
        seq![(n % 0x80 + 0x80) as u8] + varint(n / 0x80)
    }
}

/// The zigzag number of a signed integer: `2x` for `x >= 0`, `-2x - 1`
/// otherwise, so that small magnitudes give small numbers.
pub open spec fn zigzag(x: int) -> nat {
    if x >= 0 {
        (2 * x) as nat
    } else {
        (-2 * x - 1) as nat
    }
}

/// What `postcard::to_allocvec` writes for a `u32`: its varint.
pub open spec fn postcard_u32(x: u32) -> Seq<u8> {
    varint(x as nat)
}

/// What `postcard::to_allocvec` writes for a `u64`: its varint.
pub open spec fn postcard_u64(x: u64) -> Seq<u8> {
    varint(x as nat)
}

/// What `postcard::to_allocvec` writes for an `i16`: the varint of its
/// zigzag number.
pub open spec fn postcard_i16(x: i16) -> Seq<u8> {
    varint(zigzag(x as int))
}

/// What `postcard::to_allocvec` writes for an `i32`: the varint of its
/// zigzag number.
pub open spec fn postcard_i32(x: i32) -> Seq<u8> {
    varint(zigzag(x as int))
}

/// What `postcard::to_allocvec` writes for an `i64`: the varint of its
/// zigzag number.
pub open spec fn postcard_i64(x: i64) -> Seq<u8> {
    varint(zigzag(x as int))
}

/// What `postcard::to_allocvec` writes for a string: the varint of the
/// number of its UTF-8 bytes, then those bytes.
pub open spec fn postcard_str(s: Seq<char>) -> Seq<u8> {
    varint(encode_utf8(s).len()) + encode_utf8(s)
}

/// Law: a varint tells where it ends and what number it holds: when one
/// varint followed by some bytes equals another followed by some bytes, the
/// numbers and the bytes after them are the same.
pub proof fn lemma_varint_prefix_free(a: nat, b: nat, ra: Seq<u8>, rb: Seq<u8>)
    requires
        varint(a) + ra == varint(b) + rb,
    ensures
        a == b,
        ra == rb,
    decreases a,
{
    let x = varint(a) + ra;
    assert(x[0] == varint(a)[0]);
    assert(x[0] == varint(b)[0]);
    if a < 0x80 && b < 0x80 {
        assert(ra =~= x.skip(1));
        assert(rb =~= x.skip(1));
    } else if a >= 0x80 && b >= 0x80 {
        assert(varint(a) == seq![(a % 0x80 + 0x80) as u8] + varint(a / 0x80));
        assert(varint(b) == seq![(b % 0x80 + 0x80) as u8] + varint(b / 0x80));
        assert(varint(a / 0x80) + ra =~= x.skip(1));
        assert(varint(b / 0x80) + rb =~= x.skip(1));
        lemma_varint_prefix_free(a / 0x80, b / 0x80, ra, rb);
    }
}

/// Law: different integers have different zigzag numbers.
pub proof fn lemma_zigzag_injective(x: int, y: int)
    requires
        zigzag(x) == zigzag(y),
    ensures
        x == y,
{
}

/// Law: different numbers have different little-endian bytes.
pub proof fn lemma_le_bytes_u32_injective(x: u32, y: u32)
    requires
        le_bytes_u32(x) == le_bytes_u32(y),
    ensures
        x == y,
{
    assert(le_bytes_u32(x)[0] == le_bytes_u32(y)[0]);
    assert(le_bytes_u32(x)[1] == le_bytes_u32(y)[1]);
    assert(le_bytes_u32(x)[2] == le_bytes_u32(y)[2]);
    assert(le_bytes_u32(x)[3] == le_bytes_u32(y)[3]);
    assert(x % 0x100 == y % 0x100);
    assert((x / 0x100) % 0x100 == (y / 0x100) % 0x100);
    assert((x / 0x1_0000) % 0x100 == (y / 0x1_0000) % 0x100);
    assert((x / 0x100_0000) % 0x100 == (y / 0x100_0000) % 0x100);
    assert(x == y) by (bit_vector)
        requires
            x % 0x100 == y % 0x100,
            (x / 0x100) % 0x100 == (y / 0x100) % 0x100,
            (x / 0x1_0000) % 0x100 == (y / 0x1_0000) % 0x100,
            (x / 0x100_0000) % 0x100 == (y / 0x100_0000) % 0x100,
    ;
}

/// Law: different numbers have different little-endian bytes.
pub proof fn lemma_le_bytes_u64_injective(x: u64, y: u64)
    requires
        le_bytes_u64(x) == le_bytes_u64(y),
    ensures
        x == y,
{
    let xl = (x % 0x1_0000_0000) as u32;
    let xh = (x / 0x1_0000_0000) as u32;
    let yl = (y % 0x1_0000_0000) as u32;
    let yh = (y / 0x1_0000_0000) as u32;
    assert(le_bytes_u32(xl) =~= le_bytes_u64(x).subrange(0, 4));
    assert(le_bytes_u32(yl) =~= le_bytes_u64(y).subrange(0, 4));
    assert(le_bytes_u32(xh) =~= le_bytes_u64(x).subrange(4, 8));
    assert(le_bytes_u32(yh) =~= le_bytes_u64(y).subrange(4, 8));
    lemma_le_bytes_u32_injective(xl, yl);
    lemma_le_bytes_u32_injective(xh, yh);
}

/// Law: a postcard string tells where it ends and what text it holds.
pub proof fn lemma_str_prefix_free(s: Seq<char>, t: Seq<char>, rs: Seq<u8>, rt: Seq<u8>)
    requires
        postcard_str(s) + rs == postcard_str(t) + rt,
    ensures
        s == t,
        rs == rt,
{
    let es = encode_utf8(s);
    let et = encode_utf8(t);
    assert(postcard_str(s) + rs =~= varint(es.len()) + (es + rs));
    assert(postcard_str(t) + rt =~= varint(et.len()) + (et + rt));
    lemma_varint_prefix_free(es.len(), et.len(), es + rs, et + rt);
    assert(es =~= (es + rs).subrange(0, es.len() as int));
    assert(et =~= (et + rt).subrange(0, et.len() as int));
    assert(rs =~= (es + rs).skip(es.len() as int));
    assert(rt =~= (et + rt).skip(et.len() as int));
    encode_utf8_decode_utf8(s);
    encode_utf8_decode_utf8(t);
}

/// What `xxhash_rust::xxh3::xxh3_64` returns for the given bytes.
pub uninterp spec fn xxh3_64_digest(bytes: Seq<u8>) -> u64;

/// The four bytes of `x`, least significant first.
pub open spec fn le_bytes_u32(x: u32) -> Seq<u8> {
    seq![
        (x % 0x100) as u8,
        ((x / 0x100) % 0x100) as u8,
        ((x / 0x1_0000) % 0x100) as u8,
        ((x / 0x100_0000) % 0x100) as u8,
    ]
}

/// The eight bytes of `x`, least significant first.
pub open spec fn le_bytes_u64(x: u64) -> Seq<u8> {
    le_bytes_u32((x % 0x1_0000_0000) as u32) + le_bytes_u32((x / 0x1_0000_0000) as u32)
}

/// `postcard::to_allocvec` of a `u32`.  Its output goes to a growable vector,
/// to which postcard's source never fails to write, so it always succeeds.
#[verifier::external_body]
pub(crate) fn encode_u32(x: u32) -> (r: Result<Vec<u8>, postcard::Error>)
    ensures
        r is Ok,
        r matches Ok(b) ==> b@ == postcard_u32(x),
{
    postcard::to_allocvec(&x)
}

/// `postcard::to_allocvec` of a `u64`; it always succeeds (see `encode_u32`).
#[verifier::external_body]
pub(crate) fn encode_u64(x: u64) -> (r: Result<Vec<u8>, postcard::Error>)
    ensures
        r is Ok,
        r matches Ok(b) ==> b@ == postcard_u64(x),
{
    postcard::to_allocvec(&x)
}

/// `postcard::to_allocvec` of an `i16`; it always succeeds (see `encode_u32`).
#[verifier::external_body]
pub(crate) fn encode_i16(x: i16) -> (r: Result<Vec<u8>, postcard::Error>)
    ensures
        r is Ok,
        r matches Ok(b) ==> b@ == postcard_i16(x),
{
    postcard::to_allocvec(&x)
}

/// `postcard::to_allocvec` of an `i32`; it always succeeds (see `encode_u32`).
#[verifier::external_body]
pub(crate) fn encode_i32(x: i32) -> (r: Result<Vec<u8>, postcard::Error>)
    ensures
        r is Ok,
        r matches Ok(b) ==> b@ == postcard_i32(x),
{
    postcard::to_allocvec(&x)
}

/// `postcard::to_allocvec` of an `i64`; it always succeeds (see `encode_u32`).
#[verifier::external_body]
pub(crate) fn encode_i64(x: i64) -> (r: Result<Vec<u8>, postcard::Error>)
    ensures
        r is Ok,
        r matches Ok(b) ==> b@ == postcard_i64(x),
{
    postcard::to_allocvec(&x)
}

/// `postcard::to_allocvec` of a string; it always succeeds (see
/// `encode_u32`).
#[verifier::external_body]
pub(crate) fn encode_str(s: &str) -> (r: Result<Vec<u8>, postcard::Error>)
    ensures
        r is Ok,
        r matches Ok(b) ==> b@ == postcard_str(s@),
{
    postcard::to_allocvec(s)
}

/// `xxhash_rust::xxh3::xxh3_64` of the bytes.
#[verifier::external_body]
pub(crate) fn xxh3_64(bytes: &[u8]) -> (h: u64)
    ensures
        h == xxh3_64_digest(bytes@),
{
    xxhash_rust::xxh3::xxh3_64(bytes)
}

} // verus!
