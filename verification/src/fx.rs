//! The Fx hasher of `rustc_hash`, as the library uses it: values are hashed
//! into it one after the other, and its digest is read at the end.
//!
//! A hasher is described by the calls that it has absorbed, in order.  Each
//! call is written as a tag, a number and a text:
//!   - tag 0: `u8::hash` of the number,
//!   - tag 1: `u64::hash` of the number,
//!   - tag 2: `i64::hash` of the number,
//!   - tag 3: `str::hash` of the text,
//!   - tag 4: `bool::hash` of `true` (number 1) or `false` (number 0).
use core::hash::{Hash, Hasher};
use rustc_hash::FxHasher;
use vstd::prelude::*;

verus! {

/// The hasher type of `rustc_hash`.
#[verifier::external_type_specification]
#[verifier::external_body]
pub struct ExFxHasher(FxHasher);

/// The calls that a hasher has absorbed since it was created, in order.
pub uninterp spec fn fx_absorbed(h: FxHasher) -> Seq<(u8, int, Seq<char>)>;

/// What `FxHasher::finish` returns for a hasher created by
/// `FxHasher::default` that has absorbed exactly these calls.
pub uninterp spec fn fx_digest(calls: Seq<(u8, int, Seq<char>)>) -> u64;

/// The call log of a hash of a `u8`.
pub open spec fn u8_call(x: u8) -> (u8, int, Seq<char>) {
    (0u8, x as int, Seq::empty())
}

/// The call log of a hash of a `u64`.
pub open spec fn u64_call(x: u64) -> (u8, int, Seq<char>) {
    (1u8, x as int, Seq::empty())
}

/// The call log of a hash of an `i64`.
pub open spec fn i64_call(x: i64) -> (u8, int, Seq<char>) {
    (2u8, x as int, Seq::empty())
}

/// The call log of a hash of a string.
pub open spec fn str_call(s: Seq<char>) -> (u8, int, Seq<char>) {
    (3u8, 0int, s)
}

/// The call log of a hash of a `bool`.
pub open spec fn bool_call(b: bool) -> (u8, int, Seq<char>) {
    (4u8, if b { 1int } else { 0int }, Seq::empty())
}

/// `FxHasher::default()`: a fresh hasher, which has absorbed nothing.
#[verifier::external_body]
pub(crate) fn fx_new() -> (h: FxHasher)
    ensures
        fx_absorbed(h) == Seq::<(u8, int, Seq<char>)>::empty(),
{
    FxHasher::default()
}

/// `<u8 as Hash>::hash` into the hasher: the call is appended to its log.
#[verifier::external_body]
pub(crate) fn fx_hash_u8(h: &mut FxHasher, x: u8)
    ensures
        fx_absorbed(*final(h)) == fx_absorbed(*old(h)).push(u8_call(x)),
{
    x.hash(h)
}

/// `<u64 as Hash>::hash` into the hasher: the call is appended to its log.
#[verifier::external_body]
pub(crate) fn fx_hash_u64(h: &mut FxHasher, x: u64)
    ensures
        fx_absorbed(*final(h)) == fx_absorbed(*old(h)).push(u64_call(x)),
{
    x.hash(h)
}

/// `<i64 as Hash>::hash` into the hasher: the call is appended to its log.
#[verifier::external_body]
pub(crate) fn fx_hash_i64(h: &mut FxHasher, x: i64)
    ensures
        fx_absorbed(*final(h)) == fx_absorbed(*old(h)).push(i64_call(x)),
{
    x.hash(h)
}

/// `<str as Hash>::hash` into the hasher: the call is appended to its log.
#[verifier::external_body]
pub(crate) fn fx_hash_str(h: &mut FxHasher, s: &str)
    ensures
        fx_absorbed(*final(h)) == fx_absorbed(*old(h)).push(str_call(s@)),
{
    s.hash(h)
}

/// `<bool as Hash>::hash` into the hasher: the call is appended to its log.
#[verifier::external_body]
pub(crate) fn fx_hash_bool(h: &mut FxHasher, b: bool)
    ensures
        fx_absorbed(*final(h)) == fx_absorbed(*old(h)).push(bool_call(b)),
{
    b.hash(h)
}

/// `FxHasher::finish`: the digest of the calls the hasher has absorbed.
#[verifier::external_body]
pub(crate) fn fx_finish(h: &FxHasher) -> (d: u64)
    ensures
        d == fx_digest(fx_absorbed(*h)),
{
    h.finish()
}

} // verus!
