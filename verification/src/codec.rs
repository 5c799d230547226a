//! Compact binary encodings (postcard's wire format) of the plain values that the store
//! holds: unsigned integers (enum variant indices) and pairs of signed integers (points).
use vstd::prelude::*;

verus! {

/// The varint that postcard writes for a number: seven bits at a time, lowest first, with
/// the top bit set on every byte but the last.
pub open spec fn varint(n: nat) -> Seq<u8>
    decreases n,
{
    if n < 128 {
        seq![n as u8]
    } else {
        seq![(n % 128 + 128) as u8] + varint(n / 128)
    }
}

/// The zig-zag number that postcard writes a signed integer as: 0, -1, 1, -2, 2, ... become
/// 0, 1, 2, 3, 4, ...
pub open spec fn zigzag(v: i32) -> nat {
    if v >= 0 {
        (2 * v) as nat
    } else {
        (-2 * v - 1) as nat
    }
}

/// The bytes that postcard writes for a `u32`: its varint.
pub open spec fn postcard_u32_bytes(v: u32) -> Seq<u8> {
    varint(v as nat)
}

/// What postcard reads back as a `u32` from the bytes (`None` when it reports an error).
pub uninterp spec fn postcard_u32_read(bytes: Seq<u8>) -> Option<u32>;

/// The bytes that postcard writes for a pair of `i32`s (the layout of a two-field struct):
/// the zig-zag varint of each, in order.
pub open spec fn postcard_pair_bytes(x: i32, y: i32) -> Seq<u8> {
    varint(zigzag(x)) + varint(zigzag(y))
}

/// What postcard reads back as a pair of `i32`s from the bytes (`None` on an error).
pub uninterp spec fn postcard_pair_read(bytes: Seq<u8>) -> Option<(i32, i32)>;

/// Calls `postcard::to_allocvec` on a `u32`. Trusted: the result is the value's varint,
/// and `postcard::from_bytes` reads it back as the same value (writing into a `Vec` cannot
/// fail).
#[verifier::external_body]
pub(crate) fn encode_u32(v: u32) -> (bytes: Vec<u8>)
    ensures
        bytes@ == postcard_u32_bytes(v),
        postcard_u32_read(bytes@) == Some(v),
{
    postcard::to_allocvec(&v).unwrap()
}

/// Calls `postcard::from_bytes::<u32>`. Trusted: the result is the named read of the
/// bytes, `None` where postcard returns an error.
#[verifier::external_body]
pub(crate) fn decode_u32(bytes: &[u8]) -> (r: Option<u32>)
    ensures
        r == postcard_u32_read(bytes@),
{
    postcard::from_bytes::<u32>(bytes).ok()
}

/// Calls `postcard::to_allocvec` on a pair of `i32`s. Trusted: the result is the zig-zag
/// varint of each number in order, and `postcard::from_bytes` reads it back as the same
/// pair (writing into a `Vec` cannot fail).
#[verifier::external_body]
pub(crate) fn encode_pair(x: i32, y: i32) -> (bytes: Vec<u8>)
    ensures
        bytes@ == postcard_pair_bytes(x, y),
        postcard_pair_read(bytes@) == Some((x, y)),
{
    postcard::to_allocvec(&(x, y)).unwrap()
}

/// Calls `postcard::from_bytes::<(i32, i32)>`. Trusted: the result is the named read of
/// the bytes, `None` where postcard returns an error.
#[verifier::external_body]
pub(crate) fn decode_pair(bytes: &[u8]) -> (r: Option<(i32, i32)>)
    ensures
        r == postcard_pair_read(bytes@),
{
    postcard::from_bytes::<(i32, i32)>(bytes).ok()
}

} // verus!
