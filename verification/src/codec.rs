//! Wire codec: turns a byte stream into discrete length-prefixed messages
//! and back.
//!
//! A frame is a 4-byte big-endian unsigned length followed by exactly that
//! many payload bytes. The payload is a compact binary serialization of one
//! [`Message`]: a one-byte variant tag followed by the fields in order.
//! Integers are big-endian; strings are a byte-length prefix followed by
//! UTF-8 bytes; byte blobs and lists are a length prefix followed by the
//! items.
//!
//! The decoder is a pull operation over a growable receive buffer: it never
//! needs more than what is buffered, and reports `NeedMoreData` until a whole
//! frame has arrived.
use vstd::prelude::*;

use vstd::utf8::{decode_utf8, encode_utf8, valid_utf8};
use vstd::string::{StrSliceExecFns, StringSliceAdditionalSpecFns};

use crate::models::{Channel, ChannelV, Server, ServerV, User, UserStatus, UserV};
use crate::protocol::{Message, MessageV};

verus! {

/// A length prefix above this bound is a malformed frame, never an
/// allocation; it bounds the memory one peer can demand.
pub const MAX_FRAME_SIZE: usize = 8 * 1024 * 1024;

// ------------------------------------------------------------------
// Byte-level primitives
// ------------------------------------------------------------------

/// The four big-endian bytes of a 32-bit integer.
pub open spec fn be32(n: u32) -> Seq<u8> {
    seq![
        ((n >> 24) & 0xff) as u8,
        ((n >> 16) & 0xff) as u8,
        ((n >> 8) & 0xff) as u8,
        (n & 0xff) as u8,
    ]
}

/// The integer read back from four big-endian bytes.
pub open spec fn be32_val(b0: u8, b1: u8, b2: u8, b3: u8) -> u32 {
    ((b0 as u32) << 24) | ((b1 as u32) << 16) | ((b2 as u32) << 8) | (b3 as u32)
}

/// The eight big-endian bytes of a 64-bit integer.
pub open spec fn be64(n: u64) -> Seq<u8> {
    seq![
        ((n >> 56) & 0xff) as u8,
        ((n >> 48) & 0xff) as u8,
        ((n >> 40) & 0xff) as u8,
        ((n >> 32) & 0xff) as u8,
        ((n >> 24) & 0xff) as u8,
        ((n >> 16) & 0xff) as u8,
        ((n >> 8) & 0xff) as u8,
        (n & 0xff) as u8,
    ]
}

/// The integer read back from eight big-endian bytes.
pub open spec fn be64_val(b0: u8, b1: u8, b2: u8, b3: u8, b4: u8, b5: u8, b6: u8, b7: u8) -> u64 {
    ((b0 as u64) << 56) | ((b1 as u64) << 48) | ((b2 as u64) << 40) | ((b3 as u64) << 32) | (
    (b4 as u64) << 24) | ((b5 as u64) << 16) | ((b6 as u64) << 8) | (b7 as u64)
}

/// Reading back the big-endian bytes of an integer yields the integer.
pub proof fn lemma_be32_round(n: u32)
    ensures
        be32_val(be32(n)[0], be32(n)[1], be32(n)[2], be32(n)[3]) == n,
{
    assert(((((n >> 24) & 0xff) as u8 as u32) << 24) | ((((n >> 16) & 0xff) as u8 as u32) << 16)
        | ((((n >> 8) & 0xff) as u8 as u32) << 8) | ((n & 0xff) as u8 as u32) == n)
        by (bit_vector);
}

/// Reading back the big-endian bytes of a 64-bit integer yields the integer.
pub proof fn lemma_be64_round(n: u64)
    ensures
        be64_val(
            be64(n)[0],
            be64(n)[1],
            be64(n)[2],
            be64(n)[3],
            be64(n)[4],
            be64(n)[5],
            be64(n)[6],
            be64(n)[7],
        ) == n,
{
    assert(((((n >> 56) & 0xff) as u8 as u64) << 56) | ((((n >> 48) & 0xff) as u8 as u64) << 48)
        | ((((n >> 40) & 0xff) as u8 as u64) << 40) | ((((n >> 32) & 0xff) as u8 as u64) << 32)
        | ((((n >> 24) & 0xff) as u8 as u64) << 24) | ((((n >> 16) & 0xff) as u8 as u64) << 16)
        | ((((n >> 8) & 0xff) as u8 as u64) << 8) | ((n & 0xff) as u8 as u64) == n)
        by (bit_vector);
}

/// Appends the big-endian bytes of a 32-bit integer.
fn push_u32(out: &mut Vec<u8>, n: u32)
    ensures
        final(out)@ == old(out)@ + be32(n),
{
    proof {
        assert((n >> 24) & 0xff < 256 && (n >> 16) & 0xff < 256 && (n >> 8) & 0xff < 256 && n
            & 0xff < 256) by (bit_vector);
    }
    out.push(((n >> 24) & 0xff) as u8);
    out.push(((n >> 16) & 0xff) as u8);
    out.push(((n >> 8) & 0xff) as u8);
    out.push((n & 0xff) as u8);
    proof {
        assert(out@ =~= old(out)@ + be32(n));
    }
}

/// Appends the big-endian bytes of a 64-bit integer.
fn push_u64(out: &mut Vec<u8>, n: u64)
    ensures
        final(out)@ == old(out)@ + be64(n),
{
    proof {
        assert((n >> 56) & 0xff < 256 && (n >> 48) & 0xff < 256 && (n >> 40) & 0xff < 256 && (n
            >> 32) & 0xff < 256 && (n >> 24) & 0xff < 256 && (n >> 16) & 0xff < 256 && (n >> 8)
            & 0xff < 256 && n & 0xff < 256) by (bit_vector);
    }
    out.push(((n >> 56) & 0xff) as u8);
    out.push(((n >> 48) & 0xff) as u8);
    out.push(((n >> 40) & 0xff) as u8);
    out.push(((n >> 32) & 0xff) as u8);
    out.push(((n >> 24) & 0xff) as u8);
    out.push(((n >> 16) & 0xff) as u8);
    out.push(((n >> 8) & 0xff) as u8);
    out.push((n & 0xff) as u8);
    proof {
        assert(out@ =~= old(out)@ + be64(n));
    }
}

/// Appends a copy of the given bytes.
fn append_bytes(out: &mut Vec<u8>, src: &Vec<u8>)
    ensures
        final(out)@ == old(out)@ + src@,
{
    let mut i: usize = 0;
    while i < src.len()
        invariant
            i <= src@.len(),
            out@ == old(out)@ + src@.take(i as int),
        decreases src@.len() - i,
    {
        out.push(src[i]);
        proof {
            assert(old(out)@ + src@.take(i as int) + seq![src@[i as int]] =~= old(out)@
                + src@.take(i + 1));
        }
        i = i + 1;
    }
    proof {
        assert(src@.take(src@.len() as int) =~= src@);
    }
}

// ------------------------------------------------------------------
// Spec-level parsers for the primitives
// ------------------------------------------------------------------

/// Parses four big-endian bytes at position `p`.
pub open spec fn parse_u32_s(b: Seq<u8>, p: int) -> Option<(u32, int)> {
    if 0 <= p && p + 4 <= b.len() {
        Some((be32_val(b[p], b[p + 1], b[p + 2], b[p + 3]), p + 4))
    } else {
        None
    }
}

/// Parses eight big-endian bytes at position `p`.
pub open spec fn parse_u64_s(b: Seq<u8>, p: int) -> Option<(u64, int)> {
    if 0 <= p && p + 8 <= b.len() {
        Some(
            (
                be64_val(b[p], b[p + 1], b[p + 2], b[p + 3], b[p + 4], b[p + 5], b[p + 6], b[p
                    + 7]),
                p + 8,
            ),
        )
    } else {
        None
    }
}

/// Reads a 32-bit integer; `None` when fewer than four bytes remain.
fn read_u32(b: &Vec<u8>, p: usize) -> (r: Option<(u32, usize)>)
    ensures
        r matches Some((v, q)) ==> parse_u32_s(b@, p as int) == Some((v, q as int)),
        r is None ==> parse_u32_s(b@, p as int) is None,
{
    if p <= b.len() && b.len() - p >= 4 {
        let v = ((b[p] as u32) << 24) | ((b[p + 1] as u32) << 16) | ((b[p + 2] as u32) << 8) | (
        b[p + 3] as u32);
        Some((v, p + 4))
    } else {
        None
    }
}

/// Reads a 64-bit integer; `None` when fewer than eight bytes remain.
fn read_u64(b: &Vec<u8>, p: usize) -> (r: Option<(u64, usize)>)
    ensures
        r matches Some((v, q)) ==> parse_u64_s(b@, p as int) == Some((v, q as int)),
        r is None ==> parse_u64_s(b@, p as int) is None,
{
    if p <= b.len() && b.len() - p >= 8 {
        let v = ((b[p] as u64) << 56) | ((b[p + 1] as u64) << 48) | ((b[p + 2] as u64) << 40) | (
        (b[p + 3] as u64) << 32) | ((b[p + 4] as u64) << 24) | ((b[p + 5] as u64) << 16) | ((b[p
            + 6] as u64) << 8) | (b[p + 7] as u64);
        Some((v, p + 8))
    } else {
        None
    }
}

/// Parsing right after writing an integer yields the integer back.
pub proof fn lemma_parse_u32(b: Seq<u8>, p: int, n: u32)
    requires
        0 <= p,
        p + 4 <= b.len(),
        b.subrange(p, p + 4) == be32(n),
    ensures
        parse_u32_s(b, p) == Some((n, p + 4)),
{
    assert(b[p] == be32(n)[0] && b[p + 1] == be32(n)[1] && b[p + 2] == be32(n)[2] && b[p + 3]
        == be32(n)[3]) by {
        assert(b.subrange(p, p + 4)[0] == b[p]);
        assert(b.subrange(p, p + 4)[1] == b[p + 1]);
        assert(b.subrange(p, p + 4)[2] == b[p + 2]);
        assert(b.subrange(p, p + 4)[3] == b[p + 3]);
    }
    lemma_be32_round(n);
}

/// Parsing right after writing a 64-bit integer yields the integer back.
pub proof fn lemma_parse_u64(b: Seq<u8>, p: int, n: u64)
    requires
        0 <= p,
        p + 8 <= b.len(),
        b.subrange(p, p + 8) == be64(n),
    ensures
        parse_u64_s(b, p) == Some((n, p + 8)),
{
    assert forall|i: int| 0 <= i < 8 implies b[p + i] == be64(n)[i] by {
        assert(b.subrange(p, p + 8)[i] == b[p + i]);
    }
    lemma_be64_round(n);
}

/// A slice of a byte sequence that equals a concatenation splits into the
/// two parts.
proof fn lemma_split(b: Seq<u8>, p: int, s1: Seq<u8>, s2: Seq<u8>)
    requires
        0 <= p,
        p + s1.len() + s2.len() <= b.len(),
        b.subrange(p, p + s1.len() + s2.len()) == s1 + s2,
    ensures
        b.subrange(p, p + s1.len() as int) == s1,
        b.subrange(p + s1.len(), p + s1.len() + s2.len()) == s2,
{
    assert forall|i: int| 0 <= i < s1.len() implies b.subrange(p, p + s1.len() as int)[i]
        == s1[i] by {
        assert(b.subrange(p, p + s1.len() + s2.len())[i] == b[p + i]);
        assert(b.subrange(p, p + s1.len() as int)[i] == b[p + i]);
        assert((s1 + s2)[i] == s1[i]);
    }
    assert(b.subrange(p, p + s1.len() as int) =~= s1);
    assert forall|i: int| 0 <= i < s2.len() implies b.subrange(
        p + s1.len(),
        p + s1.len() + s2.len(),
    )[i] == s2[i] by {
        assert(b.subrange(p, p + s1.len() + s2.len())[s1.len() + i] == b[p + s1.len() + i]);
        assert(b.subrange(p + s1.len(), p + s1.len() + s2.len())[i] == b[p + s1.len() + i]);
        assert((s1 + s2)[s1.len() + i] == s2[i]);
    }
    assert(b.subrange(p + s1.len(), p + s1.len() + s2.len()) =~= s2);
}

// ------------------------------------------------------------------
// UTF-8 strings and byte blobs
// ------------------------------------------------------------------

#[verifier::external_type_specification]
#[verifier::external_body]
pub struct ExUtf8Error(core::str::Utf8Error);

/// Relies on core::str::from_utf8: it succeeds exactly on valid UTF-8 input
/// and then returns a string over exactly those bytes.
pub assume_specification[ core::str::from_utf8 ](v: &[u8]) -> (r: Result<
    &str,
    core::str::Utf8Error,
>)
    ensures
        r is Ok <==> valid_utf8(v@),
        r matches Ok(s) ==> s.spec_bytes() == v@,
;

/// Copies the byte range `[from, to)` out of a buffer.
fn copy_range(b: &Vec<u8>, from: usize, to: usize) -> (r: Vec<u8>)
    requires
        from <= to <= b@.len(),
    ensures
        r@ == b@.subrange(from as int, to as int),
{
    let mut r: Vec<u8> = Vec::new();
    let mut i: usize = from;
    while i < to
        invariant
            from <= i <= to <= b@.len(),
            r@ == b@.subrange(from as int, i as int),
        decreases to - i,
    {
        r.push(b[i]);
        proof {
            assert(b@.subrange(from as int, i as int) + seq![b@[i as int]] =~= b@.subrange(
                from as int,
                i + 1,
            ));
        }
        i = i + 1;
    }
    r
}

/// A string on the wire: a byte-length prefix, then the UTF-8 bytes.
pub open spec fn enc_str(s: Seq<char>) -> Seq<u8> {
    be32(encode_utf8(s).len() as u32) + encode_utf8(s)
}

/// The string's UTF-8 form fits under the frame bound, so its length prefix
/// is exact.
pub open spec fn wf_str(s: Seq<char>) -> bool {
    encode_utf8(s).len() <= MAX_FRAME_SIZE
}

/// Parses a string at position `p`.
pub open spec fn parse_str_s(b: Seq<u8>, p: int) -> Option<(Seq<char>, int)> {
    match parse_u32_s(b, p) {
        Some((n, q)) => if q + n <= b.len() {
            if valid_utf8(b.subrange(q, q + n)) {
                Some((decode_utf8(b.subrange(q, q + n)), q + n))
            } else {
                None
            }
        } else {
            None
        },
        None => None,
    }
}

/// Appends an encoded string; fails (leaving the buffer alone) only when the
/// string is over the frame bound.
fn write_str(out: &mut Vec<u8>, s: &String) -> (ok: bool)
    ensures
        ok ==> final(out)@ == old(out)@ + enc_str(s@) && wf_str(s@),
        !ok ==> final(out)@ == old(out)@ && !wf_str(s@),
{
    let bs = s.as_str().as_bytes_vec();
    if bs.len() <= MAX_FRAME_SIZE {
        push_u32(out, bs.len() as u32);
        append_bytes(out, &bs);
        proof {
            assert(out@ =~= old(out)@ + enc_str(s@));
        }
        true
    } else {
        false
    }
}

/// Reads a string; `None` on a short buffer or invalid UTF-8.
fn read_string(b: &Vec<u8>, p: usize) -> (r: Option<(String, usize)>)
    ensures
        r matches Some((s, q)) ==> parse_str_s(b@, p as int) == Some((s@, q as int)),
        r is None ==> parse_str_s(b@, p as int) is None,
{
    match read_u32(b, p) {
        Some((n32, q)) => {
            let n = n32 as usize;
            if n <= b.len() - q {
                let sub = copy_range(b, q, q + n);
                match core::str::from_utf8(sub.as_slice()) {
                    Ok(s) => {
                        let owned = s.to_owned();
                        proof {
                            vstd::utf8::encode_utf8_decode_utf8(s@);
                        }
                        Some((owned, q + n))
                    },
                    Err(_) => None,
                }
            } else {
                None
            }
        },
        None => None,
    }
}

/// Parsing right after writing a string yields the string back.
pub proof fn lemma_parse_str(b: Seq<u8>, p: int, s: Seq<char>)
    requires
        0 <= p,
        wf_str(s),
        p + enc_str(s).len() <= b.len(),
        b.subrange(p, p + enc_str(s).len()) == enc_str(s),
    ensures
        parse_str_s(b, p) == Some((s, p + enc_str(s).len())),
{
    let u = encode_utf8(s);
    let n = u.len() as u32;
    lemma_split(b, p, be32(n), u);
    lemma_parse_u32(b, p, n);
    vstd::utf8::encode_utf8_valid_utf8(s);
    vstd::utf8::encode_utf8_decode_utf8(s);
}

/// An opaque byte blob on the wire: a length prefix, then the bytes.
pub open spec fn enc_bytes(d: Seq<u8>) -> Seq<u8> {
    be32(d.len() as u32) + d
}

/// The blob fits under the frame bound, so its length prefix is exact.
pub open spec fn wf_bytes(d: Seq<u8>) -> bool {
    d.len() <= MAX_FRAME_SIZE
}

/// Parses a byte blob at position `p`.
pub open spec fn parse_bytes_s(b: Seq<u8>, p: int) -> Option<(Seq<u8>, int)> {
    match parse_u32_s(b, p) {
        Some((n, q)) => if q + n <= b.len() {
            Some((b.subrange(q, q + n), q + n))
        } else {
            None
        },
        None => None,
    }
}

/// Appends an encoded blob; fails (leaving the buffer alone) only when the
/// blob is over the frame bound.
fn write_bytes(out: &mut Vec<u8>, d: &Vec<u8>) -> (ok: bool)
    ensures
        ok ==> final(out)@ == old(out)@ + enc_bytes(d@) && wf_bytes(d@),
        !ok ==> final(out)@ == old(out)@ && !wf_bytes(d@),
{
    if d.len() <= MAX_FRAME_SIZE {
        push_u32(out, d.len() as u32);
        append_bytes(out, d);
        proof {
            assert(out@ =~= old(out)@ + enc_bytes(d@));
        }
        true
    } else {
        false
    }
}

/// Reads a byte blob; `None` on a short buffer.
fn read_bytes(b: &Vec<u8>, p: usize) -> (r: Option<(Vec<u8>, usize)>)
    ensures
        r matches Some((d, q)) ==> parse_bytes_s(b@, p as int) == Some((d@, q as int)),
        r is None ==> parse_bytes_s(b@, p as int) is None,
{
    match read_u32(b, p) {
        Some((n32, q)) => {
            let n = n32 as usize;
            if n <= b.len() - q {
                let sub = copy_range(b, q, q + n);
                Some((sub, q + n))
            } else {
                None
            }
        },
        None => None,
    }
}

/// Parsing right after writing a blob yields the blob back.
pub proof fn lemma_parse_bytes(b: Seq<u8>, p: int, d: Seq<u8>)
    requires
        0 <= p,
        wf_bytes(d),
        p + enc_bytes(d).len() <= b.len(),
        b.subrange(p, p + enc_bytes(d).len()) == enc_bytes(d),
    ensures
        parse_bytes_s(b, p) == Some((d, p + enc_bytes(d).len())),
{
    let n = d.len() as u32;
    lemma_split(b, p, be32(n), d);
    lemma_parse_u32(b, p, n);
}

// ------------------------------------------------------------------
// Single bytes: tags, booleans, presence values
// ------------------------------------------------------------------

/// Parses one byte at position `p`.
pub open spec fn parse_u8_s(b: Seq<u8>, p: int) -> Option<(u8, int)> {
    if 0 <= p && p + 1 <= b.len() {
        Some((b[p], p + 1))
    } else {
        None
    }
}

/// Reads one byte.
fn read_u8(b: &Vec<u8>, p: usize) -> (r: Option<(u8, usize)>)
    ensures
        r matches Some((v, q)) ==> parse_u8_s(b@, p as int) == Some((v, q as int)),
        r is None ==> parse_u8_s(b@, p as int) is None,
{
    if p < b.len() {
        Some((b[p], p + 1))
    } else {
        None
    }
}

/// A boolean on the wire: one byte, zero or one.
pub open spec fn enc_bool(v: bool) -> Seq<u8> {
    seq![if v { 1u8 } else { 0u8 }]
}

/// Parses a boolean; any byte other than zero or one is malformed.
pub open spec fn parse_bool_s(b: Seq<u8>, p: int) -> Option<(bool, int)> {
    match parse_u8_s(b, p) {
        Some((v, q)) => if v == 0 {
            Some((false, q))
        } else if v == 1 {
            Some((true, q))
        } else {
            None
        },
        None => None,
    }
}

/// Reads a boolean.
fn read_bool(b: &Vec<u8>, p: usize) -> (r: Option<(bool, usize)>)
    ensures
        r matches Some((v, q)) ==> parse_bool_s(b@, p as int) == Some((v, q as int)),
        r is None ==> parse_bool_s(b@, p as int) is None,
{
    match read_u8(b, p) {
        Some((v, q)) => if v == 0 {
            Some((false, q))
        } else if v == 1 {
            Some((true, q))
        } else {
            None
        },
        None => None,
    }
}

/// A presence value on the wire: one byte.
pub open spec fn enc_status(s: UserStatus) -> Seq<u8> {
    match s {
        UserStatus::Online => seq![0u8],
        UserStatus::Away => seq![1u8],
        UserStatus::DoNotDisturb => seq![2u8],
        UserStatus::Offline => seq![3u8],
    }
}

/// Parses a presence value.
pub open spec fn parse_status_s(b: Seq<u8>, p: int) -> Option<(UserStatus, int)> {
    match parse_u8_s(b, p) {
        Some((v, q)) => if v == 0 {
            Some((UserStatus::Online, q))
        } else if v == 1 {
            Some((UserStatus::Away, q))
        } else if v == 2 {
            Some((UserStatus::DoNotDisturb, q))
        } else if v == 3 {
            Some((UserStatus::Offline, q))
        } else {
            None
        },
        None => None,
    }
}

/// Appends a presence value.
fn write_status(out: &mut Vec<u8>, s: UserStatus)
    ensures
        final(out)@ == old(out)@ + enc_status(s),
{
    let v: u8 = match s {
        UserStatus::Online => 0,
        UserStatus::Away => 1,
        UserStatus::DoNotDisturb => 2,
        UserStatus::Offline => 3,
    };
    out.push(v);
    proof {
        assert(out@ =~= old(out)@ + enc_status(s));
    }
}

/// Reads a presence value.
fn read_status(b: &Vec<u8>, p: usize) -> (r: Option<(UserStatus, usize)>)
    ensures
        r matches Some((v, q)) ==> parse_status_s(b@, p as int) == Some((v, q as int)),
        r is None ==> parse_status_s(b@, p as int) is None,
{
    match read_u8(b, p) {
        Some((v, q)) => if v == 0 {
            Some((UserStatus::Online, q))
        } else if v == 1 {
            Some((UserStatus::Away, q))
        } else if v == 2 {
            Some((UserStatus::DoNotDisturb, q))
        } else if v == 3 {
            Some((UserStatus::Offline, q))
        } else {
            None
        },
        None => None,
    }
}

// ------------------------------------------------------------------
// Optional fields
// ------------------------------------------------------------------

/// An optional string: a one-byte presence flag, then the string if present.
pub open spec fn enc_opt_str(o: Option<Seq<char>>) -> Seq<u8> {
    match o {
        Option::None => seq![0u8],
        Option::Some(s) => seq![1u8] + enc_str(s),
    }
}

/// The optional string fits under the frame bound.
pub open spec fn wf_opt_str(o: Option<Seq<char>>) -> bool {
    match o {
        Option::None => true,
        Option::Some(s) => wf_str(s),
    }
}

/// Parses an optional string.
pub open spec fn parse_opt_str_s(b: Seq<u8>, p: int) -> Option<(Option<Seq<char>>, int)> {
    match parse_u8_s(b, p) {
        Some((v, q)) => if v == 0 {
            Some((Option::None, q))
        } else if v == 1 {
            match parse_str_s(b, q) {
                Some((s, r)) => Some((Option::Some(s), r)),
                None => None,
            }
        } else {
            None
        },
        None => None,
    }
}

/// Appends an optional string.
fn write_opt_str(out: &mut Vec<u8>, o: &Option<String>) -> (ok: bool)
    ensures
        ok ==> final(out)@ == old(out)@ + enc_opt_str(crate::models::opt_str_view(*o))
            && wf_opt_str(crate::models::opt_str_view(*o)),
        !ok ==> final(out)@ == old(out)@ && !wf_opt_str(crate::models::opt_str_view(*o)),
{
    match o {
        Option::None => {
            out.push(0u8);
            proof {
                assert(out@ =~= old(out)@ + enc_opt_str(crate::models::opt_str_view(*o)));
            }
            true
        },
        Option::Some(s) => {
            let bs = s.as_str().as_bytes_vec();
            if bs.len() <= MAX_FRAME_SIZE {
                out.push(1u8);
                let ok = write_str(out, s);
                proof {
                    assert(out@ =~= old(out)@ + enc_opt_str(crate::models::opt_str_view(*o)));
                }
                true
            } else {
                false
            }
        },
    }
}

/// Reads an optional string.
fn read_opt_string(b: &Vec<u8>, p: usize) -> (r: Option<(Option<String>, usize)>)
    ensures
        r matches Some((o, q)) ==> parse_opt_str_s(b@, p as int) == Some(
            (crate::models::opt_str_view(o), q as int),
        ),
        r is None ==> parse_opt_str_s(b@, p as int) is None,
{
    match read_u8(b, p) {
        Some((v, q)) => if v == 0 {
            Some((Option::None, q))
        } else if v == 1 {
            match read_string(b, q) {
                Some((s, r)) => Some((Option::Some(s), r)),
                None => None,
            }
        } else {
            None
        },
        None => None,
    }
}

/// Parsing right after writing an optional string yields it back.
pub proof fn lemma_parse_opt_str(b: Seq<u8>, p: int, o: Option<Seq<char>>)
    requires
        0 <= p,
        wf_opt_str(o),
        p + enc_opt_str(o).len() <= b.len(),
        b.subrange(p, p + enc_opt_str(o).len()) == enc_opt_str(o),
    ensures
        parse_opt_str_s(b, p) == Some((o, p + enc_opt_str(o).len())),
{
    match o {
        Option::None => {
            assert(b.subrange(p, p + 1)[0] == b[p]);
        },
        Option::Some(s) => {
            lemma_split(b, p, seq![1u8], enc_str(s));
            assert(b.subrange(p, p + 1)[0] == b[p]);
            lemma_parse_str(b, p + 1, s);
        },
    }
}

/// An optional identifier: a one-byte presence flag, then the identifier.
pub open spec fn enc_opt_u64(o: Option<u64>) -> Seq<u8> {
    match o {
        Option::None => seq![0u8],
        Option::Some(n) => seq![1u8] + be64(n),
    }
}

/// Parses an optional identifier.
pub open spec fn parse_opt_u64_s(b: Seq<u8>, p: int) -> Option<(Option<u64>, int)> {
    match parse_u8_s(b, p) {
        Some((v, q)) => if v == 0 {
            Some((Option::None, q))
        } else if v == 1 {
            match parse_u64_s(b, q) {
                Some((n, r)) => Some((Option::Some(n), r)),
                None => None,
            }
        } else {
            None
        },
        None => None,
    }
}

/// Appends an optional identifier.
fn write_opt_u64(out: &mut Vec<u8>, o: &Option<u64>)
    ensures
        final(out)@ == old(out)@ + enc_opt_u64(*o),
{
    match o {
        Option::None => {
            out.push(0u8);
        },
        Option::Some(n) => {
            out.push(1u8);
            push_u64(out, *n);
        },
    }
    proof {
        assert(out@ =~= old(out)@ + enc_opt_u64(*o));
    }
}

/// Reads an optional identifier.
fn read_opt_u64(b: &Vec<u8>, p: usize) -> (r: Option<(Option<u64>, usize)>)
    ensures
        r matches Some((o, q)) ==> parse_opt_u64_s(b@, p as int) == Some((o, q as int)),
        r is None ==> parse_opt_u64_s(b@, p as int) is None,
{
    match read_u8(b, p) {
        Some((v, q)) => if v == 0 {
            Some((Option::None, q))
        } else if v == 1 {
            match read_u64(b, q) {
                Some((n, r)) => Some((Option::Some(n), r)),
                None => None,
            }
        } else {
            None
        },
        None => None,
    }
}

/// Parsing right after writing an optional identifier yields it back.
pub proof fn lemma_parse_opt_u64(b: Seq<u8>, p: int, o: Option<u64>)
    requires
        0 <= p,
        p + enc_opt_u64(o).len() <= b.len(),
        b.subrange(p, p + enc_opt_u64(o).len()) == enc_opt_u64(o),
    ensures
        parse_opt_u64_s(b, p) == Some((o, p + enc_opt_u64(o).len())),
{
    match o {
        Option::None => {
            assert(b.subrange(p, p + 1)[0] == b[p]);
        },
        Option::Some(n) => {
            lemma_split(b, p, seq![1u8], be64(n));
            assert(b.subrange(p, p + 1)[0] == b[p]);
            lemma_parse_u64(b, p + 1, n);
        },
    }
}

// ------------------------------------------------------------------
// Identifier lists
// ------------------------------------------------------------------

/// The back-to-back encodings of a list of identifiers.
pub open spec fn enc_u64_list(v: Seq<u64>) -> Seq<u8>
    decreases v.len(),
{
    if v.len() == 0 {
        Seq::empty()
    } else {
        be64(v[0]) + enc_u64_list(v.drop_first())
    }
}

/// An identifier list on the wire: a count prefix, then the identifiers.
pub open spec fn enc_vec_u64(v: Seq<u64>) -> Seq<u8> {
    be32(v.len() as u32) + enc_u64_list(v)
}

/// The list's count fits under the frame bound, so its prefix is exact.
pub open spec fn wf_vec_u64(v: Seq<u64>) -> bool {
    v.len() <= MAX_FRAME_SIZE
}

/// Appending one identifier extends the encoding at the end.
proof fn lemma_enc_u64_list_push(v: Seq<u64>, x: u64)
    ensures
        enc_u64_list(v.push(x)) == enc_u64_list(v) + be64(x),
    decreases v.len(),
{
    if v.len() == 0 {
        reveal_with_fuel(enc_u64_list, 3);
        assert(v.push(x)[0] == x);
        assert(v.push(x).drop_first() =~= Seq::<u64>::empty());
        assert(enc_u64_list(v.push(x)) =~= enc_u64_list(v) + be64(x));
    } else {
        assert(v.push(x)[0] == v[0]);
        assert(v.push(x).drop_first() =~= v.drop_first().push(x));
        lemma_enc_u64_list_push(v.drop_first(), x);
        assert(enc_u64_list(v.push(x)) =~= enc_u64_list(v) + be64(x));
    }
}

/// Parses exactly `k` identifiers.
pub open spec fn parse_u64_list_s(b: Seq<u8>, p: int, k: nat) -> Option<(Seq<u64>, int)>
    decreases k,
{
    if k == 0 {
        Some((Seq::empty(), p))
    } else {
        match parse_u64_s(b, p) {
            Some((n, q)) => match parse_u64_list_s(b, q, (k - 1) as nat) {
                Some((rest, r)) => Some((seq![n] + rest, r)),
                None => None,
            },
            None => None,
        }
    }
}

/// Parses a count-prefixed identifier list.
pub open spec fn parse_vec_u64_s(b: Seq<u8>, p: int) -> Option<(Seq<u64>, int)> {
    match parse_u32_s(b, p) {
        Some((k, q)) => parse_u64_list_s(b, q, k as nat),
        None => None,
    }
}

/// Parsing right after writing `k` identifiers yields them back.
proof fn lemma_parse_u64_list(b: Seq<u8>, p: int, v: Seq<u64>)
    requires
        0 <= p,
        p + enc_u64_list(v).len() <= b.len(),
        b.subrange(p, p + enc_u64_list(v).len()) == enc_u64_list(v),
    ensures
        parse_u64_list_s(b, p, v.len()) == Some((v, p + enc_u64_list(v).len())),
    decreases v.len(),
{
    if v.len() == 0 {
    } else {
        lemma_split(b, p, be64(v[0]), enc_u64_list(v.drop_first()));
        lemma_parse_u64(b, p, v[0]);
        lemma_parse_u64_list(b, p + 8, v.drop_first());
        assert(seq![v[0]] + v.drop_first() =~= v);
    }
}

/// Parsing right after writing an identifier list yields it back.
pub proof fn lemma_parse_vec_u64(b: Seq<u8>, p: int, v: Seq<u64>)
    requires
        0 <= p,
        wf_vec_u64(v),
        p + enc_vec_u64(v).len() <= b.len(),
        b.subrange(p, p + enc_vec_u64(v).len()) == enc_vec_u64(v),
    ensures
        parse_vec_u64_s(b, p) == Some((v, p + enc_vec_u64(v).len())),
{
    lemma_split(b, p, be32(v.len() as u32), enc_u64_list(v));
    lemma_parse_u32(b, p, v.len() as u32);
    lemma_parse_u64_list(b, p + 4, v);
}

/// Appends an encoded identifier list; fails only on an over-long list.
fn write_vec_u64(out: &mut Vec<u8>, v: &Vec<u64>) -> (ok: bool)
    ensures
        ok ==> final(out)@ == old(out)@ + enc_vec_u64(v@) && wf_vec_u64(v@),
        !ok ==> final(out)@ == old(out)@ && !wf_vec_u64(v@),
{
    if v.len() > MAX_FRAME_SIZE {
        return false;
    }
    push_u32(out, v.len() as u32);
    proof {
        assert(out@ =~= old(out)@ + be32(v@.len() as u32) + enc_u64_list(v@.take(0)));
    }
    let mut i: usize = 0;
    while i < v.len()
        invariant
            i <= v@.len(),
            out@ == old(out)@ + be32(v@.len() as u32) + enc_u64_list(v@.take(i as int)),
        decreases v@.len() - i,
    {
        push_u64(out, v[i]);
        proof {
            lemma_enc_u64_list_push(v@.take(i as int), v@[i as int]);
            assert(v@.take(i as int).push(v@[i as int]) =~= v@.take(i + 1));
            assert(out@ =~= old(out)@ + be32(v@.len() as u32) + enc_u64_list(v@.take(i + 1)));
        }
        i = i + 1;
    }
    proof {
        assert(v@.take(v@.len() as int) =~= v@);
        assert(out@ =~= old(out)@ + enc_vec_u64(v@));
    }
    true
}

/// Reads a count-prefixed identifier list.
fn read_vec_u64(b: &Vec<u8>, p: usize) -> (r: Option<(Vec<u64>, usize)>)
    ensures
        r matches Some((v, q)) ==> parse_vec_u64_s(b@, p as int) == Some((v@, q as int)),
        r is None ==> parse_vec_u64_s(b@, p as int) is None,
{
    match read_u32(b, p) {
        Some((k32, q0)) => {
            let k = k32 as usize;
            let mut acc: Vec<u64> = Vec::new();
            let mut pos: usize = q0;
            let mut done: usize = 0;
            proof {
                match parse_u64_list_s(b@, q0 as int, k as nat) {
                    Some((rest, r2)) => {
                        assert(acc@ + rest =~= rest);
                    },
                    None => {},
                }
            }
            while done < k
                invariant
                    done <= k,
                    pos <= b@.len(),
                    k == k32 as usize,
                    parse_u32_s(b@, p as int) == Some((k32, q0 as int)),
                    ({
                        match parse_u64_list_s(b@, pos as int, (k - done) as nat) {
                            Some((rest, r2)) => parse_u64_list_s(b@, q0 as int, k as nat) == Some(
                                (acc@ + rest, r2),
                            ),
                            None => parse_u64_list_s(b@, q0 as int, k as nat) is None,
                        }
                    }),
                decreases k - done,
            {
                match read_u64(b, pos) {
                    Some((n, q)) => {
                        acc.push(n);
                        proof {
                            assert forall|rest: Seq<u64>|
                                acc@ + rest =~= acc@.drop_last() + (seq![n] + rest) by {
                                assert(acc@.drop_last() + (seq![n] + rest) =~= acc@ + rest);
                            }
                        }
                        pos = q;
                        done = done + 1;
                    },
                    None => {
                        proof {
                            assert(parse_u64_list_s(b@, pos as int, (k - done) as nat) is None);
                            assert(parse_u64_list_s(b@, q0 as int, k as nat) is None);
                        }
                        return None;
                    },
                }
            }
            proof {
                assert(acc@ + Seq::<u64>::empty() =~= acc@);
            }
            Some((acc, pos))
        },
        None => None,
    }
}

// ------------------------------------------------------------------
// Users and channels
// ------------------------------------------------------------------

/// A user on the wire: identifier, name, presence.
pub open spec fn enc_user(u: UserV) -> Seq<u8> {
    be64(u.id) + enc_str(u.username) + enc_status(u.status)
}

/// The user's name fits under the frame bound.
pub open spec fn wf_user(u: UserV) -> bool {
    wf_str(u.username)
}

/// Parses a user at position `p`.
pub open spec fn parse_user_s(b: Seq<u8>, p: int) -> Option<(UserV, int)> {
    match parse_u64_s(b, p) {
        Some((id, q1)) => match parse_str_s(b, q1) {
            Some((name, q2)) => match parse_status_s(b, q2) {
                Some((st, q3)) => Some((UserV { id, username: name, status: st }, q3)),
                None => None,
            },
            None => None,
        },
        None => None,
    }
}

/// Appends an encoded user; fails only on an over-long name.
fn write_user(out: &mut Vec<u8>, u: &User) -> (ok: bool)
    ensures
        ok ==> final(out)@ == old(out)@ + enc_user(u@) && wf_user(u@),
        !ok ==> !wf_user(u@),
{
    push_u64(out, u.id);
    if !write_str(out, &u.username) {
        return false;
    }
    write_status(out, u.status);
    proof {
        assert(out@ =~= old(out)@ + enc_user(u@));
    }
    true
}

/// Reads a user.
fn read_user(b: &Vec<u8>, p: usize) -> (r: Option<(User, usize)>)
    ensures
        r matches Some((u, q)) ==> parse_user_s(b@, p as int) == Some((u@, q as int)),
        r is None ==> parse_user_s(b@, p as int) is None,
{
    match read_u64(b, p) {
        Some((id, q1)) => match read_string(b, q1) {
            Some((name, q2)) => match read_status(b, q2) {
                Some((st, q3)) => Some((User { id, username: name, status: st }, q3)),
                None => None,
            },
            None => None,
        },
        None => None,
    }
}

/// Parsing right after writing a user yields the user back.
pub proof fn lemma_parse_user(b: Seq<u8>, p: int, u: UserV)
    requires
        0 <= p,
        wf_user(u),
        p + enc_user(u).len() <= b.len(),
        b.subrange(p, p + enc_user(u).len()) == enc_user(u),
    ensures
        parse_user_s(b, p) == Some((u, p + enc_user(u).len())),
{
    let e1 = be64(u.id);
    let e2 = enc_str(u.username);
    let e3 = enc_status(u.status);
    assert(enc_user(u) =~= e1 + (e2 + e3));
    lemma_split(b, p, e1, e2 + e3);
    lemma_parse_u64(b, p, u.id);
    lemma_split(b, p + 8, e2, e3);
    lemma_parse_str(b, p + 8, u.username);
    let q2 = p + 8 + e2.len();
    assert(b.subrange(q2, q2 + e3.len())[0] == b[q2]);
}

/// A channel on the wire: identifier, name, description, parent, members.
pub open spec fn enc_channel(c: ChannelV) -> Seq<u8> {
    be64(c.id) + enc_str(c.name) + enc_opt_str(c.description) + enc_opt_u64(c.parent_id)
        + enc_vec_u64(c.members)
}

/// The channel's strings and member list fit under the frame bound.
pub open spec fn wf_channel(c: ChannelV) -> bool {
    wf_str(c.name) && wf_opt_str(c.description) && wf_vec_u64(c.members)
}

/// Parses a channel at position `p`.
pub open spec fn parse_channel_s(b: Seq<u8>, p: int) -> Option<(ChannelV, int)> {
    match parse_u64_s(b, p) {
        Some((id, q1)) => match parse_str_s(b, q1) {
            Some((name, q2)) => match parse_opt_str_s(b, q2) {
                Some((descr, q3)) => match parse_opt_u64_s(b, q3) {
                    Some((parent, q4)) => match parse_vec_u64_s(b, q4) {
                        Some((members, q5)) => Some(
                            (
                                ChannelV {
                                    id,
                                    name,
                                    description: descr,
                                    parent_id: parent,
                                    members,
                                },
                                q5,
                            ),
                        ),
                        None => None,
                    },
                    None => None,
                },
                None => None,
            },
            None => None,
        },
        None => None,
    }
}

/// Appends an encoded channel; fails only when a part is over the frame
/// bound.
fn write_channel(out: &mut Vec<u8>, c: &Channel) -> (ok: bool)
    ensures
        ok ==> final(out)@ == old(out)@ + enc_channel(c@) && wf_channel(c@),
        !ok ==> !wf_channel(c@),
{
    push_u64(out, c.id);
    if !write_str(out, &c.name) {
        return false;
    }
    if !write_opt_str(out, &c.description) {
        return false;
    }
    write_opt_u64(out, &c.parent_id);
    if !write_vec_u64(out, &c.members) {
        return false;
    }
    proof {
        assert(out@ =~= old(out)@ + enc_channel(c@));
    }
    true
}

/// Reads a channel.
fn read_channel(b: &Vec<u8>, p: usize) -> (r: Option<(Channel, usize)>)
    ensures
        r matches Some((c, q)) ==> parse_channel_s(b@, p as int) == Some((c@, q as int)),
        r is None ==> parse_channel_s(b@, p as int) is None,
{
    match read_u64(b, p) {
        Some((id, q1)) => match read_string(b, q1) {
            Some((name, q2)) => match read_opt_string(b, q2) {
                Some((descr, q3)) => match read_opt_u64(b, q3) {
                    Some((parent, q4)) => match read_vec_u64(b, q4) {
                        Some((members, q5)) => Some(
                            (
                                Channel {
                                    id,
                                    name,
                                    description: descr,
                                    parent_id: parent,
                                    members,
                                },
                                q5,
                            ),
                        ),
                        None => None,
                    },
                    None => None,
                },
                None => None,
            },
            None => None,
        },
        None => None,
    }
}

/// Parsing right after writing a channel yields the channel back.
pub proof fn lemma_parse_channel(b: Seq<u8>, p: int, c: ChannelV)
    requires
        0 <= p,
        wf_channel(c),
        p + enc_channel(c).len() <= b.len(),
        b.subrange(p, p + enc_channel(c).len()) == enc_channel(c),
    ensures
        parse_channel_s(b, p) == Some((c, p + enc_channel(c).len())),
{
    let e1 = be64(c.id);
    let e2 = enc_str(c.name);
    let e3 = enc_opt_str(c.description);
    let e4 = enc_opt_u64(c.parent_id);
    let e5 = enc_vec_u64(c.members);
    assert(enc_channel(c) =~= e1 + (e2 + (e3 + (e4 + e5))));
    lemma_split(b, p, e1, e2 + (e3 + (e4 + e5)));
    lemma_parse_u64(b, p, c.id);
    let q1 = p + e1.len();
    lemma_split(b, q1, e2, e3 + (e4 + e5));
    lemma_parse_str(b, q1, c.name);
    let q2 = q1 + e2.len();
    lemma_split(b, q2, e3, e4 + e5);
    lemma_parse_opt_str(b, q2, c.description);
    let q3 = q2 + e3.len();
    lemma_split(b, q3, e4, e5);
    lemma_parse_opt_u64(b, q3, c.parent_id);
    let q4 = q3 + e4.len();
    lemma_parse_vec_u64(b, q4, c.members);
}

// ------------------------------------------------------------------
// Lists of users and channels
// ------------------------------------------------------------------

/// The back-to-back encodings of a list of users.
pub open spec fn enc_user_list(v: Seq<UserV>) -> Seq<u8>
    decreases v.len(),
{
    if v.len() == 0 {
        Seq::empty()
    } else {
        enc_user(v[0]) + enc_user_list(v.drop_first())
    }
}

/// A user list on the wire: a count prefix, then the users.
pub open spec fn enc_users(v: Seq<UserV>) -> Seq<u8> {
    be32(v.len() as u32) + enc_user_list(v)
}

/// Every user is well formed and the count fits under the frame bound.
pub open spec fn wf_users(v: Seq<UserV>) -> bool {
    v.len() <= MAX_FRAME_SIZE && (forall|i: int| 0 <= i < v.len() ==> wf_user(v[i]))
}

/// Appending one user extends the encoding at the end.
proof fn lemma_enc_user_list_push(v: Seq<UserV>, x: UserV)
    ensures
        enc_user_list(v.push(x)) == enc_user_list(v) + enc_user(x),
    decreases v.len(),
{
    if v.len() == 0 {
        reveal_with_fuel(enc_user_list, 3);
        assert(v.push(x)[0] == x);
        assert(v.push(x).drop_first() =~= Seq::<UserV>::empty());
        assert(enc_user_list(v.push(x)) =~= enc_user_list(v) + enc_user(x));
    } else {
        assert(v.push(x)[0] == v[0]);
        assert(v.push(x).drop_first() =~= v.drop_first().push(x));
        lemma_enc_user_list_push(v.drop_first(), x);
        assert(enc_user_list(v.push(x)) =~= enc_user_list(v) + enc_user(x));
    }
}

/// Parses exactly `k` users.
pub open spec fn parse_user_list_s(b: Seq<u8>, p: int, k: nat) -> Option<(Seq<UserV>, int)>
    decreases k,
{
    if k == 0 {
        Some((Seq::empty(), p))
    } else {
        match parse_user_s(b, p) {
            Some((u, q)) => match parse_user_list_s(b, q, (k - 1) as nat) {
                Some((rest, r)) => Some((seq![u] + rest, r)),
                None => None,
            },
            None => None,
        }
    }
}

/// Parses a count-prefixed user list.
pub open spec fn parse_users_s(b: Seq<u8>, p: int) -> Option<(Seq<UserV>, int)> {
    match parse_u32_s(b, p) {
        Some((k, q)) => parse_user_list_s(b, q, k as nat),
        None => None,
    }
}

/// Parsing right after writing `k` users yields them back.
proof fn lemma_parse_user_list(b: Seq<u8>, p: int, v: Seq<UserV>)
    requires
        0 <= p,
        forall|i: int| 0 <= i < v.len() ==> wf_user(v[i]),
        p + enc_user_list(v).len() <= b.len(),
        b.subrange(p, p + enc_user_list(v).len()) == enc_user_list(v),
    ensures
        parse_user_list_s(b, p, v.len()) == Some((v, p + enc_user_list(v).len())),
    decreases v.len(),
{
    if v.len() == 0 {
    } else {
        lemma_split(b, p, enc_user(v[0]), enc_user_list(v.drop_first()));
        lemma_parse_user(b, p, v[0]);
        assert(forall|i: int|
            0 <= i < v.drop_first().len() ==> wf_user(#[trigger] v.drop_first()[i]));
        lemma_parse_user_list(b, p + enc_user(v[0]).len(), v.drop_first());
        assert(seq![v[0]] + v.drop_first() =~= v);
    }
}

/// Parsing right after writing a user list yields it back.
pub proof fn lemma_parse_users(b: Seq<u8>, p: int, v: Seq<UserV>)
    requires
        0 <= p,
        wf_users(v),
        p + enc_users(v).len() <= b.len(),
        b.subrange(p, p + enc_users(v).len()) == enc_users(v),
    ensures
        parse_users_s(b, p) == Some((v, p + enc_users(v).len())),
{
    lemma_split(b, p, be32(v.len() as u32), enc_user_list(v));
    lemma_parse_u32(b, p, v.len() as u32);
    lemma_parse_user_list(b, p + 4, v);
}

/// Appends an encoded user list; fails only when a part is over the frame
/// bound.
fn write_users(out: &mut Vec<u8>, v: &Vec<User>) -> (ok: bool)
    ensures
        ok ==> final(out)@ == old(out)@ + enc_users(v@.map_values(|u: User| u@)) && wf_users(
            v@.map_values(|u: User| u@),
        ),
        !ok ==> !wf_users(v@.map_values(|u: User| u@)),
{
    let ghost vv = v@.map_values(|u: User| u@);
    if v.len() > MAX_FRAME_SIZE {
        return false;
    }
    push_u32(out, v.len() as u32);
    proof {
        assert(out@ =~= old(out)@ + be32(vv.len() as u32) + enc_user_list(vv.take(0)));
    }
    let mut i: usize = 0;
    while i < v.len()
        invariant
            i <= v@.len(),
            vv == v@.map_values(|u: User| u@),
            out@ == old(out)@ + be32(vv.len() as u32) + enc_user_list(vv.take(i as int)),
            forall|j: int| 0 <= j < i ==> wf_user(vv[j]),
        decreases v@.len() - i,
    {
        if !write_user(out, &v[i]) {
            return false;
        }
        proof {
            lemma_enc_user_list_push(vv.take(i as int), vv[i as int]);
            assert(vv.take(i as int).push(vv[i as int]) =~= vv.take(i + 1));
            assert(out@ =~= old(out)@ + be32(vv.len() as u32) + enc_user_list(vv.take(i + 1)));
        }
        i = i + 1;
    }
    proof {
        assert(vv.take(vv.len() as int) =~= vv);
        assert(out@ =~= old(out)@ + enc_users(vv));
    }
    true
}

/// Reads a count-prefixed user list.
fn read_users(b: &Vec<u8>, p: usize) -> (r: Option<(Vec<User>, usize)>)
    ensures
        r matches Some((v, q)) ==> parse_users_s(b@, p as int) == Some(
            (v@.map_values(|u: User| u@), q as int),
        ),
        r is None ==> parse_users_s(b@, p as int) is None,
{
    match read_u32(b, p) {
        Some((k32, q0)) => {
            let k = k32 as usize;
            let mut acc: Vec<User> = Vec::new();
            let mut pos: usize = q0;
            let mut done: usize = 0;
            proof {
                match parse_user_list_s(b@, q0 as int, k as nat) {
                    Some((rest, r2)) => {
                        assert(acc@.map_values(|u: User| u@) + rest =~= rest);
                    },
                    None => {},
                }
            }
            while done < k
                invariant
                    done <= k,
                    pos <= b@.len(),
                    k == k32 as usize,
                    parse_u32_s(b@, p as int) == Some((k32, q0 as int)),
                    ({
                        match parse_user_list_s(b@, pos as int, (k - done) as nat) {
                            Some((rest, r2)) => parse_user_list_s(b@, q0 as int, k as nat)
                                == Some((acc@.map_values(|u: User| u@) + rest, r2)),
                            None => parse_user_list_s(b@, q0 as int, k as nat) is None,
                        }
                    }),
                decreases k - done,
            {
                match read_user(b, pos) {
                    Some((u, q)) => {
                        let ghost uv = u@;
                        acc.push(u);
                        proof {
                            let m = acc@.map_values(|x: User| x@);
                            assert(m =~= m.drop_last().push(uv));
                            assert forall|rest: Seq<UserV>|
                                m + rest =~= m.drop_last() + (seq![uv] + rest) by {
                                assert(m.drop_last() + (seq![uv] + rest) =~= m + rest);
                            }
                        }
                        pos = q;
                        done = done + 1;
                    },
                    None => {
                        proof {
                            assert(parse_user_list_s(b@, pos as int, (k - done) as nat) is None);
                            assert(parse_user_list_s(b@, q0 as int, k as nat) is None);
                        }
                        return None;
                    },
                }
            }
            proof {
                assert(acc@.map_values(|u: User| u@) + Seq::<UserV>::empty() =~= acc@.map_values(
                    |u: User| u@,
                ));
            }
            Some((acc, pos))
        },
        None => None,
    }
}

/// The back-to-back encodings of a list of channels.
pub open spec fn enc_channel_list(v: Seq<ChannelV>) -> Seq<u8>
    decreases v.len(),
{
    if v.len() == 0 {
        Seq::empty()
    } else {
        enc_channel(v[0]) + enc_channel_list(v.drop_first())
    }
}

/// A channel list on the wire: a count prefix, then the channels.
pub open spec fn enc_channels(v: Seq<ChannelV>) -> Seq<u8> {
    be32(v.len() as u32) + enc_channel_list(v)
}

/// Every channel is well formed and the count fits under the frame bound.
pub open spec fn wf_channels(v: Seq<ChannelV>) -> bool {
    v.len() <= MAX_FRAME_SIZE && (forall|i: int| 0 <= i < v.len() ==> wf_channel(v[i]))
}

/// Appending one channel extends the encoding at the end.
proof fn lemma_enc_channel_list_push(v: Seq<ChannelV>, x: ChannelV)
    ensures
        enc_channel_list(v.push(x)) == enc_channel_list(v) + enc_channel(x),
    decreases v.len(),
{
    if v.len() == 0 {
        reveal_with_fuel(enc_channel_list, 3);
        assert(v.push(x)[0] == x);
        assert(v.push(x).drop_first() =~= Seq::<ChannelV>::empty());
        assert(enc_channel_list(v.push(x)) =~= enc_channel_list(v) + enc_channel(x));
    } else {
        assert(v.push(x)[0] == v[0]);
        assert(v.push(x).drop_first() =~= v.drop_first().push(x));
        lemma_enc_channel_list_push(v.drop_first(), x);
        assert(enc_channel_list(v.push(x)) =~= enc_channel_list(v) + enc_channel(x));
    }
}

/// Parses exactly `k` channels.
pub open spec fn parse_channel_list_s(b: Seq<u8>, p: int, k: nat) -> Option<(Seq<ChannelV>, int)>
    decreases k,
{
    if k == 0 {
        Some((Seq::empty(), p))
    } else {
        match parse_channel_s(b, p) {
            Some((c, q)) => match parse_channel_list_s(b, q, (k - 1) as nat) {
                Some((rest, r)) => Some((seq![c] + rest, r)),
                None => None,
            },
            None => None,
        }
    }
}

/// Parses a count-prefixed channel list.
pub open spec fn parse_channels_s(b: Seq<u8>, p: int) -> Option<(Seq<ChannelV>, int)> {
    match parse_u32_s(b, p) {
        Some((k, q)) => parse_channel_list_s(b, q, k as nat),
        None => None,
    }
}

/// Parsing right after writing `k` channels yields them back.
proof fn lemma_parse_channel_list(b: Seq<u8>, p: int, v: Seq<ChannelV>)
    requires
        0 <= p,
        forall|i: int| 0 <= i < v.len() ==> wf_channel(v[i]),
        p + enc_channel_list(v).len() <= b.len(),
        b.subrange(p, p + enc_channel_list(v).len()) == enc_channel_list(v),
    ensures
        parse_channel_list_s(b, p, v.len()) == Some((v, p + enc_channel_list(v).len())),
    decreases v.len(),
{
    if v.len() == 0 {
    } else {
        lemma_split(b, p, enc_channel(v[0]), enc_channel_list(v.drop_first()));
        lemma_parse_channel(b, p, v[0]);
        assert(forall|i: int|
            0 <= i < v.drop_first().len() ==> wf_channel(#[trigger] v.drop_first()[i]));
        lemma_parse_channel_list(b, p + enc_channel(v[0]).len(), v.drop_first());
        assert(seq![v[0]] + v.drop_first() =~= v);
    }
}

/// Parsing right after writing a channel list yields it back.
pub proof fn lemma_parse_channels(b: Seq<u8>, p: int, v: Seq<ChannelV>)
    requires
        0 <= p,
        wf_channels(v),
        p + enc_channels(v).len() <= b.len(),
        b.subrange(p, p + enc_channels(v).len()) == enc_channels(v),
    ensures
        parse_channels_s(b, p) == Some((v, p + enc_channels(v).len())),
{
    lemma_split(b, p, be32(v.len() as u32), enc_channel_list(v));
    lemma_parse_u32(b, p, v.len() as u32);
    lemma_parse_channel_list(b, p + 4, v);
}

/// Appends an encoded channel list; fails only when a part is over the
/// frame bound.
fn write_channels(out: &mut Vec<u8>, v: &Vec<Channel>) -> (ok: bool)
    ensures
        ok ==> final(out)@ == old(out)@ + enc_channels(v@.map_values(|c: Channel| c@))
            && wf_channels(v@.map_values(|c: Channel| c@)),
        !ok ==> !wf_channels(v@.map_values(|c: Channel| c@)),
{
    let ghost vv = v@.map_values(|c: Channel| c@);
    if v.len() > MAX_FRAME_SIZE {
        return false;
    }
    push_u32(out, v.len() as u32);
    proof {
        assert(out@ =~= old(out)@ + be32(vv.len() as u32) + enc_channel_list(vv.take(0)));
    }
    let mut i: usize = 0;
    while i < v.len()
        invariant
            i <= v@.len(),
            vv == v@.map_values(|c: Channel| c@),
            out@ == old(out)@ + be32(vv.len() as u32) + enc_channel_list(vv.take(i as int)),
            forall|j: int| 0 <= j < i ==> wf_channel(vv[j]),
        decreases v@.len() - i,
    {
        if !write_channel(out, &v[i]) {
            return false;
        }
        proof {
            lemma_enc_channel_list_push(vv.take(i as int), vv[i as int]);
            assert(vv.take(i as int).push(vv[i as int]) =~= vv.take(i + 1));
            assert(out@ =~= old(out)@ + be32(vv.len() as u32) + enc_channel_list(
                vv.take(i + 1),
            ));
        }
        i = i + 1;
    }
    proof {
        assert(vv.take(vv.len() as int) =~= vv);
        assert(out@ =~= old(out)@ + enc_channels(vv));
    }
    true
}

/// Reads a count-prefixed channel list.
fn read_channels(b: &Vec<u8>, p: usize) -> (r: Option<(Vec<Channel>, usize)>)
    ensures
        r matches Some((v, q)) ==> parse_channels_s(b@, p as int) == Some(
            (v@.map_values(|c: Channel| c@), q as int),
        ),
        r is None ==> parse_channels_s(b@, p as int) is None,
{
    match read_u32(b, p) {
        Some((k32, q0)) => {
            let k = k32 as usize;
            let mut acc: Vec<Channel> = Vec::new();
            let mut pos: usize = q0;
            let mut done: usize = 0;
            proof {
                match parse_channel_list_s(b@, q0 as int, k as nat) {
                    Some((rest, r2)) => {
                        assert(acc@.map_values(|c: Channel| c@) + rest =~= rest);
                    },
                    None => {},
                }
            }
            while done < k
                invariant
                    done <= k,
                    k == k32 as usize,
                    parse_u32_s(b@, p as int) == Some((k32, q0 as int)),
                    ({
                        match parse_channel_list_s(b@, pos as int, (k - done) as nat) {
                            Some((rest, r2)) => parse_channel_list_s(b@, q0 as int, k as nat)
                                == Some((acc@.map_values(|c: Channel| c@) + rest, r2)),
                            None => parse_channel_list_s(b@, q0 as int, k as nat) is None,
                        }
                    }),
                decreases k - done,
            {
                match read_channel(b, pos) {
                    Some((c, q)) => {
                        let ghost cv = c@;
                        acc.push(c);
                        proof {
                            let m = acc@.map_values(|x: Channel| x@);
                            assert(m =~= m.drop_last().push(cv));
                            assert forall|rest: Seq<ChannelV>|
                                m + rest =~= m.drop_last() + (seq![cv] + rest) by {
                                assert(m.drop_last() + (seq![cv] + rest) =~= m + rest);
                            }
                        }
                        pos = q;
                        done = done + 1;
                    },
                    None => {
                        proof {
                            assert(parse_channel_list_s(
                                b@,
                                pos as int,
                                (k - done) as nat,
                            ) is None);
                            assert(parse_channel_list_s(b@, q0 as int, k as nat) is None);
                        }
                        return None;
                    },
                }
            }
            proof {
                assert(acc@.map_values(|c: Channel| c@) + Seq::<ChannelV>::empty()
                    =~= acc@.map_values(|c: Channel| c@));
            }
            Some((acc, pos))
        },
        None => None,
    }
}

// ------------------------------------------------------------------
// The server snapshot
// ------------------------------------------------------------------

/// A server snapshot on the wire.
pub open spec fn enc_server(s: ServerV) -> Seq<u8> {
    be64(s.id) + enc_str(s.name) + enc_opt_str(s.description) + enc_channels(s.channels)
        + enc_users(s.users)
}

/// Every part of the snapshot fits under the frame bound.
pub open spec fn wf_server(s: ServerV) -> bool {
    wf_str(s.name) && wf_opt_str(s.description) && wf_channels(s.channels) && wf_users(s.users)
}

/// Parses a server snapshot at position `p`.
pub open spec fn parse_server_s(b: Seq<u8>, p: int) -> Option<(ServerV, int)> {
    match parse_u64_s(b, p) {
        Some((id, q1)) => match parse_str_s(b, q1) {
            Some((name, q2)) => match parse_opt_str_s(b, q2) {
                Some((descr, q3)) => match parse_channels_s(b, q3) {
                    Some((channels, q4)) => match parse_users_s(b, q4) {
                        Some((users, q5)) => Some(
                            (ServerV { id, name, description: descr, channels, users }, q5),
                        ),
                        None => None,
                    },
                    None => None,
                },
                None => None,
            },
            None => None,
        },
        None => None,
    }
}

/// Appends an encoded server snapshot; fails only when a part is over the
/// frame bound.
fn write_server(out: &mut Vec<u8>, s: &Server) -> (ok: bool)
    ensures
        ok ==> final(out)@ == old(out)@ + enc_server(s@) && wf_server(s@),
        !ok ==> !wf_server(s@),
{
    push_u64(out, s.id);
    if !write_str(out, &s.name) {
        return false;
    }
    if !write_opt_str(out, &s.description) {
        return false;
    }
    if !write_channels(out, &s.channels) {
        return false;
    }
    if !write_users(out, &s.users) {
        return false;
    }
    proof {
        assert(out@ =~= old(out)@ + enc_server(s@));
    }
    true
}

/// Reads a server snapshot.
fn read_server(b: &Vec<u8>, p: usize) -> (r: Option<(Server, usize)>)
    ensures
        r matches Some((s, q)) ==> parse_server_s(b@, p as int) == Some((s@, q as int)),
        r is None ==> parse_server_s(b@, p as int) is None,
{
    match read_u64(b, p) {
        Some((id, q1)) => match read_string(b, q1) {
            Some((name, q2)) => match read_opt_string(b, q2) {
                Some((descr, q3)) => match read_channels(b, q3) {
                    Some((channels, q4)) => match read_users(b, q4) {
                        Some((users, q5)) => Some(
                            (Server { id, name, description: descr, channels, users }, q5),
                        ),
                        None => None,
                    },
                    None => None,
                },
                None => None,
            },
            None => None,
        },
        None => None,
    }
}

/// Parsing right after writing a server snapshot yields it back.
#[verifier::rlimit(100)]
pub proof fn lemma_parse_server(b: Seq<u8>, p: int, s: ServerV)
    requires
        0 <= p,
        wf_server(s),
        p + enc_server(s).len() <= b.len(),
        b.subrange(p, p + enc_server(s).len()) == enc_server(s),
    ensures
        parse_server_s(b, p) == Some((s, p + enc_server(s).len())),
{
    let e1 = be64(s.id);
    let e2 = enc_str(s.name);
    let e3 = enc_opt_str(s.description);
    let e4 = enc_channels(s.channels);
    let e5 = enc_users(s.users);
    assert(enc_server(s) =~= e1 + (e2 + (e3 + (e4 + e5))));
    lemma_split(b, p, e1, e2 + (e3 + (e4 + e5)));
    lemma_parse_u64(b, p, s.id);
    let q1 = p + e1.len();
    lemma_split(b, q1, e2, e3 + (e4 + e5));
    lemma_parse_str(b, q1, s.name);
    let q2 = q1 + e2.len();
    lemma_split(b, q2, e3, e4 + e5);
    lemma_parse_opt_str(b, q2, s.description);
    let q3 = q2 + e3.len();
    lemma_split(b, q3, e4, e5);
    lemma_parse_channels(b, q3, s.channels);
    let q4 = q3 + e4.len();
    lemma_parse_users(b, q4, s.users);
}

// ------------------------------------------------------------------
// Whole messages
// ------------------------------------------------------------------

/// The payload encoding of one message: a one-byte variant tag, then the
/// fields in order.
pub open spec fn enc_msg(m: MessageV) -> Seq<u8> {
    match m {
        MessageV::LoginRequest { username, password } => seq![0u8] + enc_str(username) + enc_str(
            password,
        ),
        MessageV::LoginResponse { success, user_id, error } => seq![1u8] + enc_bool(success)
            + enc_opt_u64(user_id) + enc_opt_str(error),
        MessageV::StatusUpdate { user_id, status } => seq![2u8] + be64(user_id) + enc_status(
            status,
        ),
        MessageV::UserJoined { user } => seq![3u8] + enc_user(user),
        MessageV::UserLeft { user_id } => seq![4u8] + be64(user_id),
        MessageV::JoinChannel { channel_id } => seq![5u8] + be64(channel_id),
        MessageV::LeaveChannel { channel_id } => seq![6u8] + be64(channel_id),
        MessageV::ChannelUpdate { channel } => seq![7u8] + enc_channel(channel),
        MessageV::VoiceData { user_id, channel_id, data } => seq![8u8] + be64(user_id) + be64(
            channel_id,
        ) + enc_bytes(data),
        MessageV::VoiceStarted { user_id } => seq![9u8] + be64(user_id),
        MessageV::VoiceStopped { user_id } => seq![10u8] + be64(user_id),
        MessageV::VideoData { user_id, channel_id, data } => seq![11u8] + be64(user_id) + be64(
            channel_id,
        ) + enc_bytes(data),
        MessageV::VideoStarted { user_id } => seq![12u8] + be64(user_id),
        MessageV::VideoStopped { user_id } => seq![13u8] + be64(user_id),
        MessageV::ScreenShareData { user_id, channel_id, data } => seq![14u8] + be64(user_id)
            + be64(channel_id) + enc_bytes(data),
        MessageV::ScreenShareStarted { user_id } => seq![15u8] + be64(user_id),
        MessageV::ScreenShareStopped { user_id } => seq![16u8] + be64(user_id),
        MessageV::ServerInfo { server } => seq![17u8] + enc_server(server),
        MessageV::Ping => seq![18u8],
        MessageV::Pong => seq![19u8],
        MessageV::Error { code, message } => seq![20u8] + be32(code) + enc_str(message),
    }
}

/// Every variable-length part of the message fits under the frame bound, so
/// every inner length prefix is exact.
pub open spec fn wf_msg(m: MessageV) -> bool {
    match m {
        MessageV::LoginRequest { username, password } => wf_str(username) && wf_str(password),
        MessageV::LoginResponse { success, user_id, error } => wf_opt_str(error),
        MessageV::StatusUpdate { user_id, status } => true,
        MessageV::UserJoined { user } => wf_user(user),
        MessageV::UserLeft { user_id } => true,
        MessageV::JoinChannel { channel_id } => true,
        MessageV::LeaveChannel { channel_id } => true,
        MessageV::ChannelUpdate { channel } => wf_channel(channel),
        MessageV::VoiceData { user_id, channel_id, data } => wf_bytes(data),
        MessageV::VoiceStarted { user_id } => true,
        MessageV::VoiceStopped { user_id } => true,
        MessageV::VideoData { user_id, channel_id, data } => wf_bytes(data),
        MessageV::VideoStarted { user_id } => true,
        MessageV::VideoStopped { user_id } => true,
        MessageV::ScreenShareData { user_id, channel_id, data } => wf_bytes(data),
        MessageV::ScreenShareStarted { user_id } => true,
        MessageV::ScreenShareStopped { user_id } => true,
        MessageV::ServerInfo { server } => wf_server(server),
        MessageV::Ping => true,
        MessageV::Pong => true,
        MessageV::Error { code, message } => wf_str(message),
    }
}

/// What one payload holds: a known message, an unknown-but-framed message
/// kind (ignored for forward compatibility), or garbage.
pub ghost enum PayloadV {
    Msg(MessageV),
    Unknown,
    Bad,
}

/// Parses one whole payload. A tag above the known range is `Unknown`, as is
/// an empty payload; a known tag whose fields do not parse, or parse short
/// of the payload's end, is `Bad`.
pub open spec fn parse_msg_s(b: Seq<u8>) -> PayloadV {
    if b.len() == 0 {
        PayloadV::Unknown
    } else {
        let tag = b[0];
        if tag == 0 {
            match parse_str_s(b, 1) {
                Some((username, q1)) => match parse_str_s(b, q1) {
                    Some((password, q2)) => if q2 == b.len() {
                        PayloadV::Msg(MessageV::LoginRequest { username, password })
                    } else {
                        PayloadV::Bad
                    },
                    None => PayloadV::Bad,
                },
                None => PayloadV::Bad,
            }
        } else if tag == 1 {
            match parse_bool_s(b, 1) {
                Some((success, q1)) => match parse_opt_u64_s(b, q1) {
                    Some((user_id, q2)) => match parse_opt_str_s(b, q2) {
                        Some((error, q3)) => if q3 == b.len() {
                            PayloadV::Msg(MessageV::LoginResponse { success, user_id, error })
                        } else {
                            PayloadV::Bad
                        },
                        None => PayloadV::Bad,
                    },
                    None => PayloadV::Bad,
                },
                None => PayloadV::Bad,
            }
        } else if tag == 2 {
            match parse_u64_s(b, 1) {
                Some((user_id, q1)) => match parse_status_s(b, q1) {
                    Some((status, q2)) => if q2 == b.len() {
                        PayloadV::Msg(MessageV::StatusUpdate { user_id, status })
                    } else {
                        PayloadV::Bad
                    },
                    None => PayloadV::Bad,
                },
                None => PayloadV::Bad,
            }
        } else if tag == 3 {
            match parse_user_s(b, 1) {
                Some((user, q1)) => if q1 == b.len() {
                    PayloadV::Msg(MessageV::UserJoined { user })
                } else {
                    PayloadV::Bad
                },
                None => PayloadV::Bad,
            }
        } else if tag == 4 {
            match parse_u64_s(b, 1) {
                Some((user_id, q1)) => if q1 == b.len() {
                    PayloadV::Msg(MessageV::UserLeft { user_id })
                } else {
                    PayloadV::Bad
                },
                None => PayloadV::Bad,
            }
        } else if tag == 5 {
            match parse_u64_s(b, 1) {
                Some((channel_id, q1)) => if q1 == b.len() {
                    PayloadV::Msg(MessageV::JoinChannel { channel_id })
                } else {
                    PayloadV::Bad
                },
                None => PayloadV::Bad,
            }
        } else if tag == 6 {
            match parse_u64_s(b, 1) {
                Some((channel_id, q1)) => if q1 == b.len() {
                    PayloadV::Msg(MessageV::LeaveChannel { channel_id })
                } else {
                    PayloadV::Bad
                },
                None => PayloadV::Bad,
            }
        } else if tag == 7 {
            match parse_channel_s(b, 1) {
                Some((channel, q1)) => if q1 == b.len() {
                    PayloadV::Msg(MessageV::ChannelUpdate { channel })
                } else {
                    PayloadV::Bad
                },
                None => PayloadV::Bad,
            }
        } else if tag == 8 || tag == 11 || tag == 14 {
            match parse_u64_s(b, 1) {
                Some((user_id, q1)) => match parse_u64_s(b, q1) {
                    Some((channel_id, q2)) => match parse_bytes_s(b, q2) {
                        Some((data, q3)) => if q3 == b.len() {
                            if tag == 8 {
                                PayloadV::Msg(MessageV::VoiceData { user_id, channel_id, data })
                            } else if tag == 11 {
                                PayloadV::Msg(MessageV::VideoData { user_id, channel_id, data })
                            } else {
                                PayloadV::Msg(
                                    MessageV::ScreenShareData { user_id, channel_id, data },
                                )
                            }
                        } else {
                            PayloadV::Bad
                        },
                        None => PayloadV::Bad,
                    },
                    None => PayloadV::Bad,
                },
                None => PayloadV::Bad,
            }
        } else if tag == 9 || tag == 10 || tag == 12 || tag == 13 || tag == 15 || tag == 16 {
            match parse_u64_s(b, 1) {
                Some((user_id, q1)) => if q1 == b.len() {
                    if tag == 9 {
                        PayloadV::Msg(MessageV::VoiceStarted { user_id })
                    } else if tag == 10 {
                        PayloadV::Msg(MessageV::VoiceStopped { user_id })
                    } else if tag == 12 {
                        PayloadV::Msg(MessageV::VideoStarted { user_id })
                    } else if tag == 13 {
                        PayloadV::Msg(MessageV::VideoStopped { user_id })
                    } else if tag == 15 {
                        PayloadV::Msg(MessageV::ScreenShareStarted { user_id })
                    } else {
                        PayloadV::Msg(MessageV::ScreenShareStopped { user_id })
                    }
                } else {
                    PayloadV::Bad
                },
                None => PayloadV::Bad,
            }
        } else if tag == 17 {
            match parse_server_s(b, 1) {
                Some((server, q1)) => if q1 == b.len() {
                    PayloadV::Msg(MessageV::ServerInfo { server })
                } else {
                    PayloadV::Bad
                },
                None => PayloadV::Bad,
            }
        } else if tag == 18 {
            if b.len() == 1 {
                PayloadV::Msg(MessageV::Ping)
            } else {
                PayloadV::Bad
            }
        } else if tag == 19 {
            if b.len() == 1 {
                PayloadV::Msg(MessageV::Pong)
            } else {
                PayloadV::Bad
            }
        } else if tag == 20 {
            match parse_u32_s(b, 1) {
                Some((code, q1)) => match parse_str_s(b, q1) {
                    Some((message, q2)) => if q2 == b.len() {
                        PayloadV::Msg(MessageV::Error { code, message })
                    } else {
                        PayloadV::Bad
                    },
                    None => PayloadV::Bad,
                },
                None => PayloadV::Bad,
            }
        } else {
            PayloadV::Unknown
        }
    }
}

/// The exec result of parsing one payload.
enum Parsed {
    Msg(Message),
    Unknown,
    Bad,
}

/// Parses one whole payload buffer.
#[verifier::rlimit(100)]
fn parse_message(b: &Vec<u8>) -> (r: Parsed)
    ensures
        r matches Parsed::Msg(m) ==> parse_msg_s(b@) == PayloadV::Msg(m@),
        r is Unknown ==> parse_msg_s(b@) is Unknown,
        r is Bad ==> parse_msg_s(b@) is Bad,
{
    if b.len() == 0 {
        return Parsed::Unknown;
    }
    let tag = b[0];
    if tag == 0 {
        match read_string(b, 1) {
            Some((username, q1)) => match read_string(b, q1) {
                Some((password, q2)) => if q2 == b.len() {
                    Parsed::Msg(Message::LoginRequest { username, password })
                } else {
                    Parsed::Bad
                },
                None => Parsed::Bad,
            },
            None => Parsed::Bad,
        }
    } else if tag == 1 {
        match read_bool(b, 1) {
            Some((success, q1)) => match read_opt_u64(b, q1) {
                Some((user_id, q2)) => match read_opt_string(b, q2) {
                    Some((error, q3)) => if q3 == b.len() {
                        Parsed::Msg(Message::LoginResponse { success, user_id, error })
                    } else {
                        Parsed::Bad
                    },
                    None => Parsed::Bad,
                },
                None => Parsed::Bad,
            },
            None => Parsed::Bad,
        }
    } else if tag == 2 {
        match read_u64(b, 1) {
            Some((user_id, q1)) => match read_status(b, q1) {
                Some((status, q2)) => if q2 == b.len() {
                    Parsed::Msg(Message::StatusUpdate { user_id, status })
                } else {
                    Parsed::Bad
                },
                None => Parsed::Bad,
            },
            None => Parsed::Bad,
        }
    } else if tag == 3 {
        match read_user(b, 1) {
            Some((user, q1)) => if q1 == b.len() {
                Parsed::Msg(Message::UserJoined { user })
            } else {
                Parsed::Bad
            },
            None => Parsed::Bad,
        }
    } else if tag == 4 || tag == 5 || tag == 6 || tag == 9 || tag == 10 || tag == 12 || tag == 13
        || tag == 15 || tag == 16 {
        match read_u64(b, 1) {
            Some((id, q1)) => if q1 == b.len() {
                if tag == 4 {
                    Parsed::Msg(Message::UserLeft { user_id: id })
                } else if tag == 5 {
                    Parsed::Msg(Message::JoinChannel { channel_id: id })
                } else if tag == 6 {
                    Parsed::Msg(Message::LeaveChannel { channel_id: id })
                } else if tag == 9 {
                    Parsed::Msg(Message::VoiceStarted { user_id: id })
                } else if tag == 10 {
                    Parsed::Msg(Message::VoiceStopped { user_id: id })
                } else if tag == 12 {
                    Parsed::Msg(Message::VideoStarted { user_id: id })
                } else if tag == 13 {
                    Parsed::Msg(Message::VideoStopped { user_id: id })
                } else if tag == 15 {
                    Parsed::Msg(Message::ScreenShareStarted { user_id: id })
                } else {
                    Parsed::Msg(Message::ScreenShareStopped { user_id: id })
                }
            } else {
                Parsed::Bad
            },
            None => Parsed::Bad,
        }
    } else if tag == 7 {
        match read_channel(b, 1) {
            Some((channel, q1)) => if q1 == b.len() {
                Parsed::Msg(Message::ChannelUpdate { channel })
            } else {
                Parsed::Bad
            },
            None => Parsed::Bad,
        }
    } else if tag == 8 || tag == 11 || tag == 14 {
        match read_u64(b, 1) {
            Some((user_id, q1)) => match read_u64(b, q1) {
                Some((channel_id, q2)) => match read_bytes(b, q2) {
                    Some((data, q3)) => if q3 == b.len() {
                        if tag == 8 {
                            Parsed::Msg(Message::VoiceData { user_id, channel_id, data })
                        } else if tag == 11 {
                            Parsed::Msg(Message::VideoData { user_id, channel_id, data })
                        } else {
                            Parsed::Msg(Message::ScreenShareData { user_id, channel_id, data })
                        }
                    } else {
                        Parsed::Bad
                    },
                    None => Parsed::Bad,
                },
                None => Parsed::Bad,
            },
            None => Parsed::Bad,
        }
    } else if tag == 17 {
        match read_server(b, 1) {
            Some((server, q1)) => if q1 == b.len() {
                Parsed::Msg(Message::ServerInfo { server })
            } else {
                Parsed::Bad
            },
            None => Parsed::Bad,
        }
    } else if tag == 18 {
        if b.len() == 1 {
            Parsed::Msg(Message::Ping)
        } else {
            Parsed::Bad
        }
    } else if tag == 19 {
        if b.len() == 1 {
            Parsed::Msg(Message::Pong)
        } else {
            Parsed::Bad
        }
    } else if tag == 20 {
        match read_u32(b, 1) {
            Some((code, q1)) => match read_string(b, q1) {
                Some((message, q2)) => if q2 == b.len() {
                    Parsed::Msg(Message::Error { code, message })
                } else {
                    Parsed::Bad
                },
                None => Parsed::Bad,
            },
            None => Parsed::Bad,
        }
    } else {
        Parsed::Unknown
    }
}

// ------------------------------------------------------------------
// Frames
// ------------------------------------------------------------------

/// One whole frame: the payload's length in big-endian, then the payload.
pub open spec fn frame_bytes(m: MessageV) -> Seq<u8> {
    be32(enc_msg(m).len() as u32) + enc_msg(m)
}

/// The message can be framed at all: every part is well formed and the
/// whole payload fits under the frame bound.
pub open spec fn frame_ok(m: MessageV) -> bool {
    wf_msg(m) && enc_msg(m).len() <= MAX_FRAME_SIZE
}

/// What the decoder reports for a buffer: a decoded frame and its total
/// size, an ignored (unknown or empty) frame and its size, a request for
/// more bytes, or a malformed frame.
pub ghost enum DecodedV {
    Frame(MessageV, int),
    Ignored(int),
    NeedMoreData,
    Malformed,
}

/// The exec decoder's report.
#[derive(Debug)]
pub enum Decoded {
    Frame(Message, usize),
    Ignored(usize),
    NeedMoreData,
    MalformedFrame,
}

impl View for Decoded {
    type V = DecodedV;

    open spec fn view(&self) -> DecodedV {
        match self {
            Decoded::Frame(m, n) => DecodedV::Frame(m@, *n as int),
            Decoded::Ignored(n) => DecodedV::Ignored(*n as int),
            Decoded::NeedMoreData => DecodedV::NeedMoreData,
            Decoded::MalformedFrame => DecodedV::Malformed,
        }
    }
}

/// What decoding a buffer yields. The decoder reads only the first frame;
/// a buffer shorter than that frame yields `NeedMoreData`.
pub open spec fn spec_decode(b: Seq<u8>) -> DecodedV {
    if b.len() < 4 {
        DecodedV::NeedMoreData
    } else {
        let n = be32_val(b[0], b[1], b[2], b[3]) as int;
        if n > MAX_FRAME_SIZE as int {
            DecodedV::Malformed
        } else if b.len() < 4 + n {
            DecodedV::NeedMoreData
        } else {
            match parse_msg_s(b.subrange(4, 4 + n)) {
                PayloadV::Msg(m) => DecodedV::Frame(m, 4 + n),
                PayloadV::Unknown => DecodedV::Ignored(4 + n),
                PayloadV::Bad => DecodedV::Malformed,
            }
        }
    }
}

/// Encodes one message as one frame. Returns `None` exactly when the
/// message cannot be framed: some part of it is over the frame bound.
pub fn encode(m: &Message) -> (r: Option<Vec<u8>>)
    ensures
        r matches Some(v) ==> frame_ok(m@) && v@ == frame_bytes(m@),
        r is None ==> !frame_ok(m@),
{
    let payload = match encode_payload(m) {
        Some(p) => p,
        None => {
            return None;
        },
    };
    if payload.len() > MAX_FRAME_SIZE {
        return None;
    }
    let mut out: Vec<u8> = Vec::new();
    push_u32(&mut out, payload.len() as u32);
    append_bytes(&mut out, &payload);
    Some(out)
}

/// Builds the payload of one message; `None` exactly when a part of the
/// message is over the frame bound.
#[verifier::rlimit(100)]
fn encode_payload(m: &Message) -> (r: Option<Vec<u8>>)
    ensures
        r matches Some(v) ==> v@ == enc_msg(m@) && wf_msg(m@),
        r is None ==> !wf_msg(m@),
{
    let mut out: Vec<u8> = Vec::new();
    match m {
        Message::LoginRequest { username, password } => {
            out.push(0u8);
            if !write_str(&mut out, username) {
                return None;
            }
            if !write_str(&mut out, password) {
                return None;
            }
            proof {
                assert(out@ =~= enc_msg(m@));
            }
            Some(out)
        },
        Message::LoginResponse { success, user_id, error } => {
            out.push(1u8);
            out.push(if *success {
                1u8
            } else {
                0u8
            });
            write_opt_u64(&mut out, user_id);
            if !write_opt_str(&mut out, error) {
                return None;
            }
            proof {
                assert(out@ =~= enc_msg(m@));
            }
            Some(out)
        },
        Message::StatusUpdate { user_id, status } => {
            out.push(2u8);
            push_u64(&mut out, *user_id);
            write_status(&mut out, *status);
            proof {
                assert(out@ =~= enc_msg(m@));
            }
            Some(out)
        },
        Message::UserJoined { user } => {
            out.push(3u8);
            if !write_user(&mut out, user) {
                return None;
            }
            proof {
                assert(out@ =~= enc_msg(m@));
            }
            Some(out)
        },
        Message::UserLeft { user_id } => {
            out.push(4u8);
            push_u64(&mut out, *user_id);
            proof {
                assert(out@ =~= enc_msg(m@));
            }
            Some(out)
        },
        Message::JoinChannel { channel_id } => {
            out.push(5u8);
            push_u64(&mut out, *channel_id);
            proof {
                assert(out@ =~= enc_msg(m@));
            }
            Some(out)
        },
        Message::LeaveChannel { channel_id } => {
            out.push(6u8);
            push_u64(&mut out, *channel_id);
            proof {
                assert(out@ =~= enc_msg(m@));
            }
            Some(out)
        },
        Message::ChannelUpdate { channel } => {
            out.push(7u8);
            if !write_channel(&mut out, channel) {
                return None;
            }
            proof {
                assert(out@ =~= enc_msg(m@));
            }
            Some(out)
        },
        Message::VoiceData { user_id, channel_id, data } => {
            out.push(8u8);
            push_u64(&mut out, *user_id);
            push_u64(&mut out, *channel_id);
            if !write_bytes(&mut out, data) {
                return None;
            }
            proof {
                assert(out@ =~= enc_msg(m@));
            }
            Some(out)
        },
        Message::VoiceStarted { user_id } => {
            out.push(9u8);
            push_u64(&mut out, *user_id);
            proof {
                assert(out@ =~= enc_msg(m@));
            }
            Some(out)
        },
        Message::VoiceStopped { user_id } => {
            out.push(10u8);
            push_u64(&mut out, *user_id);
            proof {
                assert(out@ =~= enc_msg(m@));
            }
            Some(out)
        },
        Message::VideoData { user_id, channel_id, data } => {
            out.push(11u8);
            push_u64(&mut out, *user_id);
            push_u64(&mut out, *channel_id);
            if !write_bytes(&mut out, data) {
                return None;
            }
            proof {
                assert(out@ =~= enc_msg(m@));
            }
            Some(out)
        },
        Message::VideoStarted { user_id } => {
            out.push(12u8);
            push_u64(&mut out, *user_id);
            proof {
                assert(out@ =~= enc_msg(m@));
            }
            Some(out)
        },
        Message::VideoStopped { user_id } => {
            out.push(13u8);
            push_u64(&mut out, *user_id);
            proof {
                assert(out@ =~= enc_msg(m@));
            }
            Some(out)
        },
        Message::ScreenShareData { user_id, channel_id, data } => {
            out.push(14u8);
            push_u64(&mut out, *user_id);
            push_u64(&mut out, *channel_id);
            if !write_bytes(&mut out, data) {
                return None;
            }
            proof {
                assert(out@ =~= enc_msg(m@));
            }
            Some(out)
        },
        Message::ScreenShareStarted { user_id } => {
            out.push(15u8);
            push_u64(&mut out, *user_id);
            proof {
                assert(out@ =~= enc_msg(m@));
            }
            Some(out)
        },
        Message::ScreenShareStopped { user_id } => {
            out.push(16u8);
            push_u64(&mut out, *user_id);
            proof {
                assert(out@ =~= enc_msg(m@));
            }
            Some(out)
        },
        Message::ServerInfo { server } => {
            out.push(17u8);
            if !write_server(&mut out, server) {
                return None;
            }
            proof {
                assert(out@ =~= enc_msg(m@));
            }
            Some(out)
        },
        Message::Ping => {
            out.push(18u8);
            proof {
                assert(out@ =~= enc_msg(m@));
            }
            Some(out)
        },
        Message::Pong => {
            out.push(19u8);
            proof {
                assert(out@ =~= enc_msg(m@));
            }
            Some(out)
        },
        Message::Error { code, message } => {
            out.push(20u8);
            push_u32(&mut out, *code);
            if !write_str(&mut out, message) {
                return None;
            }
            proof {
                assert(out@ =~= enc_msg(m@));
            }
            Some(out)
        },
    }
}

/// Decodes the first frame of a receive buffer. Pull-based: never needs
/// more than what is buffered, and never looks past the first frame.
pub fn decode(buf: &Vec<u8>) -> (r: Decoded)
    ensures
        r@ == spec_decode(buf@),
{
    match read_u32(buf, 0) {
        Some((n32, _q)) => {
            let n = n32 as usize;
            if n > MAX_FRAME_SIZE {
                Decoded::MalformedFrame
            } else if buf.len() - 4 < n {
                Decoded::NeedMoreData
            } else {
                let payload = copy_range(buf, 4, 4 + n);
                match parse_message(&payload) {
                    Parsed::Msg(m) => Decoded::Frame(m, 4 + n),
                    Parsed::Unknown => Decoded::Ignored(4 + n),
                    Parsed::Bad => Decoded::MalformedFrame,
                }
            }
        },
        None => Decoded::NeedMoreData,
    }
}

/// Helper: a payload that is a tag byte and one identifier parses to that
/// tag's fields.
proof fn lemma_parse_msg_uid(b: Seq<u8>, tag: u8, id: u64)
    requires
        b == seq![tag] + be64(id),
    ensures
        b[0] == tag,
        parse_u64_s(b, 1) == Some((id, 9int)),
        b.len() == 9,
{
    assert(b.subrange(0, b.len() as int) =~= b);
    lemma_split(b, 0, seq![tag], be64(id));
    assert(b.subrange(0, 1)[0] == b[0]);
    lemma_parse_u64(b, 1, id);
}

/// Helper: a payload that is a tag byte, two identifiers and a blob parses
/// to those fields.
proof fn lemma_parse_msg_data(b: Seq<u8>, tag: u8, user_id: u64, channel_id: u64, data: Seq<u8>)
    requires
        wf_bytes(data),
        b == seq![tag] + be64(user_id) + be64(channel_id) + enc_bytes(data),
    ensures
        b[0] == tag,
        parse_u64_s(b, 1) == Some((user_id, 9int)),
        parse_u64_s(b, 9) == Some((channel_id, 17int)),
        parse_bytes_s(b, 17) == Some((data, b.len() as int)),
{
    let e1 = be64(user_id);
    let e2 = be64(channel_id);
    let e3 = enc_bytes(data);
    assert(b =~= seq![tag] + (e1 + (e2 + e3)));
    assert(b.subrange(0, b.len() as int) =~= b);
    lemma_split(b, 0, seq![tag], e1 + (e2 + e3));
    assert(b.subrange(0, 1)[0] == b[0]);
    lemma_split(b, 1, e1, e2 + e3);
    lemma_parse_u64(b, 1, user_id);
    lemma_split(b, 9, e2, e3);
    lemma_parse_u64(b, 9, channel_id);
    lemma_parse_bytes(b, 17, data);
}

/// Helper: a payload that is a tag byte and one field encoding parses as
/// the tag, then the field, with nothing trailing.
proof fn lemma_parse_msg_one(b: Seq<u8>, tag: u8, e1: Seq<u8>)
    requires
        b == seq![tag] + e1,
    ensures
        b[0] == tag,
        b.len() == 1 + e1.len(),
        b.subrange(1, 1 + e1.len() as int) == e1,
{
    assert(b.subrange(0, b.len() as int) =~= b);
    lemma_split(b, 0, seq![tag], e1);
    assert(b.subrange(0, 1)[0] == b[0]);
}

/// Helper: a payload that is a tag byte and two field encodings parses as
/// the tag, then the fields, with nothing trailing.
proof fn lemma_parse_msg_two(b: Seq<u8>, tag: u8, e1: Seq<u8>, e2: Seq<u8>)
    requires
        b == seq![tag] + e1 + e2,
    ensures
        b[0] == tag,
        b.len() == 1 + e1.len() + e2.len(),
        b.subrange(1, 1 + e1.len() as int) == e1,
        b.subrange(1 + e1.len() as int, 1 + e1.len() + e2.len() as int) == e2,
{
    assert(b =~= seq![tag] + (e1 + e2));
    assert(b.subrange(0, b.len() as int) =~= b);
    lemma_split(b, 0, seq![tag], e1 + e2);
    assert(b.subrange(0, 1)[0] == b[0]);
    lemma_split(b, 1, e1, e2);
}

/// Helper: a payload that is a tag byte and three field encodings parses as
/// the tag, then the fields, with nothing trailing.
proof fn lemma_parse_msg_three(b: Seq<u8>, tag: u8, e1: Seq<u8>, e2: Seq<u8>, e3: Seq<u8>)
    requires
        b == seq![tag] + e1 + e2 + e3,
    ensures
        b[0] == tag,
        b.len() == 1 + e1.len() + e2.len() + e3.len(),
        b.subrange(1, 1 + e1.len() as int) == e1,
        b.subrange(1 + e1.len() as int, 1 + e1.len() + e2.len() as int) == e2,
        b.subrange(1 + e1.len() as int + e2.len() as int, 1 + e1.len() as int + e2.len() as int + e3.len() as int) == e3,
{
    assert(b =~= seq![tag] + (e1 + (e2 + e3)));
    assert(b.subrange(0, b.len() as int) =~= b);
    lemma_split(b, 0, seq![tag], e1 + (e2 + e3));
    assert(b.subrange(0, 1)[0] == b[0]);
    lemma_split(b, 1, e1, e2 + e3);
    lemma_split(b, 1 + e1.len() as int, e2, e3);
}

/// Parsing the payload of a well-formed login request yields it back.
#[verifier::rlimit(100)]
proof fn lemma_pm_login_request(username: Seq<char>, password: Seq<char>)
    requires
        wf_str(username),
        wf_str(password),
    ensures
        parse_msg_s(enc_msg(MessageV::LoginRequest { username, password })) == PayloadV::Msg(
            MessageV::LoginRequest { username, password },
        ),
{
    let m = MessageV::LoginRequest { username, password };
    let b = enc_msg(m);
    lemma_parse_msg_two(b, 0, enc_str(username), enc_str(password));
    lemma_parse_str(b, 1, username);
    lemma_parse_str(b, 1 + enc_str(username).len() as int, password);
}

/// Parsing the payload of a well-formed login response yields it back.
#[verifier::rlimit(100)]
proof fn lemma_pm_login_response(success: bool, user_id: Option<u64>, error: Option<Seq<char>>)
    requires
        wf_opt_str(error),
    ensures
        parse_msg_s(enc_msg(MessageV::LoginResponse { success, user_id, error }))
            == PayloadV::Msg(MessageV::LoginResponse { success, user_id, error }),
{
    let m = MessageV::LoginResponse { success, user_id, error };
    let b = enc_msg(m);
    lemma_parse_msg_three(b, 1, enc_bool(success), enc_opt_u64(user_id), enc_opt_str(error));
    assert(b.subrange(1, 2)[0] == b[1]);
    lemma_parse_opt_u64(b, 2, user_id);
    lemma_parse_opt_str(b, 2 + enc_opt_u64(user_id).len() as int, error);
}

/// Parsing the payload of a status update yields it back.
#[verifier::rlimit(100)]
proof fn lemma_pm_status_update(user_id: u64, status: UserStatus)
    ensures
        parse_msg_s(enc_msg(MessageV::StatusUpdate { user_id, status })) == PayloadV::Msg(
            MessageV::StatusUpdate { user_id, status },
        ),
{
    let m = MessageV::StatusUpdate { user_id, status };
    let b = enc_msg(m);
    lemma_parse_msg_two(b, 2, be64(user_id), enc_status(status));
    lemma_parse_u64(b, 1, user_id);
    assert(b.subrange(9, 10)[0] == b[9]);
}

/// Parsing the payload of a well-formed member announcement yields it back.
#[verifier::rlimit(100)]
proof fn lemma_pm_user_joined(user: UserV)
    requires
        wf_user(user),
    ensures
        parse_msg_s(enc_msg(MessageV::UserJoined { user })) == PayloadV::Msg(
            MessageV::UserJoined { user },
        ),
{
    let m = MessageV::UserJoined { user };
    let b = enc_msg(m);
    lemma_parse_msg_one(b, 3, enc_user(user));
    lemma_parse_user(b, 1, user);
}

/// Parsing the payload of a well-formed channel update yields it back.
#[verifier::rlimit(100)]
proof fn lemma_pm_channel_update(channel: ChannelV)
    requires
        wf_channel(channel),
    ensures
        parse_msg_s(enc_msg(MessageV::ChannelUpdate { channel })) == PayloadV::Msg(
            MessageV::ChannelUpdate { channel },
        ),
{
    let m = MessageV::ChannelUpdate { channel };
    let b = enc_msg(m);
    lemma_parse_msg_one(b, 7, enc_channel(channel));
    lemma_parse_channel(b, 1, channel);
}

/// Parsing the payload of a well-formed server snapshot yields it back.
#[verifier::rlimit(100)]
proof fn lemma_pm_server_info(server: ServerV)
    requires
        wf_server(server),
    ensures
        parse_msg_s(enc_msg(MessageV::ServerInfo { server })) == PayloadV::Msg(
            MessageV::ServerInfo { server },
        ),
{
    let m = MessageV::ServerInfo { server };
    let b = enc_msg(m);
    lemma_parse_msg_one(b, 17, enc_server(server));
    lemma_parse_server(b, 1, server);
}

/// Parsing the payload of a well-formed error report yields it back.
#[verifier::rlimit(100)]
proof fn lemma_pm_error(code: u32, message: Seq<char>)
    requires
        wf_str(message),
    ensures
        parse_msg_s(enc_msg(MessageV::Error { code, message })) == PayloadV::Msg(
            MessageV::Error { code, message },
        ),
{
    let m = MessageV::Error { code, message };
    let b = enc_msg(m);
    lemma_parse_msg_two(b, 20, be32(code), enc_str(message));
    lemma_parse_u32(b, 1, code);
    lemma_parse_str(b, 5, message);
}

/// Parsing the payload of any well-formed message yields that message.
#[verifier::rlimit(60)]
pub proof fn lemma_parse_msg(m: MessageV)
    requires
        wf_msg(m),
    ensures
        parse_msg_s(enc_msg(m)) == PayloadV::Msg(m),
{
    let b = enc_msg(m);
    match m {
        MessageV::LoginRequest { username, password } => {
            lemma_pm_login_request(username, password);
        },
        MessageV::LoginResponse { success, user_id, error } => {
            lemma_pm_login_response(success, user_id, error);
        },
        MessageV::StatusUpdate { user_id, status } => {
            lemma_pm_status_update(user_id, status);
        },
        MessageV::UserJoined { user } => {
            lemma_pm_user_joined(user);
        },
        MessageV::UserLeft { user_id } => {
            lemma_parse_msg_uid(b, 4, user_id);
        },
        MessageV::JoinChannel { channel_id } => {
            lemma_parse_msg_uid(b, 5, channel_id);
        },
        MessageV::LeaveChannel { channel_id } => {
            lemma_parse_msg_uid(b, 6, channel_id);
        },
        MessageV::ChannelUpdate { channel } => {
            lemma_pm_channel_update(channel);
        },
        MessageV::VoiceData { user_id, channel_id, data } => {
            lemma_parse_msg_data(b, 8, user_id, channel_id, data);
        },
        MessageV::VoiceStarted { user_id } => {
            lemma_parse_msg_uid(b, 9, user_id);
        },
        MessageV::VoiceStopped { user_id } => {
            lemma_parse_msg_uid(b, 10, user_id);
        },
        MessageV::VideoData { user_id, channel_id, data } => {
            lemma_parse_msg_data(b, 11, user_id, channel_id, data);
        },
        MessageV::VideoStarted { user_id } => {
            lemma_parse_msg_uid(b, 12, user_id);
        },
        MessageV::VideoStopped { user_id } => {
            lemma_parse_msg_uid(b, 13, user_id);
        },
        MessageV::ScreenShareData { user_id, channel_id, data } => {
            lemma_parse_msg_data(b, 14, user_id, channel_id, data);
        },
        MessageV::ScreenShareStarted { user_id } => {
            lemma_parse_msg_uid(b, 15, user_id);
        },
        MessageV::ScreenShareStopped { user_id } => {
            lemma_parse_msg_uid(b, 16, user_id);
        },
        MessageV::ServerInfo { server } => {
            lemma_pm_server_info(server);
        },
        MessageV::Ping => {
            assert(b =~= seq![18u8]);
        },
        MessageV::Pong => {
            assert(b =~= seq![19u8]);
        },
        MessageV::Error { code, message } => {
            lemma_pm_error(code, message);
        },
    }
}


/// Law: decoding the frame of a well-formed message yields exactly that
/// message and consumes exactly the frame.
pub proof fn lemma_round_trip(m: MessageV)
    requires
        frame_ok(m),
    ensures
        spec_decode(frame_bytes(m)) == DecodedV::Frame(m, frame_bytes(m).len() as int),
{
    let payload = enc_msg(m);
    let b = frame_bytes(m);
    assert(b.subrange(0, b.len() as int) =~= b);
    lemma_split(b, 0, be32(payload.len() as u32), payload);
    lemma_parse_u32(b, 0, payload.len() as u32);
    lemma_parse_msg(m);
}

/// Law: any strict prefix of a frame decodes to `NeedMoreData`; the decoder
/// waits for the rest rather than misreading a partial frame.
pub proof fn lemma_partial_frame(m: MessageV, i: int)
    requires
        frame_ok(m),
        0 <= i < frame_bytes(m).len(),
    ensures
        spec_decode(frame_bytes(m).take(i)) == DecodedV::NeedMoreData,
{
    let b = frame_bytes(m);
    let t = b.take(i);
    if i >= 4 {
        let payload = enc_msg(m);
        assert(b.subrange(0, b.len() as int) =~= b);
        lemma_split(b, 0, be32(payload.len() as u32), payload);
        lemma_parse_u32(b, 0, payload.len() as u32);
        assert(t[0] == b[0] && t[1] == b[1] && t[2] == b[2] && t[3] == b[3]);
        assert(be32_val(t[0], t[1], t[2], t[3]) == payload.len() as u32);
    }
}

/// Drops the first `n` bytes of a receive buffer, after a frame of `n`
/// bytes was decoded out of it.
pub fn drop_prefix(buf: &mut Vec<u8>, n: usize)
    requires
        n <= old(buf)@.len(),
    ensures
        final(buf)@ == old(buf)@.skip(n as int),
{
    let len = buf.len();
    let rest = copy_range(buf, n, len);
    proof {
        assert(buf@.subrange(n as int, buf@.len() as int) =~= buf@.skip(n as int));
    }
    *buf = rest;
}

} // verus!
