use vstd::prelude::*;

use vstd::utf8::*;

use crate::dict::{entries_insert_all, keys_distinct, Dict, Entry};
use crate::errors::Error;
use crate::protocol::{
    EncapsulationView, Encapsulation, Header, HeaderView, Identity, IdentityView, ReplyData,
    ReplyView, RequestData, RequestView,
};
use crate::text::string_from_utf8;

verus! {

/// What decoding a byte buffer yields, as a mathematical value.
///
/// `Done(v, n)` adds `n` to the caller's read counter; `Fail(e)` is the error the
/// decoder reports; `Stuck` marks the inputs on which decoding is not defined
/// (an index out of range, or a read counter that leaves `i32`), which every
/// decoder excludes through its precondition.
pub enum Outcome<V> {
    Done(V, int),
    Fail(Error),
    Stuck,
}

/// Relates an executable decoding result to its mathematical outcome.
pub open spec fn reports<T: DeepView>(
    o: Outcome<T::V>,
    r: Result<T, Error>,
    before: i32,
    after: i32,
) -> bool {
    match o {
        Outcome::Done(v, n) => r matches Ok(x) && x.deep_view() == v && after == before + n,
        Outcome::Fail(e) => r == Err::<T, Error>(e) && after == before,
        Outcome::Stuck => true,
    }
}

// ---------------------------------------------------------------------
// little-endian fixed-width integers

/// The little-endian bytes of a 16-bit integer.
pub open spec fn le_i16(n: i16) -> Seq<u8> {
    let u = n as u16;
    seq![u as u8, (u >> 8u16) as u8]
}

/// The 16-bit integer whose little-endian bytes these are.
pub open spec fn i16_of_le(b0: u8, b1: u8) -> i16 {
    ((b0 as u16) | ((b1 as u16) << 8u16)) as i16
}

/// The little-endian bytes of a 32-bit integer.
pub open spec fn le_i32(n: i32) -> Seq<u8> {
    let u = n as u32;
    seq![u as u8, (u >> 8u32) as u8, (u >> 16u32) as u8, (u >> 24u32) as u8]
}

/// The 32-bit integer whose little-endian bytes these are.
pub open spec fn i32_of_le(b0: u8, b1: u8, b2: u8, b3: u8) -> i32 {
    ((b0 as u32) | ((b1 as u32) << 8u32) | ((b2 as u32) << 16u32) | ((b3 as u32) << 24u32)) as i32
}

/// The little-endian bytes of a 64-bit integer.
pub open spec fn le_i64(n: i64) -> Seq<u8> {
    let u = n as u64;
    seq![
        u as u8,
        (u >> 8u64) as u8,
        (u >> 16u64) as u8,
        (u >> 24u64) as u8,
        (u >> 32u64) as u8,
        (u >> 40u64) as u8,
        (u >> 48u64) as u8,
        (u >> 56u64) as u8,
    ]
}

/// The 64-bit integer whose little-endian bytes are the first eight of `b`.
pub open spec fn i64_of_le(b: Seq<u8>) -> i64 {
    ((b[0] as u64) | ((b[1] as u64) << 8u64) | ((b[2] as u64) << 16u64) | ((b[3] as u64) << 24u64)
        | ((b[4] as u64) << 32u64) | ((b[5] as u64) << 40u64) | ((b[6] as u64) << 48u64) | ((b[7]
        as u64) << 56u64)) as i64
}

/// A 16-bit integer is read back from its two bytes.
pub proof fn lemma_le_i16_roundtrip(n: i16)
    ensures
        le_i16(n).len() == 2,
        i16_of_le(le_i16(n)[0], le_i16(n)[1]) == n,
{
    let u = n as u16;
    assert((((u as u8) as u16) | ((((u >> 8u16) as u8) as u16) << 8u16)) as i16 == n) by (bit_vector)
        requires
            u == n as u16,
    ;
}

/// A 32-bit integer is read back from its four bytes.
pub proof fn lemma_le_i32_roundtrip(n: i32)
    ensures
        le_i32(n).len() == 4,
        i32_of_le(le_i32(n)[0], le_i32(n)[1], le_i32(n)[2], le_i32(n)[3]) == n,
{
    let u = n as u32;
    assert((((u as u8) as u32) | ((((u >> 8u32) as u8) as u32) << 8u32) | ((((u >> 16u32) as u8)
        as u32) << 16u32) | ((((u >> 24u32) as u8) as u32) << 24u32)) as i32 == n) by (bit_vector)
        requires
            u == n as u32,
    ;
}

/// A 64-bit integer is read back from its eight bytes.
pub proof fn lemma_le_i64_roundtrip(n: i64)
    ensures
        le_i64(n).len() == 8,
        i64_of_le(le_i64(n)) == n,
{
    let u = n as u64;
    let b = le_i64(n);
    assert((((u as u8) as u64) | ((((u >> 8u64) as u8) as u64) << 8u64) | ((((u >> 16u64) as u8)
        as u64) << 16u64) | ((((u >> 24u64) as u8) as u64) << 24u64) | ((((u >> 32u64) as u8)
        as u64) << 32u64) | ((((u >> 40u64) as u8) as u64) << 40u64) | ((((u >> 48u64) as u8)
        as u64) << 48u64) | ((((u >> 56u64) as u8) as u64) << 56u64)) as i64 == n) by (bit_vector)
        requires
            u == n as u64,
    ;
}

/// The little-endian bytes of a 16-bit integer.
pub fn encode_short(n: i16) -> (bytes: Vec<u8>)
    ensures
        bytes@ == le_i16(n),
{
    let u = n as u16;
    let v = vec![u as u8, (u >> 8u16) as u8];
    assert(v@ =~= le_i16(n));
    v
}

/// The little-endian bytes of a 32-bit integer.
pub fn encode_int(n: i32) -> (bytes: Vec<u8>)
    ensures
        bytes@ == le_i32(n),
{
    let u = n as u32;
    let v = vec![u as u8, (u >> 8u32) as u8, (u >> 16u32) as u8, (u >> 24u32) as u8];
    assert(v@ =~= le_i32(n));
    v
}

/// The little-endian bytes of a 64-bit integer.
pub fn encode_long(n: i64) -> (bytes: Vec<u8>)
    ensures
        bytes@ == le_i64(n),
{
    let u = n as u64;
    let v = vec![
        u as u8,
        (u >> 8u64) as u8,
        (u >> 16u64) as u8,
        (u >> 24u64) as u8,
        (u >> 32u64) as u8,
        (u >> 40u64) as u8,
        (u >> 48u64) as u8,
        (u >> 56u64) as u8,
    ];
    assert(v@ =~= le_i64(n));
    v
}


/// What reading a byte from `b` yields.
pub open spec fn byte_outcome(b: Seq<u8>, at: i32) -> Outcome<u8> {
    if b.len() == 0 || at + 1 > i32::MAX {
        Outcome::Stuck
    } else {
        Outcome::Done(b[0], 1)
    }
}

/// What reading a 16-bit integer from `b` yields: too few bytes cannot be decoded.
pub open spec fn short_outcome(b: Seq<u8>, at: i32) -> Outcome<i16> {
    if b.len() < 2 {
        Outcome::Fail(Error::CannotDeserialize)
    } else if at + 2 > i32::MAX {
        Outcome::Stuck
    } else {
        Outcome::Done(i16_of_le(b[0], b[1]), 2)
    }
}

/// What reading a 32-bit integer from `b` yields: too few bytes cannot be decoded.
pub open spec fn int_outcome(b: Seq<u8>, at: i32) -> Outcome<i32> {
    if b.len() < 4 {
        Outcome::Fail(Error::CannotDeserialize)
    } else if at + 4 > i32::MAX {
        Outcome::Stuck
    } else {
        Outcome::Done(i32_of_le(b[0], b[1], b[2], b[3]), 4)
    }
}

/// What reading a 64-bit integer from `b` yields: too few bytes cannot be decoded.
pub open spec fn long_outcome(b: Seq<u8>, at: i32) -> Outcome<i64> {
    if b.len() < 8 {
        Outcome::Fail(Error::CannotDeserialize)
    } else if at + 8 > i32::MAX {
        Outcome::Stuck
    } else {
        Outcome::Done(i64_of_le(b), 8)
    }
}

/// The wire form of a boolean: one byte, 1 for `true` and 0 for `false`.
pub open spec fn bool_bytes(b: bool) -> Seq<u8> {
    seq![if b { 1u8 } else { 0u8 }]
}

/// What reading a boolean from `b` yields: any non-zero byte is `true`.
pub open spec fn bool_outcome(b: Seq<u8>, at: i32) -> Outcome<bool> {
    if b.len() < 1 {
        Outcome::Fail(Error::CannotDeserialize)
    } else if at + 1 > i32::MAX {
        Outcome::Stuck
    } else {
        Outcome::Done(b[0] != 0, 1)
    }
}

/// Reads one byte.
pub fn decode_byte(bytes: &[u8], read_bytes: &mut i32) -> (r: Result<u8, Error>)
    requires
        !(byte_outcome(bytes@, *old(read_bytes)) is Stuck),
    ensures
        reports(byte_outcome(bytes@, *old(read_bytes)), r, *old(read_bytes), *final(read_bytes)),
{
    *read_bytes = *read_bytes + 1;
    Ok(bytes[0])
}

/// Reads a little-endian 16-bit integer.
pub fn decode_short(bytes: &[u8], read_bytes: &mut i32) -> (r: Result<i16, Error>)
    requires
        !(short_outcome(bytes@, *old(read_bytes)) is Stuck),
    ensures
        reports(short_outcome(bytes@, *old(read_bytes)), r, *old(read_bytes), *final(read_bytes)),
{
    if bytes.len() < 2 {
        return Err(Error::CannotDeserialize);
    }
    *read_bytes = *read_bytes + 2;
    Ok(((bytes[0] as u16) | ((bytes[1] as u16) << 8u16)) as i16)
}

/// Reads a little-endian 32-bit integer.
pub fn decode_int(bytes: &[u8], read_bytes: &mut i32) -> (r: Result<i32, Error>)
    requires
        !(int_outcome(bytes@, *old(read_bytes)) is Stuck),
    ensures
        reports(int_outcome(bytes@, *old(read_bytes)), r, *old(read_bytes), *final(read_bytes)),
{
    if bytes.len() < 4 {
        return Err(Error::CannotDeserialize);
    }
    *read_bytes = *read_bytes + 4;
    Ok(((bytes[0] as u32) | ((bytes[1] as u32) << 8u32) | ((bytes[2] as u32) << 16u32) | ((
    bytes[3] as u32) << 24u32)) as i32)
}

/// Reads a little-endian 64-bit integer.
pub fn decode_long(bytes: &[u8], read_bytes: &mut i32) -> (r: Result<i64, Error>)
    requires
        !(long_outcome(bytes@, *old(read_bytes)) is Stuck),
    ensures
        reports(long_outcome(bytes@, *old(read_bytes)), r, *old(read_bytes), *final(read_bytes)),
{
    if bytes.len() < 8 {
        return Err(Error::CannotDeserialize);
    }
    *read_bytes = *read_bytes + 8;
    Ok(((bytes[0] as u64) | ((bytes[1] as u64) << 8u64) | ((bytes[2] as u64) << 16u64) | ((
    bytes[3] as u64) << 24u64) | ((bytes[4] as u64) << 32u64) | ((bytes[5] as u64) << 40u64) | ((
    bytes[6] as u64) << 48u64) | ((bytes[7] as u64) << 56u64)) as i64)
}

/// The single byte that encodes a boolean.
pub fn encode_bool(b: bool) -> (bytes: Vec<u8>)
    ensures
        bytes@ == bool_bytes(b),
{
    let v = vec![if b { 1u8 } else { 0u8 }];
    assert(v@ =~= bool_bytes(b));
    v
}

/// Reads a boolean: any non-zero byte is `true`.
pub fn decode_bool(bytes: &[u8], read_bytes: &mut i32) -> (r: Result<bool, Error>)
    requires
        !(bool_outcome(bytes@, *old(read_bytes)) is Stuck),
    ensures
        reports(bool_outcome(bytes@, *old(read_bytes)), r, *old(read_bytes), *final(read_bytes)),
{
    if bytes.len() < 1 {
        return Err(Error::CannotDeserialize);
    }
    *read_bytes = *read_bytes + 1;
    Ok(bytes[0] != 0)
}


// ---------------------------------------------------------------------
// sizes

/// The wire form of a size: one byte below 255, else the marker 255 and four bytes.
pub open spec fn size_bytes(size: i32) -> Seq<u8> {
    if size < 255 {
        seq![size as u8]
    } else {
        seq![255u8] + le_i32(size)
    }
}

/// What reading a size from `b` yields; a marker with fewer than four bytes after
/// it reads as zero and consumes nothing.
pub open spec fn size_outcome(b: Seq<u8>, at: i32) -> Outcome<i32> {
    if b.len() == 0 {
        Outcome::Stuck
    } else if b[0] == 255 {
        if b.len() < 5 {
            Outcome::Done(0, 0)
        } else if at + 5 > i32::MAX {
            Outcome::Stuck
        } else {
            Outcome::Done(i32_of_le(b[1], b[2], b[3], b[4]), 5)
        }
    } else if at + 1 > i32::MAX {
        Outcome::Stuck
    } else {
        Outcome::Done(b[0] as i32, 1)
    }
}

/// Encodes a size.
pub fn encode_size(size: i32) -> (bytes: Vec<u8>)
    ensures
        bytes@ == size_bytes(size),
{
    if size < 255 {
        let v = vec![size as u8];
        assert(v@ =~= size_bytes(size));
        v
    } else {
        let mut bytes = vec![255u8];
        let tail = encode_int(size);
        append_bytes(&mut bytes, tail.as_slice());
        assert(bytes@ =~= size_bytes(size));
        bytes
    }
}

/// Reads a size, adding the bytes it consumed to `read_bytes`.
pub fn decode_size(bytes: &[u8], read_bytes: &mut i32) -> (size: i32)
    requires
        !(size_outcome(bytes@, *old(read_bytes)) is Stuck),
    ensures
        size_outcome(bytes@, *old(read_bytes)) matches Outcome::Done(v, n) && size == v
            && *final(read_bytes) == *old(read_bytes) + n,
{
    if bytes[0] == 255 {
        if bytes.len() < 5 {
            0
        } else {
            match decode_int(&bytes[1..5], read_bytes) {
                Ok(size) => {
                    *read_bytes = *read_bytes + 1;
                    size
                },
                _ => 0,
            }
        }
    } else {
        if bytes.len() < 1 {
            0
        } else {
            *read_bytes = *read_bytes + 1;
            bytes[0] as i32
        }
    }
}

/// Appends `src` to `dst`.
pub fn append_bytes(dst: &mut Vec<u8>, src: &[u8])
    ensures
        final(dst)@ == old(dst)@ + src@,
{
    let ghost start = dst@;
    let mut i: usize = 0;
    while i < src.len()
        invariant
            0 <= i <= src@.len(),
            dst@ == start + src@.subrange(0, i as int),
        decreases src@.len() - i,
    {
        dst.push(src[i]);
        i = i + 1;
        assert(dst@ =~= start + src@.subrange(0, i as int));
    }
    assert(src@.subrange(0, src@.len() as int) =~= src@);
}


// ---------------------------------------------------------------------
// strings

/// The wire form of a string: its UTF-8 length as a size, then its UTF-8 bytes.
pub open spec fn string_bytes(s: Seq<char>) -> Seq<u8> {
    size_bytes(encode_utf8(s).len() as i32) + encode_utf8(s)
}

/// What reading a string from `b` yields.
pub open spec fn string_outcome(b: Seq<u8>, at: i32) -> Outcome<Seq<char>> {
    match size_outcome(b, 0) {
        Outcome::Done(n, r) => {
            if n < 0 || r + n > b.len() {
                Outcome::Stuck
            } else if !valid_utf8(b.subrange(r, r + n)) {
                Outcome::Fail(Error::CannotDeserialize)
            } else if at + r + n > i32::MAX {
                Outcome::Stuck
            } else {
                Outcome::Done(decode_utf8(b.subrange(r, r + n)), r + n)
            }
        },
        _ => Outcome::Stuck,
    }
}

/// Encodes a string.
pub fn encode_string(s: &str) -> (bytes: Vec<u8>)
    ensures
        bytes@ == string_bytes(s@),
{
    let b = s.as_bytes();
    let mut bytes = encode_size(#[verifier::truncate] (b.len() as i32));
    append_bytes(&mut bytes, b);
    bytes
}

/// Reads a string.
pub fn decode_string(bytes: &[u8], read_bytes: &mut i32) -> (r: Result<String, Error>)
    requires
        !(string_outcome(bytes@, *old(read_bytes)) is Stuck),
    ensures
        reports(string_outcome(bytes@, *old(read_bytes)), r, *old(read_bytes), *final(read_bytes)),
{
    let mut read: i32 = 0;
    let size = decode_size(bytes, &mut read);
    let start = read as usize;
    let end = start + size as usize;
    let payload = vstd::slice::slice_to_vec(&bytes[start..end]);
    match string_from_utf8(payload) {
        Some(s) => {
            *read_bytes = *read_bytes + read + size;
            Ok(s)
        },
        None => Err(Error::CannotDeserialize),
    }
}


// ---------------------------------------------------------------------
// decoding bytes that a peer sent

/// The outcome of a decoder that reports, instead of going out of range, that the
/// bytes cannot be decoded.
pub open spec fn checked<V>(o: Outcome<V>) -> Outcome<V> {
    match o {
        Outcome::Stuck => Outcome::Fail(Error::CannotDeserialize),
        other => other,
    }
}

/// Reads a string from bytes of any shape: where `decode_string` would index out of
/// range or overflow the counter, this reports `CannotDeserialize`.
pub fn decode_string_checked(bytes: &[u8], read_bytes: &mut i32) -> (r: Result<String, Error>)
    ensures
        reports(
            checked(string_outcome(bytes@, *old(read_bytes))),
            r,
            *old(read_bytes),
            *final(read_bytes),
        ),
{
    if bytes.len() == 0 {
        return Err(Error::CannotDeserialize);
    }
    let mut read: i32 = 0;
    let size = decode_size(bytes, &mut read);
    if size < 0 || (read as u64) + (size as u64) > bytes.len() as u64 || (*read_bytes as i64) + (
    read as i64) + (size as i64) > i32::MAX as i64 {
        return Err(Error::CannotDeserialize);
    }
    decode_string(bytes, read_bytes)
}

/// Reads a sequence of strings from bytes of any shape, reporting `CannotDeserialize`
/// where `decode_string_seq` would index out of range or overflow the counter.
pub fn decode_string_seq_checked(bytes: &[u8], read_bytes: &mut i32) -> (r: Result<
    Vec<String>,
    Error,
>)
    ensures
        reports(
            checked(string_seq_outcome(bytes@, *old(read_bytes))),
            r,
            *old(read_bytes),
            *final(read_bytes),
        ),
{
    if bytes.len() == 0 {
        return Err(Error::CannotDeserialize);
    }
    let ghost b = bytes@;
    let mut read: i32 = 0;
    let size = decode_size(bytes, &mut read);
    let ghost r0 = read as int;
    let ghost count = item_count(size);
    let mut string_seq: Vec<String> = Vec::new();
    let mut i: i32 = 0;
    proof {
        assert(string_seq.deep_view() =~= Seq::<Seq<char>>::empty());
    }
    while i < size
        invariant
            b == bytes@,
            0 <= r0 <= 5,
            r0 <= b.len(),
            count == item_count(size),
            size_outcome(b, 0) == Outcome::Done(size, r0),
            size >= 0 ==> count == size,
            size < 0 ==> count == 0,
            0 <= i,
            size > 0 ==> i <= size,
            size <= 0 ==> i == 0,
            strings_outcome(b, r0, i as nat) == Outcome::Done(string_seq.deep_view(), read as int),
            0 <= read <= b.len(),
        decreases size - i,
    {
        let ghost before = read;
        proof {
            lemma_strings_position(b, r0, (i + 1) as nat);
            lemma_strings_no_recovery(b, r0, (i + 1) as nat, count);
        }
        let rest = &bytes[read as usize..bytes.len()];
        assert(rest@ =~= b.subrange(before as int, b.len() as int));
        match decode_string_checked(rest, &mut read) {
            Ok(s) => {
                string_seq.push(s);
                proof {
                    assert(string_seq.deep_view() =~= strings_outcome(
                        b,
                        r0,
                        i as nat,
                    )->Done_0.push(s@));
                }
            },
            Err(e) => {
                return Err(e);
            },
        }
        i = i + 1;
        proof {
            lemma_strings_position(b, r0, i as nat);
        }
    }
    proof {
        if size > 0 {
            assert(i == size);
        }
        assert(i as nat == count);
    }
    if (*read_bytes as i64) + (read as i64) > i32::MAX as i64 {
        return Err(Error::CannotDeserialize);
    }
    *read_bytes = *read_bytes + read;
    Ok(string_seq)
}

// ---------------------------------------------------------------------
// laws of the primitive codecs

/// Reading a non-negative size back from its encoding, whatever follows it, gives the
/// size and consumes exactly its encoding.
pub proof fn lemma_size_roundtrip(n: i32, rest: Seq<u8>, at: i32)
    requires
        0 <= n,
        at + size_bytes(n).len() <= i32::MAX,
    ensures
        size_outcome(size_bytes(n) + rest, at) == Outcome::Done(n, size_bytes(n).len() as int),
        size_bytes(n).len() == (if n < 255 { 1int } else { 5int }),
{
    let b = size_bytes(n) + rest;
    if n < 255 {
        assert(b[0] == n as u8);
    } else {
        lemma_le_i32_roundtrip(n);
        assert(b[0] == 255u8);
        assert(b[1] == le_i32(n)[0]);
        assert(b[2] == le_i32(n)[1]);
        assert(b[3] == le_i32(n)[2]);
        assert(b[4] == le_i32(n)[3]);
    }
}

/// Reading a string back from its encoding, whatever follows it, gives the string and
/// consumes exactly its encoding.
pub proof fn lemma_string_roundtrip(s: Seq<char>, rest: Seq<u8>, at: i32)
    requires
        encode_utf8(s).len() <= i32::MAX,
        at + string_bytes(s).len() <= i32::MAX,
    ensures
        string_outcome(string_bytes(s) + rest, at) == Outcome::Done(s, string_bytes(s).len() as int),
{
    broadcast use group_utf8_lib;

    let u = encode_utf8(s);
    let n = u.len() as i32;
    let b = string_bytes(s) + rest;
    let pre = size_bytes(n);
    lemma_size_roundtrip(n, u + rest, 0);
    assert(b =~= pre + (u + rest));
    let r = pre.len() as int;
    assert(b.subrange(r, r + n) =~= u);
}


// ---------------------------------------------------------------------
// string sequences

/// The encodings of the strings of `v`, one after another.
pub open spec fn strings_bytes(v: Seq<Seq<char>>) -> Seq<u8>
    decreases v.len(),
{
    if v.len() == 0 {
        Seq::empty()
    } else {
        strings_bytes(v.drop_last()) + string_bytes(v.last())
    }
}

/// The wire form of a sequence of strings: its length as a size, then each string.
pub open spec fn string_seq_bytes(v: Seq<Seq<char>>) -> Seq<u8> {
    size_bytes(v.len() as i32) + strings_bytes(v)
}

/// Reads `count` strings one after another from position `start` of `b`; `Done`
/// carries the position reached.
pub open spec fn strings_outcome(b: Seq<u8>, start: int, count: nat) -> Outcome<Seq<Seq<char>>>
    decreases count,
{
    if count == 0 {
        Outcome::Done(Seq::empty(), start)
    } else {
        match strings_outcome(b, start, (count - 1) as nat) {
            Outcome::Done(v, p) => match string_outcome(b.subrange(p, b.len() as int), p as i32) {
                Outcome::Done(x, c) => Outcome::Done(v.push(x), p + c),
                Outcome::Fail(e) => Outcome::Fail(e),
                Outcome::Stuck => Outcome::Stuck,
            },
            other => other,
        }
    }
}

/// The number of items a decoded size announces; a negative size announces none.
pub open spec fn item_count(n: i32) -> nat {
    if n < 0 {
        0
    } else {
        n as nat
    }
}

/// What reading a sequence of strings from `b` yields.
pub open spec fn string_seq_outcome(b: Seq<u8>, at: i32) -> Outcome<Seq<Seq<char>>> {
    match size_outcome(b, 0) {
        Outcome::Done(n, r) => match strings_outcome(b, r, item_count(n)) {
            Outcome::Done(v, p) => if at + p > i32::MAX {
                Outcome::Stuck
            } else {
                Outcome::Done(v, p)
            },
            other => other,
        },
        _ => Outcome::Stuck,
    }
}

/// Positions reached while reading strings stay within the buffer and the `i32` counter.
pub proof fn lemma_strings_position(b: Seq<u8>, start: int, count: nat)
    requires
        0 <= start <= b.len(),
        start <= i32::MAX,
    ensures
        strings_outcome(b, start, count) matches Outcome::Done(v, p) ==> start <= p <= b.len()
            && p <= i32::MAX && v.len() == count,
    decreases count,
{
    if count > 0 {
        lemma_strings_position(b, start, (count - 1) as nat);
    }
}

/// Once reading strings fails or is stuck, reading more strings does not recover.
pub proof fn lemma_strings_no_recovery(b: Seq<u8>, start: int, i: nat, count: nat)
    requires
        i <= count,
    ensures
        !(strings_outcome(b, start, i) is Done) ==> strings_outcome(b, start, count)
            == strings_outcome(b, start, i),
    decreases count,
{
    if i < count {
        lemma_strings_no_recovery(b, start, i, (count - 1) as nat);
    }
}

/// Encodes a sequence of strings.
pub fn encode_string_seq(seq: &Vec<String>) -> (bytes: Vec<u8>)
    ensures
        bytes@ == string_seq_bytes(seq.deep_view()),
{
    let ghost v = seq.deep_view();
    let mut bytes = encode_size(#[verifier::truncate] (seq.len() as i32));
    let ghost head = bytes@;
    let mut i: usize = 0;
    while i < seq.len()
        invariant
            0 <= i <= seq@.len(),
            v == seq.deep_view(),
            v.len() == seq@.len(),
            head == size_bytes(v.len() as i32),
            bytes@ == head + strings_bytes(v.take(i as int)),
        decreases seq@.len() - i,
    {
        let item = encode_string(seq[i].as_str());
        append_bytes(&mut bytes, item.as_slice());
        proof {
            assert(v.take(i + 1).drop_last() =~= v.take(i as int));
            assert(v.take(i + 1).last() == seq@[i as int]@);
        }
        i = i + 1;
    }
    assert(v.take(seq@.len() as int) =~= v);
    bytes
}

/// Reads a sequence of strings.
pub fn decode_string_seq(bytes: &[u8], read_bytes: &mut i32) -> (r: Result<Vec<String>, Error>)
    requires
        !(string_seq_outcome(bytes@, *old(read_bytes)) is Stuck),
    ensures
        reports(string_seq_outcome(bytes@, *old(read_bytes)), r, *old(read_bytes), *final(read_bytes)),
{
    let ghost b = bytes@;
    let mut read: i32 = 0;
    let size = decode_size(bytes, &mut read);
    let ghost r0 = read as int;
    let ghost count = item_count(size);
    let mut string_seq: Vec<String> = Vec::new();
    let mut i: i32 = 0;
    proof {
        lemma_strings_no_recovery(b, r0, 0, count);
        assert(string_seq.deep_view() =~= Seq::<Seq<char>>::empty());
    }
    while i < size
        invariant
            b == bytes@,
            0 <= r0 <= 5,
            r0 <= b.len(),
            count == item_count(size),
            size_outcome(b, 0) == Outcome::Done(size, r0),
            size >= 0 ==> count == size,
            size < 0 ==> count == 0,
            0 <= i,
            size > 0 ==> i <= size,
            size <= 0 ==> i == 0,
            !(strings_outcome(b, r0, count) is Stuck),
            strings_outcome(b, r0, i as nat) == Outcome::Done(string_seq.deep_view(), read as int),
            0 <= read <= b.len(),
        decreases size - i,
    {
        let ghost before = read;
        proof {
            lemma_strings_position(b, r0, (i + 1) as nat);
            lemma_strings_no_recovery(b, r0, (i + 1) as nat, count);
        }
        let rest = &bytes[read as usize..bytes.len()];
        match decode_string(rest, &mut read) {
            Ok(s) => {
                string_seq.push(s);
                proof {
                    assert(string_seq.deep_view() =~= strings_outcome(b, r0, i as nat)->Done_0.push(s@));
                }
            },
            Err(e) => {
                proof {
                    assert(rest@ =~= b.subrange(before as int, b.len() as int));
                    assert(strings_outcome(b, r0, (i + 1) as nat) == Outcome::<Seq<Seq<char>>>::Fail(e));
                    assert(strings_outcome(b, r0, count) == Outcome::<Seq<Seq<char>>>::Fail(e));
                }
                return Err(e);
            },
        }
        i = i + 1;
        proof {
            lemma_strings_position(b, r0, i as nat);
        }
    }
    proof {
        if size > 0 {
            assert(i == size);
        }
        assert(i as nat == count);
        assert(strings_outcome(b, r0, count) == Outcome::Done(string_seq.deep_view(), read as int));
    }
    *read_bytes = *read_bytes + read;
    Ok(string_seq)
}


// ---------------------------------------------------------------------
// dictionaries

/// The encodings of the entries of `e`: each key followed by its value.
pub open spec fn pairs_bytes(e: Seq<Entry>) -> Seq<u8>
    decreases e.len(),
{
    if e.len() == 0 {
        Seq::empty()
    } else {
        pairs_bytes(e.drop_last()) + string_bytes(e.last().0) + string_bytes(e.last().1)
    }
}

/// The wire form of a dictionary: its number of entries as a size, then each entry.
pub open spec fn dict_bytes(e: Seq<Entry>) -> Seq<u8> {
    size_bytes(e.len() as i32) + pairs_bytes(e)
}

/// Reads `count` key-value pairs one after another from position `start` of `b`;
/// `Done` carries the position reached.
pub open spec fn pairs_outcome(b: Seq<u8>, start: int, count: nat) -> Outcome<Seq<Entry>>
    decreases count,
{
    if count == 0 {
        Outcome::Done(Seq::empty(), start)
    } else {
        match pairs_outcome(b, start, (count - 1) as nat) {
            Outcome::Done(v, p) => match string_outcome(b.subrange(p, b.len() as int), p as i32) {
                Outcome::Done(k, c) => match string_outcome(
                    b.subrange(p + c, b.len() as int),
                    (p + c) as i32,
                ) {
                    Outcome::Done(x, d) => Outcome::Done(v.push((k, x)), p + c + d),
                    Outcome::Fail(e) => Outcome::Fail(e),
                    Outcome::Stuck => Outcome::Stuck,
                },
                Outcome::Fail(e) => Outcome::Fail(e),
                Outcome::Stuck => Outcome::Stuck,
            },
            other => other,
        }
    }
}

/// What reading a dictionary from `b` yields: the entries after storing each pair read,
/// so that a later pair replaces the value of an earlier one with the same key.
pub open spec fn dict_outcome(b: Seq<u8>, at: i32) -> Outcome<Seq<Entry>> {
    match size_outcome(b, 0) {
        Outcome::Done(n, r) => match pairs_outcome(b, r, item_count(n)) {
            Outcome::Done(v, p) => if at + p > i32::MAX {
                Outcome::Stuck
            } else {
                Outcome::Done(entries_insert_all(v), p)
            },
            Outcome::Fail(e) => Outcome::Fail(e),
            Outcome::Stuck => Outcome::Stuck,
        },
        _ => Outcome::Stuck,
    }
}

/// Reading key-value pairs ends within the buffer and within `i32`, with one pair a count.
pub proof fn lemma_pairs_position(b: Seq<u8>, start: int, count: nat)
    requires
        0 <= start <= b.len(),
        start <= i32::MAX,
    ensures
        pairs_outcome(b, start, count) matches Outcome::Done(v, p) ==> start <= p <= b.len()
            && p <= i32::MAX && v.len() == count,
    decreases count,
{
    if count > 0 {
        lemma_pairs_position(b, start, (count - 1) as nat);
        if let Outcome::Done(v, p) = pairs_outcome(b, start, (count - 1) as nat) {
            if let Outcome::Done(k, c) = string_outcome(b.subrange(p, b.len() as int), p as i32) {
                assert(p + c <= b.len());
            }
        }
    }
}

/// Once reading key-value pairs fails or is stuck, reading more of them ends the same way.
pub proof fn lemma_pairs_no_recovery(b: Seq<u8>, start: int, i: nat, count: nat)
    requires
        i <= count,
    ensures
        !(pairs_outcome(b, start, i) is Done) ==> pairs_outcome(b, start, count) == pairs_outcome(
            b,
            start,
            i,
        ),
    decreases count,
{
    if i < count {
        lemma_pairs_no_recovery(b, start, i, (count - 1) as nat);
    }
}

/// Encodes a dictionary, entries in insertion order.
pub fn encode_dict(dict: &Dict) -> (bytes: Vec<u8>)
    ensures
        bytes@ == dict_bytes(dict.entries()),
{
    let ghost e = dict.entries();
    let n = dict.len();
    let mut bytes = encode_size(#[verifier::truncate] (n as i32));
    let ghost head = bytes@;
    let mut i: usize = 0;
    while i < n
        invariant
            0 <= i <= n,
            e == dict.entries(),
            n == e.len(),
            head == size_bytes(e.len() as i32),
            bytes@ == head + pairs_bytes(e.take(i as int)),
        decreases n - i,
    {
        let (key, value) = dict.entry(i);
        let kb = encode_string(key.as_str());
        append_bytes(&mut bytes, kb.as_slice());
        let vb = encode_string(value.as_str());
        append_bytes(&mut bytes, vb.as_slice());
        proof {
            assert(e.take(i + 1).drop_last() =~= e.take(i as int));
            assert(e.take(i + 1).last() == e[i as int]);
        }
        i = i + 1;
    }
    assert(e.take(n as int) =~= e);
    bytes
}

/// Reads a dictionary.
pub fn decode_dict(bytes: &[u8], read_bytes: &mut i32) -> (r: Result<Dict, Error>)
    requires
        !(dict_outcome(bytes@, *old(read_bytes)) is Stuck),
    ensures
        reports(dict_outcome(bytes@, *old(read_bytes)), r, *old(read_bytes), *final(read_bytes)),
{
    let ghost b = bytes@;
    let mut read: i32 = 0;
    let size = decode_size(bytes, &mut read);
    let ghost r0 = read as int;
    let ghost count = item_count(size);
    let mut dict = Dict::new();
    let ghost mut pairs: Seq<Entry> = Seq::empty();
    let mut i: i32 = 0;
    proof {
        lemma_pairs_no_recovery(b, r0, 0, count);
        assert(entries_insert_all(pairs) =~= Seq::<Entry>::empty());
    }
    while i < size
        invariant
            b == bytes@,
            0 <= r0 <= 5,
            r0 <= b.len(),
            count == item_count(size),
            size_outcome(b, 0) == Outcome::Done(size, r0),
            size >= 0 ==> count == size,
            size < 0 ==> count == 0,
            0 <= i,
            size > 0 ==> i <= size,
            size <= 0 ==> i == 0,
            !(pairs_outcome(b, r0, count) is Stuck),
            pairs_outcome(b, r0, i as nat) == Outcome::Done(pairs, read as int),
            dict.entries() == entries_insert_all(pairs),
            0 <= read <= b.len(),
        decreases size - i,
    {
        let ghost before = read;
        proof {
            lemma_pairs_position(b, r0, (i + 1) as nat);
            lemma_pairs_no_recovery(b, r0, (i + 1) as nat, count);
        }
        let rest = &bytes[read as usize..bytes.len()];
        assert(rest@ =~= b.subrange(before as int, b.len() as int));
        let key = match decode_string(rest, &mut read) {
            Ok(k) => k,
            Err(e) => {
                proof {
                    assert(pairs_outcome(b, r0, (i + 1) as nat) == Outcome::<Seq<Entry>>::Fail(e));
                }
                return Err(e);
            },
        };
        let ghost mid = read;
        let rest2 = &bytes[read as usize..bytes.len()];
        assert(rest2@ =~= b.subrange(mid as int, b.len() as int));
        let value = match decode_string(rest2, &mut read) {
            Ok(v) => v,
            Err(e) => {
                proof {
                    assert(pairs_outcome(b, r0, (i + 1) as nat) == Outcome::<Seq<Entry>>::Fail(e));
                }
                return Err(e);
            },
        };
        proof {
            let p2 = pairs.push((key@, value@));
            assert(p2.drop_last() =~= pairs);
            pairs = p2;
        }
        dict.insert(key, value);
        i = i + 1;
    }
    proof {
        if size > 0 {
            assert(i == size);
        }
        assert(i as nat == count);
    }
    *read_bytes = *read_bytes + read;
    Ok(dict)
}


// ---------------------------------------------------------------------
// laws of the sequence and dictionary codecs

/// A string's wire form is at least one byte long.
pub proof fn lemma_string_bytes_len(s: Seq<char>)
    ensures
        string_bytes(s).len() >= 1,
{
    assert(size_bytes(encode_utf8(s).len() as i32).len() >= 1);
}

/// The wire form of strings has at least one byte per string.
pub proof fn lemma_strings_bytes_len(v: Seq<Seq<char>>)
    ensures
        strings_bytes(v).len() >= v.len(),
    decreases v.len(),
{
    if v.len() > 0 {
        lemma_strings_bytes_len(v.drop_last());
        lemma_string_bytes_len(v.last());
    }
}

/// The wire form of key-value pairs has at least one byte per pair.
pub proof fn lemma_pairs_bytes_len(e: Seq<Entry>)
    ensures
        pairs_bytes(e).len() >= e.len(),
    decreases e.len(),
{
    if e.len() > 0 {
        lemma_pairs_bytes_len(e.drop_last());
        lemma_string_bytes_len(e.last().0);
    }
}

/// Splitting a buffer that holds `a + c` at `start`.
pub proof fn lemma_split_at(b: Seq<u8>, start: int, a: Seq<u8>, c: Seq<u8>)
    requires
        0 <= start,
        start + a.len() + c.len() <= b.len(),
        b.subrange(start, start + a.len() + c.len()) == a + c,
    ensures
        b.subrange(start, start + a.len()) == a,
        b.subrange(start + a.len(), start + a.len() + c.len()) == c,
        b.subrange(start + a.len(), b.len() as int) == c + b.subrange(
            start + a.len() + c.len(),
            b.len() as int,
        ),
        b.subrange(start, b.len() as int) == a + b.subrange(start + a.len(), b.len() as int),
{
    let w = b.subrange(start, start + a.len() + c.len());
    assert(b.subrange(start, start + a.len()) =~= w.subrange(0, a.len() as int));
    assert((a + c).subrange(0, a.len() as int) =~= a);
    assert(b.subrange(start + a.len(), start + a.len() + c.len()) =~= w.subrange(
        a.len() as int,
        (a.len() + c.len()) as int,
    ));
    assert((a + c).subrange(a.len() as int, (a.len() + c.len()) as int) =~= c);
    assert(b.subrange(start + a.len(), b.len() as int) =~= b.subrange(
        start + a.len(),
        start + a.len() + c.len(),
    ) + b.subrange(start + a.len() + c.len(), b.len() as int));
    assert(b.subrange(start, b.len() as int) =~= b.subrange(start, start + a.len()) + b.subrange(
        start + a.len(),
        b.len() as int,
    ));
}

/// Strings written one after another at `start` read back as themselves.
pub proof fn lemma_strings_read_back(v: Seq<Seq<char>>, b: Seq<u8>, start: int)
    requires
        0 <= start,
        start + strings_bytes(v).len() <= b.len(),
        start + strings_bytes(v).len() <= i32::MAX,
        b.subrange(start, start + strings_bytes(v).len()) == strings_bytes(v),
    ensures
        strings_outcome(b, start, v.len()) == Outcome::Done(v, start + strings_bytes(v).len()),
    decreases v.len(),
{
    if v.len() > 0 {
        let init = v.drop_last();
        let x = v.last();
        let li = strings_bytes(init).len() as int;
        let lx = string_bytes(x).len() as int;
        lemma_split_at(b, start, strings_bytes(init), string_bytes(x));
        lemma_strings_read_back(init, b, start);
        let p = start + li;
        lemma_string_roundtrip(x, b.subrange(p + lx, b.len() as int), p as i32);
        assert(init.push(x) =~= v);
    } else {
        assert(v =~= Seq::<Seq<char>>::empty());
    }
}

/// Entries written one after another at `start` read back as themselves.
pub proof fn lemma_pairs_read_back(e: Seq<Entry>, b: Seq<u8>, start: int)
    requires
        0 <= start,
        start + pairs_bytes(e).len() <= b.len(),
        start + pairs_bytes(e).len() <= i32::MAX,
        b.subrange(start, start + pairs_bytes(e).len()) == pairs_bytes(e),
    ensures
        pairs_outcome(b, start, e.len()) == Outcome::Done(e, start + pairs_bytes(e).len()),
    decreases e.len(),
{
    if e.len() > 0 {
        let init = e.drop_last();
        let (k, x) = e.last();
        let li = pairs_bytes(init).len() as int;
        let lk = string_bytes(k).len() as int;
        let lx = string_bytes(x).len() as int;
        assert(pairs_bytes(e) =~= pairs_bytes(init) + (string_bytes(k) + string_bytes(x)));
        lemma_split_at(b, start, pairs_bytes(init), string_bytes(k) + string_bytes(x));
        lemma_pairs_read_back(init, b, start);
        let p = start + li;
        lemma_split_at(b, p, string_bytes(k), string_bytes(x));
        lemma_string_roundtrip(k, b.subrange(p + lk, b.len() as int), p as i32);
        lemma_string_roundtrip(x, b.subrange(p + lk + lx, b.len() as int), (p + lk) as i32);
        assert(init.push((k, x)) =~= e);
    } else {
        assert(e =~= Seq::<Entry>::empty());
    }
}

/// Reading a sequence of strings back from its encoding, whatever follows it, gives the
/// sequence and consumes exactly its encoding.
pub proof fn lemma_string_seq_roundtrip(v: Seq<Seq<char>>, rest: Seq<u8>, at: i32)
    requires
        at >= 0,
        at + string_seq_bytes(v).len() <= i32::MAX,
    ensures
        string_seq_outcome(string_seq_bytes(v) + rest, at) == Outcome::Done(
            v,
            string_seq_bytes(v).len() as int,
        ),
{
    lemma_strings_bytes_len(v);
    let n = v.len() as i32;
    let head = size_bytes(n);
    let body = strings_bytes(v);
    let b = string_seq_bytes(v) + rest;
    assert(b =~= head + (body + rest));
    lemma_size_roundtrip(n, body + rest, 0);
    assert(b.subrange(head.len() as int, (head.len() + body.len()) as int) =~= body);
    lemma_strings_read_back(v, b, head.len() as int);
}

/// Reading a dictionary back from its encoding, whatever follows it, gives its entries
/// and consumes exactly its encoding.
pub proof fn lemma_dict_roundtrip(e: Seq<Entry>, rest: Seq<u8>, at: i32)
    requires
        keys_distinct(e),
        at >= 0,
        at + dict_bytes(e).len() <= i32::MAX,
    ensures
        dict_outcome(dict_bytes(e) + rest, at) == Outcome::Done(e, dict_bytes(e).len() as int),
{
    lemma_pairs_bytes_len(e);
    let n = e.len() as i32;
    let head = size_bytes(n);
    let body = pairs_bytes(e);
    let b = dict_bytes(e) + rest;
    assert(b =~= head + (body + rest));
    lemma_size_roundtrip(n, body + rest, 0);
    assert(b.subrange(head.len() as int, (head.len() + body.len()) as int) =~= body);
    lemma_pairs_read_back(e, b, head.len() as int);
    crate::dict::lemma_insert_all_distinct(e);
}


// ---------------------------------------------------------------------
// protocol structures

/// Relates an executable decoding result to its outcome, through the value's view.
pub open spec fn reports_view<T: View>(
    o: Outcome<T::V>,
    r: Result<T, Error>,
    before: i32,
    after: i32,
) -> bool {
    match o {
        Outcome::Done(v, n) => r matches Ok(x) && x@ == v && after == before + n,
        Outcome::Fail(e) => r == Err::<T, Error>(e) && after == before,
        Outcome::Stuck => true,
    }
}

/// Values that encode to bytes.
pub trait AsBytes: View {
    /// The encoding of a value.
    spec fn wire(v: Self::V) -> Seq<u8>;

    fn as_bytes(&self) -> (r: Result<Vec<u8>, Error>)
        ensures
            r matches Ok(b) && b@ == Self::wire(self@),
    ;
}

/// Values that decode from bytes.
pub trait FromBytes: View + Sized {
    /// What decoding `bytes` yields for a caller whose read counter stands at `at`.
    spec fn wire_outcome(bytes: Seq<u8>, at: i32) -> Outcome<Self::V>;

    fn from_bytes(bytes: &[u8], read_bytes: &mut i32) -> (r: Result<Self, Error>)
        requires
            !(Self::wire_outcome(bytes@, *old(read_bytes)) is Stuck),
        ensures
            reports_view(
                Self::wire_outcome(bytes@, *old(read_bytes)),
                r,
                *old(read_bytes),
                *final(read_bytes),
            ),
    ;
}

/// The wire form of an identity: its name, then its category.
pub open spec fn identity_bytes(v: IdentityView) -> Seq<u8> {
    string_bytes(v.name) + string_bytes(v.category)
}

/// What reading an identity from `b` yields: a name, then a category.
pub open spec fn identity_outcome(b: Seq<u8>, at: i32) -> Outcome<IdentityView> {
    match string_outcome(b, 0) {
        Outcome::Done(name, c1) => match string_outcome(b.subrange(c1, b.len() as int), c1 as i32) {
            Outcome::Done(category, c2) => if at + c1 + c2 > i32::MAX {
                Outcome::Stuck
            } else {
                Outcome::Done(IdentityView { name, category }, c1 + c2)
            },
            Outcome::Fail(e) => Outcome::Fail(e),
            Outcome::Stuck => Outcome::Stuck,
        },
        Outcome::Fail(e) => Outcome::Fail(e),
        Outcome::Stuck => Outcome::Stuck,
    }
}

impl AsBytes for Identity {
    open spec fn wire(v: IdentityView) -> Seq<u8> {
        identity_bytes(v)
    }

    fn as_bytes(&self) -> (r: Result<Vec<u8>, Error>) {
        let mut buffer: Vec<u8> = Vec::new();
        let name = encode_string(self.name.as_str());
        append_bytes(&mut buffer, name.as_slice());
        let category = encode_string(self.category.as_str());
        append_bytes(&mut buffer, category.as_slice());
        assert(buffer@ =~= identity_bytes(self@));
        Ok(buffer)
    }
}

impl FromBytes for Identity {
    open spec fn wire_outcome(bytes: Seq<u8>, at: i32) -> Outcome<IdentityView> {
        identity_outcome(bytes, at)
    }

    fn from_bytes(bytes: &[u8], read_bytes: &mut i32) -> (r: Result<Identity, Error>) {
        let mut read: i32 = 0;
        let all = &bytes[read as usize..bytes.len()];
        assert(all@ =~= bytes@);
        let name = match decode_string(all, &mut read) {
            Ok(s) => s,
            Err(e) => return Err(e),
        };
        let rest = &bytes[read as usize..bytes.len()];
        let category = match decode_string(rest, &mut read) {
            Ok(s) => s,
            Err(e) => return Err(e),
        };
        *read_bytes = *read_bytes + read;
        Ok(Identity { name: name, category: category })
    }
}

/// The wire form of an encapsulation: its size, its encoding version, then its payload.
pub open spec fn encapsulation_bytes(v: EncapsulationView) -> Seq<u8> {
    le_i32(v.size) + seq![v.major, v.minor] + v.data
}

/// Reading an encapsulation takes every remaining byte as its payload; the counter
/// advances by the buffer length taken as an `i32`.
pub open spec fn encapsulation_outcome(b: Seq<u8>, at: i32) -> Outcome<EncapsulationView> {
    let l = b.len() as i32;
    if b.len() < 6 {
        Outcome::Fail(Error::CannotDeserialize)
    } else if at + 6 > i32::MAX || l - 6 < i32::MIN || at + l > i32::MAX || at + l < i32::MIN {
        Outcome::Stuck
    } else {
        Outcome::Done(
            EncapsulationView {
                size: i32_of_le(b[0], b[1], b[2], b[3]),
                major: b[4],
                minor: b[5],
                data: b.subrange(6, b.len() as int),
            },
            l as int,
        )
    }
}

impl AsBytes for Encapsulation {
    open spec fn wire(v: EncapsulationView) -> Seq<u8> {
        encapsulation_bytes(v)
    }

    fn as_bytes(&self) -> (r: Result<Vec<u8>, Error>) {
        let mut buffer: Vec<u8> = Vec::new();
        let size = encode_int(self.size);
        append_bytes(&mut buffer, size.as_slice());
        buffer.push(self.major);
        buffer.push(self.minor);
        if self.data.len() > 0 {
            append_bytes(&mut buffer, self.data.as_slice());
        }
        assert(buffer@ =~= encapsulation_bytes(self@));
        Ok(buffer)
    }
}

impl FromBytes for Encapsulation {
    open spec fn wire_outcome(bytes: Seq<u8>, at: i32) -> Outcome<EncapsulationView> {
        encapsulation_outcome(bytes, at)
    }

    fn from_bytes(bytes: &[u8], read_bytes: &mut i32) -> (r: Result<Encapsulation, Error>) {
        let mut read: i32 = 0;
        if bytes.len() < 6 {
            return Err(Error::CannotDeserialize);
        }
        let all = &bytes[read as usize..bytes.len()];
        assert(all@ =~= bytes@);
        let size = match decode_int(all, &mut read) {
            Ok(v) => v,
            Err(e) => return Err(e),
        };
        let major = match decode_byte(&bytes[read as usize..bytes.len()], &mut read) {
            Ok(v) => v,
            Err(e) => return Err(e),
        };
        let minor = match decode_byte(&bytes[read as usize..bytes.len()], &mut read) {
            Ok(v) => v,
            Err(e) => return Err(e),
        };
        let len = #[verifier::truncate] (bytes.len() as i32);
        *read_bytes = *read_bytes + read + (len - read);
        let data = vstd::slice::slice_to_vec(&bytes[read as usize..bytes.len()]);
        Ok(Encapsulation { size: size, major: major, minor: minor, data: data })
    }
}


/// The wire form of a reply: its request id, its status, then its body.
pub open spec fn reply_bytes(v: ReplyView) -> Seq<u8> {
    le_i32(v.request_id) + seq![v.status] + encapsulation_bytes(v.body)
}

/// What reading a reply from `b` yields: a request id, a status and a body.
pub open spec fn reply_outcome(b: Seq<u8>, at: i32) -> Outcome<ReplyView> {
    if b.len() < 11 {
        Outcome::Fail(Error::CannotDeserialize)
    } else {
        match encapsulation_outcome(b.subrange(5, b.len() as int), 5) {
            Outcome::Done(body, n) => if at + 5 + n > i32::MAX || at + 5 + n < i32::MIN {
                Outcome::Stuck
            } else {
                Outcome::Done(
                    ReplyView { request_id: i32_of_le(b[0], b[1], b[2], b[3]), status: b[4], body },
                    5 + n,
                )
            },
            Outcome::Fail(e) => Outcome::Fail(e),
            Outcome::Stuck => Outcome::Stuck,
        }
    }
}

impl AsBytes for ReplyData {
    open spec fn wire(v: ReplyView) -> Seq<u8> {
        reply_bytes(v)
    }

    fn as_bytes(&self) -> (r: Result<Vec<u8>, Error>) {
        let mut buffer: Vec<u8> = Vec::new();
        let id = encode_int(self.request_id);
        append_bytes(&mut buffer, id.as_slice());
        buffer.push(self.status);
        let body = match self.body.as_bytes() {
            Ok(b) => b,
            Err(e) => return Err(e),
        };
        append_bytes(&mut buffer, body.as_slice());
        assert(buffer@ =~= reply_bytes(self@));
        Ok(buffer)
    }
}

impl FromBytes for ReplyData {
    open spec fn wire_outcome(bytes: Seq<u8>, at: i32) -> Outcome<ReplyView> {
        reply_outcome(bytes, at)
    }

    fn from_bytes(bytes: &[u8], read_bytes: &mut i32) -> (r: Result<ReplyData, Error>) {
        let mut read: i32 = 0;
        if bytes.len() < 11 {
            return Err(Error::CannotDeserialize);
        }
        let all = &bytes[read as usize..bytes.len()];
        assert(all@ =~= bytes@);
        let request_id = match decode_int(all, &mut read) {
            Ok(v) => v,
            Err(e) => return Err(e),
        };
        let status = match decode_byte(&bytes[read as usize..bytes.len()], &mut read) {
            Ok(v) => v,
            Err(e) => return Err(e),
        };
        let rest = &bytes[read as usize..bytes.len()];
        assert(rest@ =~= bytes@.subrange(5, bytes@.len() as int));
        let body = match Encapsulation::from_bytes(rest, &mut read) {
            Ok(v) => v,
            Err(e) => return Err(e),
        };
        *read_bytes = *read_bytes + read;
        Ok(ReplyData { request_id: request_id, status: status, body: body })
    }
}

/// The wire form of a header: the magic in UTF-8, six version and type bytes, the size.
pub open spec fn header_bytes(v: HeaderView) -> Seq<u8> {
    encode_utf8(v.magic) + seq![
        v.protocol_major,
        v.protocol_minor,
        v.encoding_major,
        v.encoding_minor,
        v.message_type,
        v.compression_status,
    ] + le_i32(v.message_size)
}

/// Reading a header: fourteen bytes, the first four of which spell `IceP` in UTF-8.
pub open spec fn header_outcome(b: Seq<u8>, at: i32) -> Outcome<HeaderView> {
    let m = b.subrange(0, 4);
    if b.len() < 14 {
        Outcome::Fail(Error::CannotDeserialize)
    } else if !valid_utf8(m) {
        Outcome::Fail(Error::CannotDeserialize)
    } else if decode_utf8(m) != "IceP"@ {
        Outcome::Fail(Error::WrongProtocolMagic)
    } else if at + 14 > i32::MAX {
        Outcome::Stuck
    } else {
        Outcome::Done(
            HeaderView {
                magic: decode_utf8(m),
                protocol_major: b[4],
                protocol_minor: b[5],
                encoding_major: b[6],
                encoding_minor: b[7],
                message_type: b[8],
                compression_status: b[9],
                message_size: i32_of_le(b[10], b[11], b[12], b[13]),
            },
            14,
        )
    }
}

impl AsBytes for Header {
    open spec fn wire(v: HeaderView) -> Seq<u8> {
        header_bytes(v)
    }

    fn as_bytes(&self) -> (r: Result<Vec<u8>, Error>) {
        let mut buffer: Vec<u8> = Vec::new();
        append_bytes(&mut buffer, self.magic.as_str().as_bytes());
        buffer.push(self.protocol_major);
        buffer.push(self.protocol_minor);
        buffer.push(self.encoding_major);
        buffer.push(self.encoding_minor);
        buffer.push(self.message_type);
        buffer.push(self.compression_status);
        let size = encode_int(self.message_size);
        append_bytes(&mut buffer, size.as_slice());
        assert(buffer@ =~= header_bytes(self@));
        Ok(buffer)
    }
}

impl FromBytes for Header {
    open spec fn wire_outcome(bytes: Seq<u8>, at: i32) -> Outcome<HeaderView> {
        header_outcome(bytes, at)
    }

    fn from_bytes(bytes: &[u8], read_bytes: &mut i32) -> (r: Result<Header, Error>) {
        if bytes.len() < 14 {
            return Err(Error::CannotDeserialize);
        }
        let magic_bytes = &bytes[0..4];
        assert(magic_bytes@ =~= bytes@.subrange(0, 4));
        let magic = match string_from_utf8(vstd::slice::slice_to_vec(magic_bytes)) {
            Some(s) => s,
            None => return Err(Error::CannotDeserialize),
        };
        if !crate::text::str_eq(magic.as_str(), "IceP") {
            return Err(Error::WrongProtocolMagic);
        }
        let mut read: i32 = 4;
        let protocol_major = match decode_byte(&bytes[read as usize..bytes.len()], &mut read) {
            Ok(v) => v,
            Err(e) => return Err(e),
        };
        let protocol_minor = match decode_byte(&bytes[read as usize..bytes.len()], &mut read) {
            Ok(v) => v,
            Err(e) => return Err(e),
        };
        let encoding_major = match decode_byte(&bytes[read as usize..bytes.len()], &mut read) {
            Ok(v) => v,
            Err(e) => return Err(e),
        };
        let encoding_minor = match decode_byte(&bytes[read as usize..bytes.len()], &mut read) {
            Ok(v) => v,
            Err(e) => return Err(e),
        };
        let message_type = match decode_byte(&bytes[read as usize..bytes.len()], &mut read) {
            Ok(v) => v,
            Err(e) => return Err(e),
        };
        let compression_status = match decode_byte(&bytes[read as usize..bytes.len()], &mut read) {
            Ok(v) => v,
            Err(e) => return Err(e),
        };
        let message_size = match decode_int(&bytes[read as usize..bytes.len()], &mut read) {
            Ok(v) => v,
            Err(e) => return Err(e),
        };
        *read_bytes = *read_bytes + read;
        Ok(
            Header {
                magic: magic,
                protocol_major: protocol_major,
                protocol_minor: protocol_minor,
                encoding_major: encoding_major,
                encoding_minor: encoding_minor,
                message_type: message_type,
                compression_status: compression_status,
                message_size: message_size,
            },
        )
    }
}


/// Reading a string consumes a part of the buffer and keeps the counter within `i32`.
pub proof fn lemma_string_consumes(b: Seq<u8>, at: i32)
    ensures
        string_outcome(b, at) matches Outcome::Done(_, c) ==> 0 <= c <= b.len() && at + c
            <= i32::MAX,
{
}

/// Reading strings consumes a part of the buffer and keeps the counter within `i32`.
pub proof fn lemma_string_seq_consumes(b: Seq<u8>, at: i32)
    ensures
        string_seq_outcome(b, at) matches Outcome::Done(_, c) ==> 0 <= c <= b.len() && at + c
            <= i32::MAX,
{
    if let Outcome::Done(n, r) = size_outcome(b, 0) {
        lemma_strings_position(b, r, item_count(n));
    }
}

/// Reading a dictionary consumes a part of the buffer and keeps the counter within `i32`.
pub proof fn lemma_dict_consumes(b: Seq<u8>, at: i32)
    ensures
        dict_outcome(b, at) matches Outcome::Done(_, c) ==> 0 <= c <= b.len() && at + c
            <= i32::MAX,
{
    if let Outcome::Done(n, r) = size_outcome(b, 0) {
        lemma_pairs_position(b, r, item_count(n));
    }
}

/// Reading an identity consumes a part of the buffer and keeps the counter within `i32`.
pub proof fn lemma_identity_consumes(b: Seq<u8>, at: i32)
    ensures
        identity_outcome(b, at) matches Outcome::Done(_, c) ==> 0 <= c <= b.len() && at + c
            <= i32::MAX,
{
    lemma_string_consumes(b, 0);
    if let Outcome::Done(_, c1) = string_outcome(b, 0) {
        lemma_string_consumes(b.subrange(c1, b.len() as int), c1 as i32);
    }
}

/// The wire form of a request: id, identity, facet, operation, mode, context, parameters.
pub open spec fn request_bytes(v: RequestView) -> Seq<u8> {
    le_i32(v.request_id) + identity_bytes(v.id) + string_seq_bytes(v.facet) + string_bytes(
        v.operation,
    ) + seq![v.mode] + dict_bytes(v.context) + encapsulation_bytes(v.params)
}

/// The part of `b` from position `p` on.
pub open spec fn from_position(b: Seq<u8>, p: int) -> Seq<u8> {
    b.subrange(p, b.len() as int)
}

/// Reading a request after its context, which ends at position `p`.
pub open spec fn request_params_outcome(
    b: Seq<u8>,
    at: i32,
    request_id: i32,
    id: IdentityView,
    facet: Seq<Seq<char>>,
    operation: Seq<char>,
    mode: u8,
    context: Seq<Entry>,
    p: int,
) -> Outcome<RequestView> {
    match encapsulation_outcome(from_position(b, p), p as i32) {
        Outcome::Done(params, n) => if at + p + n > i32::MAX || at + p + n < i32::MIN {
            Outcome::Stuck
        } else {
            Outcome::Done(RequestView { request_id, id, facet, operation, mode, context, params }, p + n)
        },
        Outcome::Fail(e) => Outcome::Fail(e),
        Outcome::Stuck => Outcome::Stuck,
    }
}

/// Reading a request after its identity, which ends at position `p`.
pub open spec fn request_tail_outcome(
    b: Seq<u8>,
    at: i32,
    request_id: i32,
    id: IdentityView,
    p: int,
) -> Outcome<RequestView> {
    match string_seq_outcome(from_position(b, p), p as i32) {
        Outcome::Done(facet, c1) => {
            let p1 = p + c1;
            match string_outcome(from_position(b, p1), p1 as i32) {
                Outcome::Done(operation, c2) => {
                    let p2 = p1 + c2;
                    match byte_outcome(from_position(b, p2), p2 as i32) {
                        Outcome::Done(mode, c3) => {
                            let p3 = p2 + c3;
                            match dict_outcome(from_position(b, p3), p3 as i32) {
                                Outcome::Done(context, c4) => request_params_outcome(
                                    b,
                                    at,
                                    request_id,
                                    id,
                                    facet,
                                    operation,
                                    mode,
                                    context,
                                    p3 + c4,
                                ),
                                Outcome::Fail(e) => Outcome::Fail(e),
                                Outcome::Stuck => Outcome::Stuck,
                            }
                        },
                        Outcome::Fail(e) => Outcome::Fail(e),
                        Outcome::Stuck => Outcome::Stuck,
                    }
                },
                Outcome::Fail(e) => Outcome::Fail(e),
                Outcome::Stuck => Outcome::Stuck,
            }
        },
        Outcome::Fail(e) => Outcome::Fail(e),
        Outcome::Stuck => Outcome::Stuck,
    }
}

/// Reading a request: its id, identity, facet, operation, mode, context and
/// parameters, one after another.
pub open spec fn request_outcome(b: Seq<u8>, at: i32) -> Outcome<RequestView> {
    match int_outcome(b, 0) {
        Outcome::Done(request_id, c0) => match identity_outcome(from_position(b, c0), c0 as i32) {
            Outcome::Done(id, c1) => request_tail_outcome(b, at, request_id, id, c0 + c1),
            Outcome::Fail(e) => Outcome::Fail(e),
            Outcome::Stuck => Outcome::Stuck,
        },
        Outcome::Fail(e) => Outcome::Fail(e),
        Outcome::Stuck => Outcome::Stuck,
    }
}

impl AsBytes for RequestData {
    open spec fn wire(v: RequestView) -> Seq<u8> {
        request_bytes(v)
    }

    fn as_bytes(&self) -> (r: Result<Vec<u8>, Error>) {
        let mut buffer: Vec<u8> = Vec::new();
        let id = encode_int(self.request_id);
        append_bytes(&mut buffer, id.as_slice());
        let identity = match self.id.as_bytes() {
            Ok(b) => b,
            Err(e) => return Err(e),
        };
        append_bytes(&mut buffer, identity.as_slice());
        let facet = encode_string_seq(&self.facet);
        append_bytes(&mut buffer, facet.as_slice());
        let operation = encode_string(self.operation.as_str());
        append_bytes(&mut buffer, operation.as_slice());
        buffer.push(self.mode);
        let context = encode_dict(&self.context);
        append_bytes(&mut buffer, context.as_slice());
        let params = match self.params.as_bytes() {
            Ok(b) => b,
            Err(e) => return Err(e),
        };
        append_bytes(&mut buffer, params.as_slice());
        assert(buffer@ =~= request_bytes(self@));
        Ok(buffer)
    }
}

impl FromBytes for RequestData {
    open spec fn wire_outcome(bytes: Seq<u8>, at: i32) -> Outcome<RequestView> {
        request_outcome(bytes, at)
    }

    fn from_bytes(bytes: &[u8], read_bytes: &mut i32) -> (r: Result<RequestData, Error>) {
        let ghost b = bytes@;
        let mut read: i32 = 0;
        let request_id = match decode_int(bytes, &mut read) {
            Ok(v) => v,
            Err(e) => return Err(e),
        };
        let s1 = &bytes[read as usize..bytes.len()];
        assert(s1@ =~= from_position(b, 4));
        proof {
            lemma_identity_consumes(s1@, 4);
        }
        let id = match Identity::from_bytes(s1, &mut read) {
            Ok(v) => v,
            Err(e) => return Err(e),
        };
        let ghost p1 = read as int;
        let s2 = &bytes[read as usize..bytes.len()];
        assert(s2@ =~= from_position(b, p1));
        proof {
            lemma_string_seq_consumes(s2@, read);
        }
        let facet = match decode_string_seq(s2, &mut read) {
            Ok(v) => v,
            Err(e) => return Err(e),
        };
        let ghost p2 = read as int;
        let s3 = &bytes[read as usize..bytes.len()];
        assert(s3@ =~= from_position(b, p2));
        proof {
            lemma_string_consumes(s3@, read);
        }
        let operation = match decode_string(s3, &mut read) {
            Ok(v) => v,
            Err(e) => return Err(e),
        };
        let ghost p3 = read as int;
        let s4 = &bytes[read as usize..bytes.len()];
        assert(s4@ =~= from_position(b, p3));
        let mode = match decode_byte(s4, &mut read) {
            Ok(v) => v,
            Err(e) => return Err(e),
        };
        let ghost p4 = read as int;
        let s5 = &bytes[read as usize..bytes.len()];
        assert(s5@ =~= from_position(b, p4));
        proof {
            lemma_dict_consumes(s5@, read);
        }
        let context = match decode_dict(s5, &mut read) {
            Ok(v) => v,
            Err(e) => return Err(e),
        };
        let ghost p5 = read as int;
        let s6 = &bytes[read as usize..bytes.len()];
        assert(s6@ =~= from_position(b, p5));
        let params = match Encapsulation::from_bytes(s6, &mut read) {
            Ok(v) => v,
            Err(e) => return Err(e),
        };
        *read_bytes = *read_bytes + read;
        Ok(
            RequestData {
                request_id: request_id,
                id: id,
                facet: facet,
                operation: operation,
                mode: mode,
                context: context,
                params: params,
            },
        )
    }
}


// ---------------------------------------------------------------------
// encapsulations of basic values

/// The encapsulation of a payload: encoding 1.1, and a size that counts the six
/// bytes of the size and version fields.
pub open spec fn encapsulation_of(payload: Seq<u8>) -> EncapsulationView {
    EncapsulationView { size: (6 + (payload.len() as i32)) as i32, major: 1, minor: 1, data: payload }
}

/// Relates an executable decoding result to its outcome, ignoring the counter.
pub open spec fn decodes<T: DeepView>(o: Outcome<T::V>, r: Result<T, Error>) -> bool {
    match o {
        Outcome::Done(v, _) => r matches Ok(x) && x.deep_view() == v,
        Outcome::Fail(e) => r == Err::<T, Error>(e),
        Outcome::Stuck => true,
    }
}

/// Values that wrap themselves into an encapsulation.
pub trait AsEncapsulation {
    /// The encoded value that the encapsulation carries.
    spec fn payload(&self) -> Seq<u8>;

    fn as_encapsulation(&self) -> (r: Result<Encapsulation, Error>)
        requires
            6 + (self.payload().len() as i32) <= i32::MAX,
        ensures
            r matches Ok(e) && e@ == encapsulation_of(self.payload()),
    ;
}

/// Values that read themselves out of an encapsulation.
pub trait FromEncapsulation {
    type Output: DeepView;

    /// What decoding a payload yields.
    spec fn payload_outcome(data: Seq<u8>) -> Outcome<<Self::Output as DeepView>::V>;

    fn from_encapsulation(body: Encapsulation) -> (r: Result<Self::Output, Error>)
        requires
            !(Self::payload_outcome(body.data@) is Stuck),
        ensures
            decodes(Self::payload_outcome(body.data@), r),
    ;
}

/// Wraps a payload into an encapsulation.
fn encapsulate(bytes: Vec<u8>) -> (e: Encapsulation)
    requires
        6 + (bytes@.len() as i32) <= i32::MAX,
    ensures
        e@ == encapsulation_of(bytes@),
{
    let len = #[verifier::truncate] (bytes.len() as i32);
    Encapsulation { size: 6 + len, major: 1, minor: 1, data: bytes }
}

impl AsEncapsulation for String {
    open spec fn payload(&self) -> Seq<u8> {
        string_bytes(self@)
    }

    fn as_encapsulation(&self) -> (r: Result<Encapsulation, Error>) {
        let bytes = encode_string(self.as_str());
        Ok(encapsulate(bytes))
    }
}

impl<'a> AsEncapsulation for &'a str {
    open spec fn payload(&self) -> Seq<u8> {
        string_bytes((*self)@)
    }

    fn as_encapsulation(&self) -> (r: Result<Encapsulation, Error>) {
        let bytes = encode_string(*self);
        Ok(encapsulate(bytes))
    }
}

impl FromEncapsulation for String {
    type Output = String;

    open spec fn payload_outcome(data: Seq<u8>) -> Outcome<Seq<char>> {
        string_outcome(data, 0)
    }

    fn from_encapsulation(body: Encapsulation) -> (r: Result<String, Error>) {
        let mut read_bytes: i32 = 0;
        decode_string(body.data.as_slice(), &mut read_bytes)
    }
}

impl AsEncapsulation for Vec<String> {
    open spec fn payload(&self) -> Seq<u8> {
        string_seq_bytes(self.deep_view())
    }

    fn as_encapsulation(&self) -> (r: Result<Encapsulation, Error>) {
        let bytes = encode_string_seq(self);
        Ok(encapsulate(bytes))
    }
}

impl FromEncapsulation for Vec<String> {
    type Output = Vec<String>;

    open spec fn payload_outcome(data: Seq<u8>) -> Outcome<Seq<Seq<char>>> {
        string_seq_outcome(data, 0)
    }

    fn from_encapsulation(body: Encapsulation) -> (r: Result<Vec<String>, Error>) {
        let mut read_bytes: i32 = 0;
        decode_string_seq(body.data.as_slice(), &mut read_bytes)
    }
}

impl AsEncapsulation for bool {
    open spec fn payload(&self) -> Seq<u8> {
        bool_bytes(*self)
    }

    fn as_encapsulation(&self) -> (r: Result<Encapsulation, Error>) {
        let e = Encapsulation { size: 7, major: 1, minor: 1, data: encode_bool(*self) };
        Ok(e)
    }
}

impl FromEncapsulation for bool {
    type Output = bool;

    open spec fn payload_outcome(data: Seq<u8>) -> Outcome<bool> {
        bool_outcome(data, 0)
    }

    fn from_encapsulation(body: Encapsulation) -> (r: Result<bool, Error>) {
        let mut read_bytes: i32 = 0;
        decode_bool(body.data.as_slice(), &mut read_bytes)
    }
}

impl AsEncapsulation for i16 {
    open spec fn payload(&self) -> Seq<u8> {
        le_i16(*self)
    }

    fn as_encapsulation(&self) -> (r: Result<Encapsulation, Error>) {
        let encoded = encode_short(*self);
        Ok(encapsulate(encoded))
    }
}

impl FromEncapsulation for i16 {
    type Output = i16;

    open spec fn payload_outcome(data: Seq<u8>) -> Outcome<i16> {
        short_outcome(data, 0)
    }

    fn from_encapsulation(body: Encapsulation) -> (r: Result<i16, Error>) {
        let mut read_bytes: i32 = 0;
        decode_short(body.data.as_slice(), &mut read_bytes)
    }
}

impl AsEncapsulation for i32 {
    open spec fn payload(&self) -> Seq<u8> {
        le_i32(*self)
    }

    fn as_encapsulation(&self) -> (r: Result<Encapsulation, Error>) {
        let encoded = encode_int(*self);
        Ok(encapsulate(encoded))
    }
}

impl FromEncapsulation for i32 {
    type Output = i32;

    open spec fn payload_outcome(data: Seq<u8>) -> Outcome<i32> {
        int_outcome(data, 0)
    }

    fn from_encapsulation(body: Encapsulation) -> (r: Result<i32, Error>) {
        let mut read_bytes: i32 = 0;
        decode_int(body.data.as_slice(), &mut read_bytes)
    }
}

impl AsEncapsulation for i64 {
    open spec fn payload(&self) -> Seq<u8> {
        le_i64(*self)
    }

    fn as_encapsulation(&self) -> (r: Result<Encapsulation, Error>) {
        let encoded = encode_long(*self);
        Ok(encapsulate(encoded))
    }
}

impl FromEncapsulation for i64 {
    type Output = i64;

    open spec fn payload_outcome(data: Seq<u8>) -> Outcome<i64> {
        long_outcome(data, 0)
    }

    fn from_encapsulation(body: Encapsulation) -> (r: Result<i64, Error>) {
        let mut read_bytes: i32 = 0;
        decode_long(body.data.as_slice(), &mut read_bytes)
    }
}

impl AsEncapsulation for Dict {
    open spec fn payload(&self) -> Seq<u8> {
        dict_bytes(self.entries())
    }

    fn as_encapsulation(&self) -> (r: Result<Encapsulation, Error>) {
        let encoded = encode_dict(self);
        Ok(encapsulate(encoded))
    }
}

impl FromEncapsulation for Dict {
    type Output = Dict;

    open spec fn payload_outcome(data: Seq<u8>) -> Outcome<Seq<Entry>> {
        dict_outcome(data, 0)
    }

    fn from_encapsulation(body: Encapsulation) -> (r: Result<Dict, Error>) {
        let mut read_bytes: i32 = 0;
        decode_dict(body.data.as_slice(), &mut read_bytes)
    }
}

} // verus!
