use vstd::prelude::*;

use crate::dict::{keys_distinct, Entry};
use vstd::utf8::*;

use crate::encoding::{
    bool_bytes, bool_outcome, dict_bytes, dict_outcome, encapsulation_bytes, encapsulation_of,
    le_i16, le_i64, encapsulation_outcome, header_bytes,
    header_outcome, i32_of_le, identity_bytes, identity_outcome, le_i32, lemma_dict_roundtrip,
    lemma_le_i32_roundtrip, lemma_string_roundtrip, pairs_bytes, reply_bytes, reply_outcome,
    request_bytes, size_bytes, size_outcome, string_bytes, string_outcome, string_seq_bytes,
    strings_bytes, Outcome,
};
use crate::protocol::{EncapsulationView, HeaderView, IdentityView, ReplyView, RequestView};
use crate::roundtrip::{lemma_header_roundtrip, lemma_identity_roundtrip};

verus! {

/// A 32-bit integer is written least significant byte first: byte `k` holds the
/// `k`-th group of eight bits of the integer taken as unsigned.
pub proof fn lemma_le_i32_layout(n: i32)
    ensures
        le_i32(n).len() == 4,
        le_i32(n)[0] == (n as u32) % 256,
        le_i32(n)[1] == ((n as u32) / 256) % 256,
        le_i32(n)[2] == ((n as u32) / 65536) % 256,
        le_i32(n)[3] == (n as u32) / 16777216,
{
    let u = n as u32;
    assert((u as u8) as u32 == u % 256) by (bit_vector);
    assert(((u >> 8u32) as u8) as u32 == (u / 256) % 256) by (bit_vector);
    assert(((u >> 16u32) as u8) as u32 == (u / 65536) % 256) by (bit_vector);
    assert(((u >> 24u32) as u8) as u32 == u / 16777216) by (bit_vector);
}

/// Four bytes read as a 32-bit integer, least significant first; when the last byte
/// is below 128 the integer is their weighted sum.
pub proof fn lemma_i32_of_le_value(b0: u8, b1: u8, b2: u8, b3: u8)
    requires
        b3 < 128,
    ensures
        i32_of_le(b0, b1, b2, b3) == b0 + 256 * b1 + 65536 * b2 + 16777216 * b3,
{
    assert(b3 < 128 ==> ((b0 as u32) | ((b1 as u32) << 8u32) | ((b2 as u32) << 16u32) | ((
    b3 as u32) << 24u32)) as i32 == b0 + 256 * b1 + 65536 * b2 + 16777216 * b3) by (bit_vector);
}

/// A size below 255 is written as one byte; a larger one as the marker 255 followed by
/// its four bytes, least significant first.
pub proof fn lemma_size_layout(n: i32)
    requires
        n >= 0,
    ensures
        n < 255 ==> size_bytes(n) == seq![n as u8],
        n >= 255 ==> {
            &&& size_bytes(n).len() == 5
            &&& size_bytes(n)[0] == 255
            &&& size_bytes(n)[1] == n % 256
            &&& size_bytes(n)[2] == (n / 256) % 256
            &&& size_bytes(n)[3] == (n / 65536) % 256
            &&& size_bytes(n)[4] == n / 16777216
        },
{
    lemma_le_i32_layout(n);
    assert((n as u32) == n);
}

/// Reading a size: a first byte below 255 is the size; the marker 255 is followed by
/// the size's four bytes, least significant first.
pub proof fn lemma_size_read(b1: u8, b2: u8, b3: u8, b4: u8, rest: Seq<u8>)
    requires
        b4 < 128,
    ensures
        b1 < 255 ==> size_outcome(seq![b1] + rest, 0) == Outcome::Done(b1 as i32, 1),
        size_outcome(seq![255u8, b1, b2, b3, b4] + rest, 0) == Outcome::Done(
            (b1 + 256 * b2 + 65536 * b3 + 16777216 * b4) as i32,
            5,
        ),
{
    let b = seq![255u8, b1, b2, b3, b4] + rest;
    assert(b[0] == 255 && b[1] == b1 && b[2] == b2 && b[3] == b3 && b[4] == b4);
    lemma_i32_of_le_value(b1, b2, b3, b4);
    assert((seq![b1] + rest)[0] == b1);
}

/// A header is fourteen bytes: the magic, protocol and encoding versions, the message
/// type at byte 8, the compression status at byte 9, then the message size.
pub proof fn lemma_header_layout(v: HeaderView)
    requires
        v.magic == "IceP"@,
    ensures
        header_bytes(v).len() == 14,
        header_bytes(v)[4] == v.protocol_major,
        header_bytes(v)[5] == v.protocol_minor,
        header_bytes(v)[6] == v.encoding_major,
        header_bytes(v)[7] == v.encoding_minor,
        header_bytes(v)[8] == v.message_type,
        header_bytes(v)[9] == v.compression_status,
        header_bytes(v).subrange(10, 14) == le_i32(v.message_size),
{
    lemma_header_roundtrip(v, Seq::empty(), 0);
    assert(header_bytes(v) + Seq::<u8>::empty() =~= header_bytes(v));
    lemma_le_i32_roundtrip(v.message_size);
    assert(header_bytes(v).subrange(10, 14) =~= le_i32(v.message_size));
}

/// Reading a header takes the versions from bytes 4 to 7, the message type from byte 8,
/// the compression status from byte 9 and the size from bytes 10 to 13.
pub proof fn lemma_header_read(b: Seq<u8>, at: i32)
    ensures
        header_outcome(b, at) matches Outcome::Done(h, n) ==> {
            &&& n == 14
            &&& h.protocol_major == b[4]
            &&& h.protocol_minor == b[5]
            &&& h.encoding_major == b[6]
            &&& h.encoding_minor == b[7]
            &&& h.message_type == b[8]
            &&& h.compression_status == b[9]
            &&& h.message_size == i32_of_le(b[10], b[11], b[12], b[13])
        },
{
}

/// An identity is written name first, then category.
pub proof fn lemma_identity_layout(v: IdentityView)
    ensures
        identity_bytes(v) == string_bytes(v.name) + string_bytes(v.category),
        identity_bytes(v).subrange(0, string_bytes(v.name).len() as int) == string_bytes(v.name),
{
    assert(identity_bytes(v).subrange(0, string_bytes(v.name).len() as int) =~= string_bytes(
        v.name,
    ));
}

/// Reading an identity takes the first string as its name and the second as its
/// category.
pub proof fn lemma_identity_read(name: Seq<char>, category: Seq<char>, rest: Seq<u8>)
    requires
        string_bytes(name).len() + string_bytes(category).len() <= i32::MAX,
    ensures
        identity_outcome(string_bytes(name) + string_bytes(category) + rest, 0)
            == Outcome::Done(
            IdentityView { name: name, category: category },
            (string_bytes(name).len() + string_bytes(category).len()) as int,
        ),
{
    let v = IdentityView { name: name, category: category };
    lemma_identity_roundtrip(v, rest, 0);
}

/// Entries are written one after another, in order: the entries of `a + b` are those
/// of `a` followed by those of `b`.
pub proof fn lemma_pairs_concat(a: Seq<Entry>, b: Seq<Entry>)
    ensures
        pairs_bytes(a + b) == pairs_bytes(a) + pairs_bytes(b),
    decreases b.len(),
{
    if b.len() == 0 {
        assert(a + b =~= a);
        assert(pairs_bytes(a) + Seq::<u8>::empty() =~= pairs_bytes(a));
    } else {
        lemma_pairs_concat(a, b.drop_last());
        assert((a + b).drop_last() =~= a + b.drop_last());
        assert((a + b).last() == b.last());
        assert(pairs_bytes(a + b) =~= pairs_bytes(a) + pairs_bytes(b));
    }
}

/// A dictionary is written as its number of entries, then each entry as its key
/// followed by its value.
pub proof fn lemma_dict_layout(k: Seq<char>, v: Seq<char>, e: Seq<Entry>)
    ensures
        pairs_bytes(seq![(k, v)]) == string_bytes(k) + string_bytes(v),
        dict_bytes(e) == size_bytes(e.len() as i32) + pairs_bytes(e),
        pairs_bytes(e.push((k, v))) == pairs_bytes(e) + string_bytes(k) + string_bytes(v),
{
    assert(seq![(k, v)].drop_last() =~= Seq::<Entry>::empty());
    assert(pairs_bytes(seq![(k, v)].drop_last()) == Seq::<u8>::empty());
    assert(seq![(k, v)].last() == (k, v));
    assert(pairs_bytes(seq![(k, v)]) == Seq::<u8>::empty() + string_bytes(k) + string_bytes(v));
    assert(Seq::<u8>::empty() + string_bytes(k) + string_bytes(v) =~= string_bytes(k)
        + string_bytes(v));
    assert(e.push((k, v)) =~= e + seq![(k, v)]);
    lemma_pairs_concat(e, seq![(k, v)]);
    assert(pairs_bytes(e) + (string_bytes(k) + string_bytes(v)) =~= pairs_bytes(e)
        + string_bytes(k) + string_bytes(v));
}

/// Reading a dictionary of one entry takes its first string as the key and its second
/// as the value.
pub proof fn lemma_dict_read_entry(k: Seq<char>, v: Seq<char>, rest: Seq<u8>)
    requires
        1 + string_bytes(k).len() + string_bytes(v).len() <= i32::MAX,
    ensures
        dict_outcome(seq![1u8] + string_bytes(k) + string_bytes(v) + rest, 0) == Outcome::Done(
            seq![(k, v)],
            (1 + string_bytes(k).len() + string_bytes(v).len()) as int,
        ),
{
    let e = seq![(k, v)];
    lemma_dict_layout(k, v, Seq::empty());
    assert(keys_distinct(e));
    assert(size_bytes(1) == seq![1u8]);
    assert(dict_bytes(e) =~= seq![1u8] + string_bytes(k) + string_bytes(v));
    lemma_dict_roundtrip(e, rest, 0);
    assert(dict_bytes(e) + rest =~= seq![1u8] + string_bytes(k) + string_bytes(v) + rest);
}

/// A string is written as the number of its UTF-8 bytes, then those bytes; reading
/// takes the first size's worth of bytes after the size as the string.
pub proof fn lemma_string_layout(s: Seq<char>, rest: Seq<u8>)
    requires
        encode_utf8(s).len() <= i32::MAX - 5,
    ensures
        string_bytes(s) == size_bytes(encode_utf8(s).len() as i32) + encode_utf8(s),
        string_outcome(string_bytes(s) + rest, 0) == Outcome::Done(
            s,
            string_bytes(s).len() as int,
        ),
{
    lemma_size_layout(encode_utf8(s).len() as i32);
    lemma_string_roundtrip(s, rest, 0);
}

/// Strings are written one after another, in order: those of `a + b` are those of `a`
/// followed by those of `b`; a sequence of strings is its length, then its strings.
pub proof fn lemma_strings_in_order(a: Seq<Seq<char>>, b: Seq<Seq<char>>)
    ensures
        strings_bytes(a + b) == strings_bytes(a) + strings_bytes(b),
        string_seq_bytes(a) == size_bytes(a.len() as i32) + strings_bytes(a),
    decreases b.len(),
{
    if b.len() == 0 {
        assert(a + b =~= a);
        assert(strings_bytes(a) + Seq::<u8>::empty() =~= strings_bytes(a));
    } else {
        lemma_strings_in_order(a, b.drop_last());
        assert((a + b).drop_last() =~= a + b.drop_last());
        assert((a + b).last() == b.last());
        assert(strings_bytes(a + b) =~= strings_bytes(a) + strings_bytes(b));
    }
}

/// An encapsulation is written as its size in four bytes, its major and minor encoding
/// versions, then its payload; reading takes the fields from the same places.
pub proof fn lemma_encapsulation_layout(v: EncapsulationView, b: Seq<u8>, at: i32)
    ensures
        encapsulation_bytes(v).subrange(0, 4) == le_i32(v.size),
        encapsulation_bytes(v)[4] == v.major,
        encapsulation_bytes(v)[5] == v.minor,
        encapsulation_bytes(v).subrange(6, encapsulation_bytes(v).len() as int) == v.data,
        encapsulation_outcome(b, at) matches Outcome::Done(e, _) ==> {
            &&& e.size == i32_of_le(b[0], b[1], b[2], b[3])
            &&& e.major == b[4]
            &&& e.minor == b[5]
            &&& e.data == b.subrange(6, b.len() as int)
        },
{
    lemma_le_i32_roundtrip(v.size);
    let w = encapsulation_bytes(v);
    assert(w.subrange(0, 4) =~= le_i32(v.size));
    assert(w.subrange(6, w.len() as int) =~= v.data);
}

/// A reply is written as its request id in four bytes, its status, then its body;
/// reading takes the request id and the status from the same places.
pub proof fn lemma_reply_layout(v: ReplyView, b: Seq<u8>, at: i32)
    ensures
        reply_bytes(v).subrange(0, 4) == le_i32(v.request_id),
        reply_bytes(v)[4] == v.status,
        reply_bytes(v).subrange(5, reply_bytes(v).len() as int) == encapsulation_bytes(v.body),
        reply_outcome(b, at) matches Outcome::Done(r, _) ==> {
            &&& r.request_id == i32_of_le(b[0], b[1], b[2], b[3])
            &&& r.status == b[4]
        },
{
    lemma_le_i32_roundtrip(v.request_id);
    let w = reply_bytes(v);
    assert(w.subrange(0, 4) =~= le_i32(v.request_id));
    assert(w.subrange(5, w.len() as int) =~= encapsulation_bytes(v.body));
}

/// A request is written as its request id, its target's identity, its facet, its
/// operation, its mode, its context, then its parameters, each after the one before.
pub proof fn lemma_request_layout(v: RequestView)
    ensures
        request_bytes(v) == le_i32(v.request_id) + (identity_bytes(v.id) + (string_seq_bytes(
            v.facet,
        ) + (string_bytes(v.operation) + (seq![v.mode] + (dict_bytes(v.context)
            + encapsulation_bytes(v.params)))))),
{
    assert(request_bytes(v) =~= le_i32(v.request_id) + (identity_bytes(v.id) + (
    string_seq_bytes(v.facet) + (string_bytes(v.operation) + (seq![v.mode] + (dict_bytes(
        v.context,
    ) + encapsulation_bytes(v.params)))))));
}

/// A 16-bit integer is written least significant byte first.
pub proof fn lemma_le_i16_layout(n: i16)
    ensures
        le_i16(n).len() == 2,
        le_i16(n)[0] == (n as u16) % 256,
        le_i16(n)[1] == (n as u16) / 256,
{
    let u = n as u16;
    assert((u as u8) as u16 == u % 256) by (bit_vector);
    assert(((u >> 8u16) as u8) as u16 == u / 256) by (bit_vector);
}

/// A 64-bit integer is written least significant byte first: its first byte is its
/// lowest eight bits and its last byte its highest.
pub proof fn lemma_le_i64_layout(n: i64)
    ensures
        le_i64(n).len() == 8,
        le_i64(n)[0] == (n as u64) % 256,
        le_i64(n)[1] == ((n as u64) / 256) % 256,
        le_i64(n)[7] == (n as u64) / 72057594037927936,
{
    let u = n as u64;
    assert((u as u8) as u64 == u % 256) by (bit_vector);
    assert(((u >> 8u64) as u8) as u64 == (u / 256) % 256) by (bit_vector);
    assert(((u >> 56u64) as u8) as u64 == u / 72057594037927936) by (bit_vector);
}

/// A boolean is written as 1 for true and 0 for false; any non-zero byte reads as true.
pub proof fn lemma_bool_layout(b: u8, rest: Seq<u8>)
    ensures
        bool_bytes(true) == seq![1u8],
        bool_bytes(false) == seq![0u8],
        bool_outcome(seq![b] + rest, 0) == Outcome::Done(b != 0, 1),
{
    assert((seq![b] + rest)[0] == b);
}

/// A payload is encapsulated with encoding 1.1, its size counting the six header bytes.
pub proof fn lemma_encapsulation_of(payload: Seq<u8>)
    requires
        payload.len() + 6 <= i32::MAX,
    ensures
        encapsulation_of(payload).size == payload.len() + 6,
        encapsulation_of(payload).major == 1,
        encapsulation_of(payload).minor == 1,
        encapsulation_of(payload).data == payload,
{
}

} // verus!
