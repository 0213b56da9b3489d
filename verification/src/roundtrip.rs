use vstd::prelude::*;
use vstd::utf8::*;

use crate::encoding::{
    bool_bytes, bool_outcome, encapsulation_bytes, encapsulation_outcome, header_bytes,
    header_outcome, i64_of_le, identity_bytes, identity_outcome, int_outcome, le_i16, le_i32,
    le_i64, lemma_le_i16_roundtrip, lemma_le_i32_roundtrip, lemma_le_i64_roundtrip,
    lemma_string_roundtrip, long_outcome, reply_bytes, reply_outcome, short_outcome,
    string_bytes, Outcome, byte_outcome, dict_bytes, from_position, lemma_dict_roundtrip,
    lemma_string_seq_roundtrip, request_bytes, request_outcome, string_outcome,
    string_seq_bytes, string_seq_outcome, dict_outcome, request_params_outcome,
    request_tail_outcome,
};
use crate::dict::{keys_distinct, Dict};
use crate::encoding::{AsEncapsulation, FromEncapsulation};
use crate::protocol::{
    EncapsulationView, HeaderView, IdentityView, MessageView, ReplyView, RequestView,
};
use crate::transport::{
    client_header, message_outcome, request_frame_bytes, REPLY_MESSAGE, REQUEST_MESSAGE,
    VALIDATE_CONNECTION_MESSAGE,
};

verus! {

/// A 16-bit integer reads back from its encoding, whatever follows it.
pub proof fn lemma_short_roundtrip(n: i16, rest: Seq<u8>, at: i32)
    requires
        at + 2 <= i32::MAX,
    ensures
        short_outcome(le_i16(n) + rest, at) == Outcome::Done(n, 2),
{
    lemma_le_i16_roundtrip(n);
    let b = le_i16(n) + rest;
    assert(b[0] == le_i16(n)[0] && b[1] == le_i16(n)[1]);
}

/// A 32-bit integer reads back from its encoding, whatever follows it.
pub proof fn lemma_int_roundtrip(n: i32, rest: Seq<u8>, at: i32)
    requires
        at + 4 <= i32::MAX,
    ensures
        int_outcome(le_i32(n) + rest, at) == Outcome::Done(n, 4),
{
    lemma_le_i32_roundtrip(n);
    let b = le_i32(n) + rest;
    assert(b[0] == le_i32(n)[0] && b[1] == le_i32(n)[1] && b[2] == le_i32(n)[2] && b[3]
        == le_i32(n)[3]);
}

/// A 64-bit integer reads back from its encoding, whatever follows it.
pub proof fn lemma_long_roundtrip(n: i64, rest: Seq<u8>, at: i32)
    requires
        at + 8 <= i32::MAX,
    ensures
        long_outcome(le_i64(n) + rest, at) == Outcome::Done(n, 8),
{
    lemma_le_i64_roundtrip(n);
    let b = le_i64(n) + rest;
    assert(b.subrange(0, 8) =~= le_i64(n));
    assert(i64_of_le(b) == i64_of_le(le_i64(n))) by {
        assert(forall|i: int| 0 <= i < 8 ==> b[i] == le_i64(n)[i]);
    }
}

/// A boolean reads back from its encoding, whatever follows it.
pub proof fn lemma_bool_roundtrip(x: bool, rest: Seq<u8>, at: i32)
    requires
        at + 1 <= i32::MAX,
    ensures
        bool_outcome(bool_bytes(x) + rest, at) == Outcome::Done(x, 1),
{
    let b = bool_bytes(x) + rest;
    assert(b[0] == bool_bytes(x)[0]);
}

/// An identity reads back from its encoding, whatever follows it.
pub proof fn lemma_identity_roundtrip(v: IdentityView, rest: Seq<u8>, at: i32)
    requires
        at >= 0,
        at + identity_bytes(v).len() <= i32::MAX,
    ensures
        identity_outcome(identity_bytes(v) + rest, at) == Outcome::Done(
            v,
            identity_bytes(v).len() as int,
        ),
{
    let a = string_bytes(v.name);
    let c = string_bytes(v.category);
    let b = identity_bytes(v) + rest;
    assert(b =~= a + (c + rest));
    lemma_string_roundtrip(v.name, c + rest, 0);
    assert(b.subrange(a.len() as int, b.len() as int) =~= c + rest);
    lemma_string_roundtrip(v.category, rest, a.len() as i32);
}

/// An encapsulation reads back from its encoding; it takes the rest of the buffer as
/// its payload, so nothing may follow it.
pub proof fn lemma_encapsulation_roundtrip(v: EncapsulationView, at: i32)
    requires
        at >= 0,
        at + encapsulation_bytes(v).len() <= i32::MAX,
    ensures
        encapsulation_outcome(encapsulation_bytes(v), at) == Outcome::Done(
            v,
            encapsulation_bytes(v).len() as int,
        ),
{
    let b = encapsulation_bytes(v);
    lemma_le_i32_roundtrip(v.size);
    assert(b[0] == le_i32(v.size)[0] && b[1] == le_i32(v.size)[1] && b[2] == le_i32(v.size)[2]
        && b[3] == le_i32(v.size)[3]);
    assert(b.subrange(6, b.len() as int) =~= v.data);
}

/// A reply reads back from its encoding.
pub proof fn lemma_reply_roundtrip(v: ReplyView, at: i32)
    requires
        at >= 0,
        at + reply_bytes(v).len() <= i32::MAX,
    ensures
        reply_outcome(reply_bytes(v), at) == Outcome::Done(v, reply_bytes(v).len() as int),
{
    let b = reply_bytes(v);
    lemma_le_i32_roundtrip(v.request_id);
    assert(b[0] == le_i32(v.request_id)[0] && b[1] == le_i32(v.request_id)[1] && b[2] == le_i32(
        v.request_id,
    )[2] && b[3] == le_i32(v.request_id)[3]);
    assert(b.subrange(5, b.len() as int) =~= encapsulation_bytes(v.body));
    lemma_encapsulation_roundtrip(v.body, 5);
}

/// A header with the `IceP` magic reads back from its encoding, whatever follows it.
pub proof fn lemma_header_roundtrip(v: HeaderView, rest: Seq<u8>, at: i32)
    requires
        v.magic == "IceP"@,
        at + 14 <= i32::MAX,
    ensures
        header_bytes(v).len() == 14,
        header_outcome(header_bytes(v) + rest, at) == Outcome::Done(v, 14),
{
    broadcast use group_utf8_lib;

    reveal_strlit("IceP");
    let m = encode_utf8(v.magic);
    assert(is_ascii_chars(v.magic));
    assert(m.len() == 4);
    let b = header_bytes(v) + rest;
    assert(b.subrange(0, 4) =~= m);
    lemma_le_i32_roundtrip(v.message_size);
    let t = le_i32(v.message_size);
    assert(b[10] == t[0] && b[11] == t[1] && b[12] == t[2] && b[13] == t[3]);
}


/// The part of `pre + rest` after `pre` is `rest`.
pub proof fn lemma_from_position(pre: Seq<u8>, rest: Seq<u8>)
    ensures
        from_position(pre + rest, pre.len() as int) == rest,
{
    assert(from_position(pre + rest, pre.len() as int) =~= rest);
}

/// The request's parameters read back from the end of the buffer.
proof fn lemma_request_params_read_back(b: Seq<u8>, at: i32, v: RequestView, p: int)
    requires
        at >= 0,
        0 <= p <= b.len(),
        at + b.len() <= i32::MAX,
        from_position(b, p) == encapsulation_bytes(v.params),
    ensures
        request_params_outcome(b, at, v.request_id, v.id, v.facet, v.operation, v.mode, v.context, p)
            == Outcome::Done(v, b.len() as int),
{
    lemma_encapsulation_roundtrip(v.params, p as i32);
}

/// The tail of a buffer that holds `x + y` from position `p` on holds `y` from
/// position `p + x.len()` on.
pub proof fn lemma_from_position_step(b: Seq<u8>, p: int, x: Seq<u8>, y: Seq<u8>)
    requires
        0 <= p <= b.len(),
        from_position(b, p) == x + y,
    ensures
        from_position(b, p + x.len()) == y,
{
    assert(from_position(b, p).len() == b.len() - p);
    assert(b.len() - p == x.len() + y.len());
    assert(from_position(b, p + x.len()) =~= y) by {
        assert forall|i: int| 0 <= i < y.len() implies #[trigger] from_position(b, p + x.len())[i]
            == y[i] by {
            assert(from_position(b, p + x.len())[i] == b[p + x.len() + i]);
            assert(from_position(b, p)[x.len() + i] == b[p + x.len() + i]);
            assert(from_position(b, p)[x.len() + i] == (x + y)[x.len() + i]);
        }
    }
}

/// A request's fields after its identity read back from position `p` on.
#[verifier::rlimit(100)]
proof fn lemma_request_tail_read_back(b: Seq<u8>, at: i32, v: RequestView, p: int)
    requires
        keys_distinct(v.context),
        at >= 0,
        0 <= p <= b.len(),
        at + b.len() <= i32::MAX,
        from_position(b, p) == string_seq_bytes(v.facet) + (string_bytes(v.operation) + (seq![
            v.mode,
        ] + (dict_bytes(v.context) + encapsulation_bytes(v.params)))),
    ensures
        request_tail_outcome(b, at, v.request_id, v.id, p) == Outcome::Done(v, b.len() as int),
{
    let s6 = encapsulation_bytes(v.params);
    let s5 = dict_bytes(v.context) + s6;
    let s4 = seq![v.mode] + s5;
    let s3 = string_bytes(v.operation) + s4;
    let l2 = string_seq_bytes(v.facet).len() as int;
    let l3 = string_bytes(v.operation).len() as int;
    let l5 = dict_bytes(v.context).len() as int;
    let p3 = p + l2;
    let p4 = p3 + l3;
    let p5 = p4 + 1;
    let p6 = p5 + l5;
    assert(b.len() == p + l2 + l3 + 1 + l5 + s6.len()) by {
        assert(from_position(b, p).len() == b.len() - p);
    }
    assert(string_seq_outcome(from_position(b, p), p as i32) == Outcome::Done(v.facet, l2)) by {
        lemma_string_seq_roundtrip(v.facet, s3, p as i32);
    }
    lemma_from_position_step(b, p, string_seq_bytes(v.facet), s3);
    assert(string_outcome(from_position(b, p3), p3 as i32) == Outcome::Done(v.operation, l3)) by {
        lemma_string_roundtrip(v.operation, s4, p3 as i32);
    }
    lemma_from_position_step(b, p3, string_bytes(v.operation), s4);
    assert(from_position(b, p4)[0] == v.mode);
    lemma_from_position_step(b, p4, seq![v.mode], s5);
    assert(dict_outcome(from_position(b, p5), p5 as i32) == Outcome::Done(v.context, l5)) by {
        lemma_dict_roundtrip(v.context, s6, p5 as i32);
    }
    lemma_from_position_step(b, p5, dict_bytes(v.context), s6);
    lemma_request_params_read_back(b, at, v, p6);
}

/// A request reads back from its encoding.
#[verifier::rlimit(100)]
pub proof fn lemma_request_roundtrip(v: RequestView, at: i32)
    requires
        keys_distinct(v.context),
        at >= 0,
        at + request_bytes(v).len() <= i32::MAX,
    ensures
        request_outcome(request_bytes(v), at) == Outcome::Done(v, request_bytes(v).len() as int),
{
    let le = le_i32(v.request_id);
    let s2 = string_seq_bytes(v.facet) + (string_bytes(v.operation) + (seq![v.mode] + (dict_bytes(
        v.context,
    ) + encapsulation_bytes(v.params))));
    let s1 = identity_bytes(v.id) + s2;
    let b = request_bytes(v);
    assert(b =~= le + s1);
    lemma_int_roundtrip(v.request_id, s1, 0);
    lemma_from_position(le, s1);
    lemma_identity_roundtrip(v.id, s2, 4);
    let p2 = 4 + identity_bytes(v.id).len() as int;
    assert(b =~= (le + identity_bytes(v.id)) + s2);
    lemma_from_position(le + identity_bytes(v.id), s2);
    lemma_request_tail_read_back(b, at, v, p2);
}


/// Reading a string out of its own encapsulation gives the string back.
pub proof fn lemma_string_encapsulation_roundtrip(x: String)
    requires
        x.payload().len() <= i32::MAX,
    ensures
        <String as FromEncapsulation>::payload_outcome(x.payload()) == Outcome::Done(
            x@,
            x.payload().len() as int,
        ),
{
    assert(encode_utf8(x@).len() <= x.payload().len());
    lemma_string_roundtrip(x@, Seq::empty(), 0);
    assert(string_bytes(x@) + Seq::<u8>::empty() =~= string_bytes(x@));
}

/// Reading a sequence of strings out of its own encapsulation gives it back.
pub proof fn lemma_string_seq_encapsulation_roundtrip(x: Vec<String>)
    requires
        x.payload().len() <= i32::MAX,
    ensures
        <Vec<String> as FromEncapsulation>::payload_outcome(x.payload()) == Outcome::Done(
            x.deep_view(),
            x.payload().len() as int,
        ),
{
    lemma_string_seq_roundtrip(x.deep_view(), Seq::empty(), 0);
    assert(string_seq_bytes(x.deep_view()) + Seq::<u8>::empty() =~= string_seq_bytes(
        x.deep_view(),
    ));
}

/// Reading a dictionary out of its own encapsulation gives its entries back.
pub proof fn lemma_dict_encapsulation_roundtrip(x: Dict)
    requires
        keys_distinct(x.entries()),
        x.payload().len() <= i32::MAX,
    ensures
        <Dict as FromEncapsulation>::payload_outcome(x.payload()) == Outcome::Done(
            x.entries(),
            x.payload().len() as int,
        ),
{
    lemma_dict_roundtrip(x.entries(), Seq::empty(), 0);
    assert(dict_bytes(x.entries()) + Seq::<u8>::empty() =~= dict_bytes(x.entries()));
}

/// Reading fixed-width values and booleans out of their own encapsulation gives them back.
pub proof fn lemma_scalar_encapsulation_roundtrip(b: bool, s: i16, i: i32, l: i64)
    ensures
        <bool as FromEncapsulation>::payload_outcome(b.payload()) == Outcome::Done(b, 1),
        <i16 as FromEncapsulation>::payload_outcome(s.payload()) == Outcome::Done(s, 2),
        <i32 as FromEncapsulation>::payload_outcome(i.payload()) == Outcome::Done(i, 4),
        <i64 as FromEncapsulation>::payload_outcome(l.payload()) == Outcome::Done(l, 8),
{
    lemma_bool_roundtrip(b, Seq::empty(), 0);
    assert(bool_bytes(b) + Seq::<u8>::empty() =~= bool_bytes(b));
    lemma_short_roundtrip(s, Seq::empty(), 0);
    assert(le_i16(s) + Seq::<u8>::empty() =~= le_i16(s));
    lemma_int_roundtrip(i, Seq::empty(), 0);
    assert(le_i32(i) + Seq::<u8>::empty() =~= le_i32(i));
    lemma_long_roundtrip(l, Seq::empty(), 0);
    assert(le_i64(l) + Seq::<u8>::empty() =~= le_i64(l));
}

/// A reply message reads back as the header and the reply it was written from.
pub proof fn lemma_reply_message_roundtrip(h: HeaderView, r: ReplyView)
    requires
        h.magic == "IceP"@,
        h.message_type == REPLY_MESSAGE,
        14 + reply_bytes(r).len() <= i32::MAX,
    ensures
        message_outcome(header_bytes(h) + reply_bytes(r)) == Outcome::Done(
            MessageView::Reply(h, r),
            14 + reply_bytes(r).len() as int,
        ),
{
    let b = header_bytes(h) + reply_bytes(r);
    lemma_header_roundtrip(h, reply_bytes(r), 0);
    assert(b.subrange(14, b.len() as int) =~= reply_bytes(r));
    lemma_reply_roundtrip(r, 14);
}

/// A connection validation message reads back as the header it was written from.
pub proof fn lemma_validation_message_roundtrip(h: HeaderView)
    requires
        h.magic == "IceP"@,
        h.message_type == VALIDATE_CONNECTION_MESSAGE,
    ensures
        message_outcome(header_bytes(h)) == Outcome::Done(MessageView::ValidateConnection(h), 14),
{
    lemma_header_roundtrip(h, Seq::empty(), 0);
    assert(header_bytes(h) + Seq::<u8>::empty() =~= header_bytes(h));
}

/// A request frame announces its own length in a request header, and what follows the
/// header reads back as the request.
pub proof fn lemma_request_frame(r: RequestView)
    requires
        keys_distinct(r.context),
        14 + request_bytes(r).len() <= i32::MAX,
    ensures
        request_frame_bytes(r).len() == 14 + request_bytes(r).len(),
        header_outcome(request_frame_bytes(r), 0) == Outcome::Done(
            client_header(REQUEST_MESSAGE, request_frame_bytes(r).len() as i32),
            14,
        ),
        request_outcome(from_position(request_frame_bytes(r), 14), 14) == Outcome::Done(
            r,
            request_bytes(r).len() as int,
        ),
{
    let h = client_header(REQUEST_MESSAGE, (14 + request_bytes(r).len()) as i32);
    lemma_header_roundtrip(h, request_bytes(r), 0);
    assert(from_position(request_frame_bytes(r), 14) =~= request_bytes(r));
    lemma_request_roundtrip(r, 14);
}

} // verus!
