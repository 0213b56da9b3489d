use vstd::prelude::*;

use crate::encoding::{
    header_bytes, header_outcome, reply_outcome, request_bytes, AsBytes, FromBytes, Outcome,
};
use crate::errors::Error;
use crate::protocol::{
    Header, HeaderView, MessageType, MessageView, ReplyData, RequestData, RequestView,
};

verus! {

/// A connection that carries protocol messages.
///
/// Each implementation may say, by its relations `sends` and `receives`, which
/// outcomes of its calls are possible from which states, and then proves that its
/// methods keep to them; one that says nothing allows every outcome.
pub trait Transport {
    /// Sending `request` from state `self` may end in state `after` with `result`.
    open spec fn sends(&self, after: &Self, request: RequestView, result: Result<(), Error>) -> bool {
        true
    }

    /// Reading a message in state `self` may end in state `after` with `result`.
    open spec fn receives(&self, after: &Self, result: Result<MessageType, Error>) -> bool {
        true
    }

    /// Reads the next message from the peer.
    fn read_message(&mut self) -> (r: Result<MessageType, Error>)
        ensures
            old(self).receives(final(self), r),
    ;

    /// Sends the message that validates the connection.
    fn validate_connection(&mut self) -> Result<(), Error>;

    /// Sends a request.
    fn make_request(&mut self, request: &RequestData) -> (r: Result<(), Error>)
        ensures
            old(self).sends(final(self), request@, r),
    ;
}

/// The message type of a request.
pub const REQUEST_MESSAGE: u8 = 0;

/// The message type of a reply.
pub const REPLY_MESSAGE: u8 = 2;

/// The message type of a connection validation.
pub const VALIDATE_CONNECTION_MESSAGE: u8 = 3;

/// The header a client sends: protocol and encoding 1.1, the given type and size.
pub open spec fn client_header(message_type: u8, message_size: i32) -> HeaderView {
    HeaderView {
        magic: "IceP"@,
        protocol_major: 1,
        protocol_minor: 1,
        encoding_major: 1,
        encoding_minor: 1,
        message_type: message_type,
        compression_status: 0,
        message_size: message_size,
    }
}

/// What reading a message from received bytes yields: a header, then for a reply its
/// body; a connection validation has no body; any other type is a protocol error.
pub open spec fn message_outcome(b: Seq<u8>) -> Outcome<MessageView> {
    match header_outcome(b, 0) {
        Outcome::Done(h, n) => if h.message_type == 2 {
            match reply_outcome(b.subrange(n, b.len() as int), n as i32) {
                Outcome::Done(r, m) => Outcome::Done(MessageView::Reply(h, r), n + m),
                Outcome::Fail(e) => Outcome::Fail(e),
                Outcome::Stuck => Outcome::Stuck,
            }
        } else if h.message_type == 3 {
            Outcome::Done(MessageView::ValidateConnection(h), n)
        } else {
            Outcome::Fail(Error::ProtocolError)
        },
        Outcome::Fail(e) => Outcome::Fail(e),
        Outcome::Stuck => Outcome::Stuck,
    }
}

/// Decoding a message of fewer than `i32::MAX - 32` bytes never overflows a position:
/// it either gives a message or reports an error.
pub proof fn lemma_message_never_stuck(b: Seq<u8>)
    requires
        b.len() + 32 <= i32::MAX,
    ensures
        !(message_outcome(b) is Stuck),
{
}

/// Decodes a message received from the peer.
pub fn parse_message(bytes: &[u8]) -> (r: Result<MessageType, Error>)
    requires
        !(message_outcome(bytes@) is Stuck),
    ensures
        match message_outcome(bytes@) {
            Outcome::Done(m, _) => r matches Ok(x) && x@ == m,
            Outcome::Fail(e) => r == Err::<MessageType, Error>(e),
            Outcome::Stuck => true,
        },
{
    let mut read: i32 = 0;
    let header = match Header::from_bytes(bytes, &mut read) {
        Ok(h) => h,
        Err(e) => return Err(e),
    };
    if header.message_type == REPLY_MESSAGE {
        let rest = &bytes[read as usize..bytes.len()];
        let reply = match ReplyData::from_bytes(rest, &mut read) {
            Ok(r) => r,
            Err(e) => return Err(e),
        };
        Ok(MessageType::Reply(header, reply))
    } else if header.message_type == VALIDATE_CONNECTION_MESSAGE {
        Ok(MessageType::ValidateConnection(header))
    } else {
        Err(Error::ProtocolError)
    }
}

/// Accepts a new connection when the first message from the server validates it; any
/// other message fails the connection.
pub fn accept_connection(first: MessageType) -> (r: Result<Header, Error>)
    ensures
        match first@ {
            MessageView::ValidateConnection(h) => r matches Ok(x) && x@ == h,
            _ => r == Err::<Header, Error>(Error::TcpError),
        },
{
    match first {
        MessageType::ValidateConnection(header) => Ok(header),
        _ => Err(Error::TcpError),
    }
}

/// The bytes that validate a connection: a bare header of fourteen bytes.
pub fn validation_frame() -> (bytes: Vec<u8>)
    ensures
        bytes@ == header_bytes(client_header(REQUEST_MESSAGE, 14)),
{
    let header = Header::new(REQUEST_MESSAGE, 14);
    match header.as_bytes() {
        Ok(b) => b,
        Err(_) => Vec::new(),
    }
}

/// The frame that carries a request: a request header announcing the frame's size,
/// then the request.
pub open spec fn request_frame_bytes(r: RequestView) -> Seq<u8> {
    header_bytes(client_header(REQUEST_MESSAGE, (14 + request_bytes(r).len()) as i32))
        + request_bytes(r)
}

/// The bytes that carry a request: a header announcing the total size, then the
/// request.
pub fn request_frame(request: &RequestData) -> (bytes: Vec<u8>)
    requires
        14 + request_bytes(request@).len() <= i32::MAX,
    ensures
        bytes@ == request_frame_bytes(request@),
{
    let req_bytes = match request.as_bytes() {
        Ok(b) => b,
        Err(_) => Vec::new(),
    };
    let len = #[verifier::truncate] (req_bytes.len() as i32);
    let header = Header::new(REQUEST_MESSAGE, 14 + len);
    let mut bytes = match header.as_bytes() {
        Ok(b) => b,
        Err(_) => Vec::new(),
    };
    crate::encoding::append_bytes(&mut bytes, req_bytes.as_slice());
    bytes
}

} // verus!
