use vstd::prelude::*;

use crate::dict::{Dict, Entry};

verus! {

/// The fixed part that opens every protocol message.
#[derive(Debug)]
pub struct Header {
    pub magic: String,
    pub protocol_major: u8,
    pub protocol_minor: u8,
    pub encoding_major: u8,
    pub encoding_minor: u8,
    pub message_type: u8,
    pub compression_status: u8,
    pub message_size: i32,
}

/// The name and category of a remote object.
#[derive(Debug)]
pub struct Identity {
    pub name: String,
    pub category: String,
}

/// An encoded payload with its size and encoding version.
#[derive(Debug)]
pub struct Encapsulation {
    pub size: i32,
    pub major: u8,
    pub minor: u8,
    pub data: Vec<u8>,
}

/// The body of a request message.
#[derive(Debug)]
pub struct RequestData {
    pub request_id: i32,
    pub id: Identity,
    pub facet: Vec<String>,
    pub operation: String,
    pub mode: u8,
    pub context: Dict,
    pub params: Encapsulation,
}

/// The body of a reply message.
#[derive(Debug)]
pub struct ReplyData {
    pub request_id: i32,
    pub status: u8,
    pub body: Encapsulation,
}

/// The messages a client reads from a server.
#[derive(Debug)]
pub enum MessageType {
    Reply(Header, ReplyData),
    ValidateConnection(Header),
}

/// A header, as mathematical values.
pub struct HeaderView {
    pub magic: Seq<char>,
    pub protocol_major: u8,
    pub protocol_minor: u8,
    pub encoding_major: u8,
    pub encoding_minor: u8,
    pub message_type: u8,
    pub compression_status: u8,
    pub message_size: i32,
}

/// An identity, as characters.
pub struct IdentityView {
    pub name: Seq<char>,
    pub category: Seq<char>,
}

/// An encapsulation, as mathematical values.
pub struct EncapsulationView {
    pub size: i32,
    pub major: u8,
    pub minor: u8,
    pub data: Seq<u8>,
}

/// A request, as mathematical values.
pub struct RequestView {
    pub request_id: i32,
    pub id: IdentityView,
    pub facet: Seq<Seq<char>>,
    pub operation: Seq<char>,
    pub mode: u8,
    pub context: Seq<Entry>,
    pub params: EncapsulationView,
}

/// A message that a client reads, as mathematical values.
pub enum MessageView {
    Reply(HeaderView, ReplyView),
    ValidateConnection(HeaderView),
}

/// A reply, as mathematical values.
pub struct ReplyView {
    pub request_id: i32,
    pub status: u8,
    pub body: EncapsulationView,
}

impl View for Header {
    type V = HeaderView;

    open spec fn view(&self) -> HeaderView {
        HeaderView {
            magic: self.magic@,
            protocol_major: self.protocol_major,
            protocol_minor: self.protocol_minor,
            encoding_major: self.encoding_major,
            encoding_minor: self.encoding_minor,
            message_type: self.message_type,
            compression_status: self.compression_status,
            message_size: self.message_size,
        }
    }
}

impl View for Identity {
    type V = IdentityView;

    open spec fn view(&self) -> IdentityView {
        IdentityView { name: self.name@, category: self.category@ }
    }
}

impl View for Encapsulation {
    type V = EncapsulationView;

    open spec fn view(&self) -> EncapsulationView {
        EncapsulationView { size: self.size, major: self.major, minor: self.minor, data: self.data@ }
    }
}

impl View for RequestData {
    type V = RequestView;

    open spec fn view(&self) -> RequestView {
        RequestView {
            request_id: self.request_id,
            id: self.id@,
            facet: self.facet.deep_view(),
            operation: self.operation@,
            mode: self.mode,
            context: self.context.entries(),
            params: self.params@,
        }
    }
}

impl View for ReplyData {
    type V = ReplyView;

    open spec fn view(&self) -> ReplyView {
        ReplyView { request_id: self.request_id, status: self.status, body: self.body@ }
    }
}

impl View for MessageType {
    type V = MessageView;

    open spec fn view(&self) -> MessageView {
        match self {
            MessageType::Reply(h, r) => MessageView::Reply(h@, r@),
            MessageType::ValidateConnection(h) => MessageView::ValidateConnection(h@),
        }
    }
}

impl Header {
    /// A header of protocol and encoding 1.1, uncompressed, with the `IceP` magic.
    pub fn new(message_type: u8, message_size: i32) -> (h: Header)
        ensures
            h@ == (HeaderView {
                magic: "IceP"@,
                protocol_major: 1,
                protocol_minor: 1,
                encoding_major: 1,
                encoding_minor: 1,
                message_type: message_type,
                compression_status: 0,
                message_size: message_size,
            }),
    {
        Header {
            magic: "IceP".to_owned(),
            protocol_major: 1,
            protocol_minor: 1,
            encoding_major: 1,
            encoding_minor: 1,
            message_type: message_type,
            compression_status: 0,
            message_size: message_size,
        }
    }
}

impl Encapsulation {
    /// An encapsulation of encoding 1.1 with no payload.
    pub fn empty() -> (e: Encapsulation)
        ensures
            e@ == (EncapsulationView { size: 6, major: 1, minor: 1, data: Seq::empty() }),
    {
        let e = Encapsulation { size: 6, major: 1, minor: 1, data: Vec::new() };
        assert(e.data@ =~= Seq::<u8>::empty());
        e
    }
}

} // verus!
