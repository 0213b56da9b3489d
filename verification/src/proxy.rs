use vstd::prelude::*;

use crate::dict::{Dict, Entry};
use crate::errors::Error;
use crate::protocol::{
    Encapsulation, EncapsulationView, Identity, IdentityView, MessageType, MessageView, ReplyData,
    RequestData, RequestView,
};
use crate::transport::Transport;

verus! {

/// A handle on a remote object, reached through a transport; it numbers the
/// requests it creates.
pub struct Proxy<T: Transport> {
    pub transport: T,
    pub request_id: i32,
}

/// The request a proxy creates: for the named identity of empty category, with no
/// facet and an empty context.
pub open spec fn new_request(
    request_id: i32,
    identity_name: Seq<char>,
    operation: Seq<char>,
    mode: u8,
    params: EncapsulationView,
) -> RequestView {
    RequestView {
        request_id: request_id,
        id: IdentityView { name: identity_name, category: Seq::empty() },
        facet: Seq::empty(),
        operation: operation,
        mode: mode,
        context: Seq::<Entry>::empty(),
        params: params,
    }
}

/// The reply a message carries; any other message is a protocol error.
pub open spec fn reply_of_message(m: MessageView) -> Result<crate::protocol::ReplyView, Error> {
    match m {
        MessageView::Reply(_, r) => Ok(r),
        _ => Err(Error::ProtocolError),
    }
}

/// Takes the reply out of a message, or reports that the message was no reply.
pub fn reply_from_message(message: MessageType) -> (r: Result<ReplyData, Error>)
    ensures
        match reply_of_message(message@) {
            Ok(v) => r matches Ok(x) && x@ == v,
            Err(e) => r == Err::<ReplyData, Error>(e),
        },
{
    match message {
        MessageType::Reply(_header, reply) => Ok(reply),
        _ => Err(Error::ProtocolError),
    }
}

/// How a request made over a transport in state `before` may end, in state `after`
/// with result `r`: the request is sent; where sending fails, its error is the result;
/// else the next message is read, and where reading fails its error is the result, else
/// the reply that the message carries, or a protocol error where it carries none.
pub open spec fn request_ends<T: Transport>(
    before: T,
    after: T,
    request: RequestView,
    r: Result<ReplyData, Error>,
) -> bool {
    exists|mid: T, sent: Result<(), Error>|
        #![trigger before.sends(&mid, request, sent)]
        before.sends(&mid, request, sent) && match sent {
            Err(e) => r == Err::<ReplyData, Error>(e) && after == mid,
            Ok(_) => exists|m: Result<MessageType, Error>|
                #![trigger mid.receives(&after, m)]
                mid.receives(&after, m) && match m {
                    Err(e) => r == Err::<ReplyData, Error>(e),
                    Ok(msg) => match reply_of_message(msg@) {
                        Ok(v) => r matches Ok(x) && x@ == v,
                        Err(e) => r == Err::<ReplyData, Error>(e),
                    },
                },
        }
}

impl<T: Transport> Proxy<T> {
    /// A proxy over a connected transport; it has created no request yet.
    pub fn new(transport: T) -> (p: Proxy<T>)
        ensures
            p.transport == transport,
            p.request_id == 0,
    {
        Proxy { transport: transport, request_id: 0 }
    }

    /// Creates the next request: its id is one more than the last one.
    pub fn create_request(
        &mut self,
        identity_name: &str,
        operation: &str,
        mode: u8,
        params: Encapsulation,
    ) -> (r: RequestData)
        requires
            old(self).request_id < i32::MAX,
        ensures
            final(self).request_id == old(self).request_id + 1,
            final(self).transport == old(self).transport,
            r@ == new_request(final(self).request_id, identity_name@, operation@, mode, params@),
    {
        self.request_id = self.request_id + 1;
        let facet: Vec<String> = Vec::new();
        let r = RequestData {
            request_id: self.request_id,
            id: Identity { name: identity_name.to_owned(), category: String::new() },
            facet: facet,
            operation: operation.to_owned(),
            mode: mode,
            context: Dict::new(),
            params: params,
        };
        assert(r.facet.deep_view() =~= Seq::<Seq<char>>::empty());
        r
    }

    /// Sends a request and reads the reply; a message other than a reply is a
    /// protocol error.
    pub fn make_request(&mut self, request: &RequestData) -> (r: Result<ReplyData, Error>)
        ensures
            final(self).request_id == old(self).request_id,
            request_ends(old(self).transport, final(self).transport, request@, r),
    {
        let ghost before = self.transport;
        let sent = self.transport.make_request(request);
        let ghost mid = self.transport;
        assert(before.sends(&mid, request@, sent));
        match sent {
            Ok(()) => {},
            Err(e) => {
                return Err(e);
            },
        }
        let message = self.transport.read_message();
        let ghost after = self.transport;
        assert(mid.receives(&after, message));
        let message = match message {
            Ok(m) => m,
            Err(e) => {
                return Err(e);
            },
        };
        reply_from_message(message)
    }
}

} // verus!
