use vstd::prelude::*;

use crate::encoding::{
    bool_outcome, checked, decode_bool, decode_string_checked, decode_string_seq_checked, decodes,
    encapsulation_of, encode_string, string_bytes, string_outcome, string_seq_outcome,
    AsEncapsulation,
};
use crate::errors::Error;
use crate::protocol::{Encapsulation, EncapsulationView, ReplyData};

verus! {

/// The mode of the operations every object answers.
pub const IDEMPOTENT: u8 = 1;

/// Reads the answer to `ice_isA` from a reply body.
pub fn is_a_from_reply(reply: &ReplyData) -> (r: Result<bool, Error>)
    ensures
        decodes(bool_outcome(reply.body.data@, 0), r),
{
    let mut read_bytes: i32 = 0;
    decode_bool(reply.body.data.as_slice(), &mut read_bytes)
}

/// Reads the answer to `ice_id` from a reply body; a body whose string would run
/// past its end cannot be decoded.
pub fn id_from_reply(reply: &ReplyData) -> (r: Result<String, Error>)
    ensures
        decodes(checked(string_outcome(reply.body.data@, 0)), r),
{
    let mut read_bytes: i32 = 0;
    decode_string_checked(reply.body.data.as_slice(), &mut read_bytes)
}

/// Reads the answer to `ice_ids` from a reply body; a body whose strings would run
/// past its end cannot be decoded.
pub fn ids_from_reply(reply: &ReplyData) -> (r: Result<Vec<String>, Error>)
    ensures
        decodes(checked(string_seq_outcome(reply.body.data@, 0)), r),
{
    let mut read_bytes: i32 = 0;
    decode_string_seq_checked(reply.body.data.as_slice(), &mut read_bytes)
}

/// The parameters of `ice_isA`: the type id, encapsulated; a type id too long for the
/// encapsulation size cannot be sent.
pub fn type_id_params(type_id: &str) -> (r: Result<Encapsulation, Error>)
    ensures
        6 + (string_bytes(type_id@).len() as i32) <= i32::MAX ==> (r matches Ok(e) && e@
            == encapsulation_of(string_bytes(type_id@))),
        6 + (string_bytes(type_id@).len() as i32) > i32::MAX ==> r == Err::<Encapsulation, Error>(
            Error::ProtocolError,
        ),
{
    let bytes = encode_string(type_id);
    let len = #[verifier::truncate] (bytes.len() as i32);
    if len > i32::MAX - 6 {
        return Err(Error::ProtocolError);
    }
    type_id.as_encapsulation()
}

/// The parameters of an operation that takes none: an empty encapsulation.
pub open spec fn no_params() -> EncapsulationView {
    EncapsulationView { size: 6, major: 1, minor: 1, data: Seq::empty() }
}

/// Whether a type id fits the size of the encapsulation that carries it.
pub open spec fn type_id_fits(type_id: Seq<char>) -> bool {
    6 + (string_bytes(type_id).len() as i32) <= i32::MAX
}

/// A remote object: the operations that every object answers, built on `dispatch`,
/// which sends an operation and returns the reply.
///
/// Each implementation may say, by its relation `answers`, which replies an operation
/// may get from which state, and then proves that `dispatch` keeps to it; one that
/// says nothing allows every reply.
pub trait IceObject {
    const TYPE_ID: &'static str;

    const NAME: &'static str;

    /// Sending operation `op` with `mode` and `params` in state `self` may end in
    /// state `after` with `result`.
    open spec fn answers(
        &self,
        after: &Self,
        op: Seq<char>,
        mode: u8,
        params: EncapsulationView,
        result: Result<ReplyData, Error>,
    ) -> bool {
        true
    }

    /// Sends `ice_ping`, idempotent, without parameters; succeeds when the reply comes.
    fn ice_ping(&mut self) -> (r: Result<(), Error>)
        default_ensures
            exists|reply: Result<ReplyData, Error>|
                #![trigger old(self).answers(final(self), "ice_ping"@, IDEMPOTENT, no_params(), reply)]
                old(self).answers(final(self), "ice_ping"@, IDEMPOTENT, no_params(), reply)
                    && match reply {
                    Ok(_) => r is Ok,
                    Err(e) => r == Err::<(), Error>(e),
                },
    {
        let params = Encapsulation::empty();
        assert(params@ == no_params());
        let reply = self.dispatch("ice_ping", IDEMPOTENT, &params);
        assert(old(self).answers(self, "ice_ping"@, IDEMPOTENT, no_params(), reply));
        match reply {
            Ok(_) => Ok(()),
            Err(e) => Err(e),
        }
    }

    /// Sends `ice_isA`, idempotent, with this type's id; reads a boolean from the reply.
    /// A type id too long for its encapsulation is not sent.
    fn ice_is_a(&mut self) -> (r: Result<bool, Error>)
        default_ensures
            !type_id_fits(Self::TYPE_ID@) ==> r == Err::<bool, Error>(Error::ProtocolError)
                && &*final(self) == &*old(self),
            type_id_fits(Self::TYPE_ID@) ==> exists|reply: Result<ReplyData, Error>|
                #![trigger old(self).answers(final(self), "ice_isA"@, IDEMPOTENT, encapsulation_of(string_bytes(Self::TYPE_ID@)), reply)]
                old(self).answers(
                    final(self),
                    "ice_isA"@,
                    IDEMPOTENT,
                    encapsulation_of(string_bytes(Self::TYPE_ID@)),
                    reply,
                ) && match reply {
                    Ok(x) => decodes(bool_outcome(x.body.data@, 0), r),
                    Err(e) => r == Err::<bool, Error>(e),
                },
    {
        let params = match type_id_params(Self::TYPE_ID) {
            Ok(p) => p,
            Err(e) => return Err(e),
        };
        let reply = match self.dispatch("ice_isA", IDEMPOTENT, &params) {
            Ok(r) => r,
            Err(e) => return Err(e),
        };
        is_a_from_reply(&reply)
    }

    /// Sends `ice_id`, idempotent, without parameters; reads a string from the reply.
    fn ice_id(&mut self) -> (r: Result<String, Error>)
        default_ensures
            exists|reply: Result<ReplyData, Error>|
                #![trigger old(self).answers(final(self), "ice_id"@, IDEMPOTENT, no_params(), reply)]
                old(self).answers(final(self), "ice_id"@, IDEMPOTENT, no_params(), reply)
                    && match reply {
                    Ok(x) => decodes(checked(string_outcome(x.body.data@, 0)), r),
                    Err(e) => r == Err::<String, Error>(e),
                },
    {
        let params = Encapsulation::empty();
        assert(params@ == no_params());
        let reply = self.dispatch("ice_id", IDEMPOTENT, &params);
        assert(old(self).answers(self, "ice_id"@, IDEMPOTENT, no_params(), reply));
        let reply = match reply {
            Ok(r) => r,
            Err(e) => return Err(e),
        };
        id_from_reply(&reply)
    }

    /// Sends `ice_ids`, idempotent, without parameters; reads strings from the reply.
    fn ice_ids(&mut self) -> (r: Result<Vec<String>, Error>)
        default_ensures
            exists|reply: Result<ReplyData, Error>|
                #![trigger old(self).answers(final(self), "ice_ids"@, IDEMPOTENT, no_params(), reply)]
                old(self).answers(final(self), "ice_ids"@, IDEMPOTENT, no_params(), reply)
                    && match reply {
                    Ok(x) => decodes(checked(string_seq_outcome(x.body.data@, 0)), r),
                    Err(e) => r == Err::<Vec<String>, Error>(e),
                },
    {
        let params = Encapsulation::empty();
        assert(params@ == no_params());
        let reply = self.dispatch("ice_ids", IDEMPOTENT, &params);
        assert(old(self).answers(self, "ice_ids"@, IDEMPOTENT, no_params(), reply));
        let reply = match reply {
            Ok(r) => r,
            Err(e) => return Err(e),
        };
        ids_from_reply(&reply)
    }

    /// Sends operation `op` with the given mode and parameters; returns the reply.
    fn dispatch(&mut self, op: &str, mode: u8, params: &Encapsulation) -> (r: Result<
        ReplyData,
        Error,
    >)
        ensures
            old(self).answers(final(self), op@, mode, params@, r),
    ;
}

} // verus!
