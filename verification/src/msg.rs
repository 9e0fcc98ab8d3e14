//! Control messages and the request/acknowledgement rules.
//!
//! The messages travel encoded (MessagePack); encoding and decoding them is
//! done where the transport is, on copies of these types.

use vstd::prelude::*;
use crate::id::{is_identifier, random_identifier};

verus! {

/// The kinds of request a client sends over datagrams.
#[derive(Clone, Copy, Debug, PartialEq, Eq, Structural)]
pub enum MsgType {
    /// Subscribe the connection to a channel (the wire name keeps this spelling).
    Subcribe,
}

/// A request: its transaction id, its kind and its encoded payload.
#[derive(Clone, Debug)]
pub struct MsgRequest {
    pub tid: String,
    pub msg_type: MsgType,
    pub payload: Vec<u8>,
}

/// The first packet of every stream: which channel it belongs to and its id.
#[derive(Clone, Debug)]
pub struct MsgOpenStream {
    pub channel: String,
    pub stream_id: String,
}

/// The payload of a subscription request.
#[derive(Clone, Debug)]
pub struct MsgSubscribeStream {
    pub channel: String,
}

/// The answer to a request: the request's transaction id and an error text,
/// empty when the request was accepted.
#[derive(Clone, Debug)]
pub struct MsgAck {
    pub tid: String,
    pub error: String,
}

/// Why a request was not acknowledged.
#[derive(Clone, Debug, PartialEq, Eq)]
pub enum RequestError {
    /// The acknowledgement answers another request.
    TidMismatched,
    /// The peer refused the request with this text.
    Rejected(String),
}

/// `ack` accepts the request whose transaction id is `tid`.
pub open spec fn accepts(ack: MsgAck, tid: Seq<char>) -> bool {
    ack.tid@ == tid && ack.error@.len() == 0
}

impl MsgRequest {
    /// A request of kind `msg_type` carrying `payload`, under a fresh
    /// transaction id.
    pub fn new(msg_type: MsgType, payload: Vec<u8>) -> (req: MsgRequest)
        ensures
            req.msg_type == msg_type,
            req.payload@ == payload@,
            is_identifier(req.tid@),
    {
        MsgRequest { tid: random_identifier(), msg_type, payload }
    }
}

impl MsgOpenStream {
    /// The announcement of a new stream published on `channel`, under a fresh
    /// stream id.
    pub fn announce(channel: &String) -> (m: MsgOpenStream)
        ensures
            m.channel@ == channel@,
            is_identifier(m.stream_id@),
    {
        MsgOpenStream { channel: channel.clone(), stream_id: random_identifier() }
    }
}

impl MsgAck {
    /// The acknowledgement that accepts the request with transaction id `tid`.
    pub fn accept(tid: &String) -> (ack: MsgAck)
        ensures
            ack.tid@ == tid@,
            ack.error@ == Seq::<char>::empty(),
    {
        MsgAck { tid: tid.clone(), error: String::new() }
    }

    /// Checks that this acknowledgement answers the request with transaction
    /// id `tid` and accepts it.
    pub fn check(&self, tid: &String) -> (r: Result<(), RequestError>)
        ensures
            self.tid@ != tid@ ==> r == Err::<(), RequestError>(RequestError::TidMismatched),
            self.tid@ == tid@ && self.error@.len() > 0 ==> (r matches Err(
                RequestError::Rejected(e),
            ) && e@ == self.error@),
            r is Ok <==> accepts(*self, tid@),
    {
        if self.tid != *tid {
            return Err(RequestError::TidMismatched);
        }
        if !self.error.as_str().is_empty() {
            return Err(RequestError::Rejected(self.error.clone()));
        }
        Ok(())
    }
}

impl RequestError {
    /// The text that describes the error.
    pub fn message(&self) -> (s: String)
        ensures
            self is TidMismatched ==> s@ == "tid mismatched"@,
            (self matches RequestError::Rejected(e) ==> s@ == e@),
    {
        match self {
            RequestError::TidMismatched => "tid mismatched".to_owned(),
            RequestError::Rejected(e) => e.clone(),
        }
    }
}

/// A request is accepted by the acknowledgement that the receiving side
/// builds for it: what `MsgAck::accept` returns for a request's transaction
/// id passes `MsgAck::check` against that id.
pub proof fn lemma_acknowledgement_accepted(req: MsgRequest, ack: MsgAck)
    requires
        ack.tid@ == req.tid@,
        ack.error@ == Seq::<char>::empty(),
    ensures
        accepts(ack, req.tid@),
{
}

/// An acknowledgement for another request is never taken as accepting this
/// one, whatever its error text.
pub proof fn lemma_foreign_acknowledgement_refused(tid: Seq<char>, ack: MsgAck)
    requires
        ack.tid@ != tid,
    ensures
        !accepts(ack, tid),
{
}

} // verus!
