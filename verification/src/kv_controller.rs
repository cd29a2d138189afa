//! The request/response surface: which status and which body answer each
//! outcome of a write, a conditional write and a read.
//!
//! Routing and serialisation are left to the front end. It hands in the
//! request and the outcome, and sends what these functions return.

use vstd::prelude::*;
use crate::error::KvError;
use crate::kv::{KeyValue, KeyValueCas};

verus! {

/// The body that answers a successful request.
#[derive(Debug)]
pub struct KeyValueResponse {
    pub key: String,
    pub value: u64,
    pub decided_idx: u64,
}

/// The mathematical content of a `KeyValueResponse`.
pub struct KeyValueResponseView {
    pub key: Seq<char>,
    pub value: u64,
    pub decided_idx: u64,
}

impl View for KeyValueResponse {
    type V = KeyValueResponseView;

    open spec fn view(&self) -> KeyValueResponseView {
        KeyValueResponseView { key: self.key@, value: self.value, decided_idx: self.decided_idx }
    }
}

impl Clone for KeyValueResponse {
    fn clone(&self) -> (r: Self)
        ensures
            r@ == self@,
    {
        KeyValueResponse {
            key: self.key.clone(),
            value: self.value,
            decided_idx: self.decided_idx,
        }
    }
}

/// 200 OK.
pub const STATUS_OK: u16 = 200;

/// 201 Created.
pub const STATUS_CREATED: u16 = 201;

/// 400 Bad Request.
pub const STATUS_BAD_REQUEST: u16 = 400;

/// 404 Not Found.
pub const STATUS_NOT_FOUND: u16 = 404;

/// 500 Internal Server Error.
pub const STATUS_INTERNAL_ERROR: u16 = 500;

/// 503 Service Unavailable.
pub const STATUS_UNAVAILABLE: u16 = 503;

/// 504 Gateway Timeout.
pub const STATUS_TIMEOUT: u16 = 504;

/// What a response carries besides its status.
pub enum ReplyBody {
    /// Nothing.
    Empty,
    /// A key with its value and decided index.
    Entry(KeyValueResponse),
    /// An explanatory message.
    Message(String),
}

/// The mathematical content of a `ReplyBody`.
pub enum ReplyBodyView {
    Empty,
    Entry(KeyValueResponseView),
    Message(Seq<char>),
}

impl View for ReplyBody {
    type V = ReplyBodyView;

    open spec fn view(&self) -> ReplyBodyView {
        match self {
            ReplyBody::Empty => ReplyBodyView::Empty,
            ReplyBody::Entry(response) => ReplyBodyView::Entry(response@),
            ReplyBody::Message(text) => ReplyBodyView::Message(text@),
        }
    }
}

/// A response: its status code and its body.
pub struct HttpReply {
    pub status: u16,
    pub body: ReplyBody,
}

/// The mathematical content of an `HttpReply`.
pub struct HttpReplyView {
    pub status: u16,
    pub body: ReplyBodyView,
}

impl View for HttpReply {
    type V = HttpReplyView;

    open spec fn view(&self) -> HttpReplyView {
        HttpReplyView { status: self.status, body: self.body@ }
    }
}

/// The status that answers an error.
pub open spec fn error_status(error: KvError) -> u16 {
    match error {
        KvError::NotFound => STATUS_NOT_FOUND,
        KvError::Conflict => STATUS_BAD_REQUEST,
        KvError::Unavailable => STATUS_UNAVAILABLE,
        KvError::Timeout => STATUS_TIMEOUT,
        KvError::PeerUnreachable => STATUS_INTERNAL_ERROR,
        KvError::RecoveryFailed => STATUS_INTERNAL_ERROR,
    }
}

/// The response that answers an error: its status, and its message as the
/// body. A missing key is answered without a body.
pub open spec fn error_reply(error: KvError) -> HttpReplyView {
    HttpReplyView {
        status: error_status(error),
        body: if error == KvError::NotFound {
            ReplyBodyView::Empty
        } else {
            ReplyBodyView::Message(error.message_text())
        },
    }
}

/// The status that answers an error.
pub fn status_of(error: KvError) -> (status: u16)
    ensures
        status == error_status(error),
{
    match error {
        KvError::NotFound => STATUS_NOT_FOUND,
        KvError::Conflict => STATUS_BAD_REQUEST,
        KvError::Unavailable => STATUS_UNAVAILABLE,
        KvError::Timeout => STATUS_TIMEOUT,
        KvError::PeerUnreachable => STATUS_INTERNAL_ERROR,
        KvError::RecoveryFailed => STATUS_INTERNAL_ERROR,
    }
}

/// The response that answers an error.
pub fn reply_error(error: KvError) -> (reply: HttpReply)
    ensures
        reply@ == error_reply(error),
{
    let body = match error {
        KvError::NotFound => ReplyBody::Empty,
        _ => ReplyBody::Message(error.message().to_owned()),
    };
    HttpReply { status: status_of(error), body }
}

/// What answers a write of `request`, given how the write ended.
pub open spec fn create_reply(request: crate::kv::KeyValueView, outcome: Result<u64, KvError>)
    -> HttpReplyView {
    match outcome {
        Ok(decided_idx) => HttpReplyView {
            status: STATUS_CREATED,
            body: ReplyBodyView::Entry(
                KeyValueResponseView { key: request.key, value: request.value, decided_idx },
            ),
        },
        Err(error) => error_reply(error),
    }
}

/// Answers a write: 201 with the key, the value and the decided index that
/// the entry was given; the status of the error where the write failed.
pub fn create(kv_req: KeyValue, outcome: Result<u64, KvError>) -> (reply: HttpReply)
    ensures
        reply@ == create_reply(kv_req@, outcome),
{
    match outcome {
        Ok(decided_idx) => HttpReply {
            status: STATUS_CREATED,
            body: ReplyBody::Entry(
                KeyValueResponse { key: kv_req.key, value: kv_req.value, decided_idx },
            ),
        },
        Err(error) => reply_error(error),
    }
}

/// What answers a conditional write of `request`, given how it ended.
pub open spec fn cas_reply(request: crate::kv::KeyValueCasView, outcome: Result<u64, KvError>)
    -> HttpReplyView {
    match outcome {
        Ok(decided_idx) => HttpReplyView {
            status: STATUS_OK,
            body: ReplyBodyView::Entry(
                KeyValueResponseView { key: request.key, value: request.old_value, decided_idx },
            ),
        },
        Err(error) => error_reply(error),
    }
}

/// Answers a conditional write: 200 with the key, the value that was
/// replaced and the decided index of the new entry; 400 with an explanatory
/// message where the expectation did not match.
pub fn cas(kv_req: KeyValueCas, outcome: Result<u64, KvError>) -> (reply: HttpReply)
    ensures
        reply@ == cas_reply(kv_req@, outcome),
{
    match outcome {
        Ok(decided_idx) => HttpReply {
            status: STATUS_OK,
            body: ReplyBody::Entry(
                KeyValueResponse { key: kv_req.key, value: kv_req.old_value, decided_idx },
            ),
        },
        Err(error) => reply_error(error),
    }
}

/// What answers a read, given what the replica answered.
pub open spec fn get_reply(outcome: Result<KeyValueResponseView, KvError>) -> HttpReplyView {
    match outcome {
        Ok(response) => HttpReplyView { status: STATUS_OK, body: ReplyBodyView::Entry(response) },
        Err(error) => error_reply(error),
    }
}

/// Answers a read: 200 with the key, its value and the replica's decided
/// index; 404 without a body where the key is absent.
pub fn get(outcome: Result<KeyValueResponse, KvError>) -> (reply: HttpReply)
    ensures
        reply@ == get_reply(
            match outcome {
                Ok(response) => Ok(response@),
                Err(error) => Err(error),
            },
        ),
{
    match outcome {
        Ok(response) => HttpReply { status: STATUS_OK, body: ReplyBody::Entry(response) },
        Err(error) => reply_error(error),
    }
}

} // verus!
