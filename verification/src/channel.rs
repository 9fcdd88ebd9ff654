//! An agent's side of the control channel: what to do with the bytes that
//! have arrived so far, and with the response they carry.
//!
//! The host reads from the socket into a buffer and asks `next_frame` after
//! every read; it turns the payload into a `Response` and asks `pull_reply`
//! or `report_reply` what the response means.

use crate::buffer::{buffer_bytes, buffer_len};
use crate::codec::{decode, decoded, remainder, DecodeError, Key, HEADER_LEN};
use crate::object::{Response, ResponseView};
use bytes::BytesMut;
use vstd::prelude::*;

verus! {

/// What a receive buffer yields.
#[derive(Debug, Clone, PartialEq, Eq)]
pub enum Step {
    /// No whole frame yet: read more.
    NeedMore,
    /// A whole frame that is not valid: drop the connection.
    Invalid,
    /// The payload of the first frame, which has left the buffer.
    Frame(Vec<u8>),
}

pub enum StepView {
    NeedMore,
    Invalid,
    Frame(Seq<u8>),
}

impl View for Step {
    type V = StepView;

    open spec fn view(&self) -> StepView {
        match self {
            Step::NeedMore => StepView::NeedMore,
            Step::Invalid => StepView::Invalid,
            Step::Frame(p) => StepView::Frame(p@),
        }
    }
}

/// What the bytes `b` yield under `key`: nothing while they are no more
/// than a header, else what decoding them gives.
pub open spec fn stepped(b: Seq<u8>, key: Seq<u8>) -> StepView {
    if b.len() <= HEADER_LEN {
        StepView::NeedMore
    } else {
        match decoded(b, key) {
            Ok(p) => StepView::Frame(p),
            Err(DecodeError::NotEnoughData) => StepView::NeedMore,
            Err(DecodeError::InvalidData) => StepView::Invalid,
        }
    }
}

/// What is left of the bytes `b` after a step.
pub open spec fn unread(b: Seq<u8>) -> Seq<u8> {
    if b.len() <= HEADER_LEN {
        b
    } else {
        remainder(b)
    }
}

/// Takes the first frame out of `buf` where it holds more than a header
/// and a whole frame.
pub fn next_frame(buf: &mut BytesMut, key: &Key) -> (r: Step)
    ensures
        r@ == stepped(buffer_bytes(*old(buf)), key@),
        buffer_bytes(*final(buf)) == unread(buffer_bytes(*old(buf))),
{
    if buffer_len(buf) <= HEADER_LEN {
        return Step::NeedMore;
    }
    match decode(buf, key) {
        Ok(payload) => Step::Frame(payload),
        Err(DecodeError::NotEnoughData) => Step::NeedMore,
        Err(DecodeError::InvalidData) => Step::Invalid,
    }
}

/// Why a response is not the one that was asked for.
#[derive(Debug, Clone, PartialEq, Eq)]
pub enum ReplyError {
    /// The controller reported a failure.
    Server(String),
    /// The response is of another kind.
    Unexpected,
}

pub enum ReplyErrorView {
    Server(Seq<char>),
    Unexpected,
}

/// The answer to a pull in contracts.
pub open spec fn pull_view(r: Result<Vec<u8>, ReplyError>) -> Result<Seq<u8>, ReplyErrorView> {
    match r {
        Ok(b) => Ok(b@),
        Err(ReplyError::Server(m)) => Err(ReplyErrorView::Server(m@)),
        Err(ReplyError::Unexpected) => Err(ReplyErrorView::Unexpected),
    }
}

/// What a response to a pull means: the serialised task set where it is an
/// object, else an error.
pub fn pull_reply(resp: Response) -> (r: Result<Vec<u8>, ReplyError>)
    ensures
        pull_view(r) == match resp@ {
            ResponseView::Object(b) => Ok::<Seq<u8>, ReplyErrorView>(b),
            ResponseView::Error(m) => Err(ReplyErrorView::Server(m)),
            ResponseView::Okay => Err(ReplyErrorView::Unexpected),
        },
{
    match resp {
        Response::Object(bytes) => Ok(bytes),
        Response::Error(msg) => Err(ReplyError::Server(msg)),
        Response::Okay => Err(ReplyError::Unexpected),
    }
}

/// Whether a response to a report says that the report arrived: only `Okay`
/// does.
pub fn report_reply(resp: &Response) -> (r: bool)
    ensures
        r == (resp@ is Okay),
{
    match resp {
        Response::Okay => true,
        _ => false,
    }
}

} // verus!
