//! What travels on the control channel: requests from an agent and the
//! controller's responses.

use crate::message::{Event, TaskSpec};
use std::collections::HashMap;
use vstd::prelude::*;

verus! {

/// The events of an agent, by task.
pub type AgentEventLog = HashMap<u128, Vec<Event>>;

/// What an agent asks of the controller. An agent sends only `PullTask` and
/// `ReportStatus`; the others are reserved.
#[derive(Debug)]
pub enum Request {
    AddTask { id: u128, spec: TaskSpec },
    RemoveTask { id: u128 },
    ListTask,
    Reload,
    PullTask { id: u128 },
    ReportStatus { id: u128, log: AgentEventLog },
}

/// What the controller answers.
#[derive(Debug, Clone, PartialEq, Eq)]
pub enum Response {
    /// Success.
    Okay,
    /// Failure, with a message for a person to read.
    Error(String),
    /// A serialised value for the receiver to read back.
    Object(Vec<u8>),
}

pub enum ResponseView {
    Okay,
    Error(Seq<char>),
    Object(Seq<u8>),
}

impl View for Response {
    type V = ResponseView;

    open spec fn view(&self) -> ResponseView {
        match self {
            Response::Okay => ResponseView::Okay,
            Response::Error(e) => ResponseView::Error(e@),
            Response::Object(b) => ResponseView::Object(b@),
        }
    }
}

impl Response {
    pub fn ok() -> (r: Response)
        ensures
            r@ == ResponseView::Okay,
    {
        Response::Okay
    }

    pub fn err(err: String) -> (r: Response)
        ensures
            r@ == ResponseView::Error(err@),
    {
        Response::Error(err)
    }

    /// A response that carries the serialised value `bytes`.
    pub fn object(bytes: Vec<u8>) -> (r: Response)
        ensures
            r@ == ResponseView::Object(bytes@),
    {
        Response::Object(bytes)
    }

    /// The serialised value that the response carries; `None` for a
    /// response that carries none.
    pub fn into(self) -> (r: Option<Vec<u8>>)
        ensures
            match self@ {
                ResponseView::Object(b) => r is Some && r.unwrap()@ == b,
                _ => r is None,
            },
    {
        match self {
            Response::Object(bytes) => Some(bytes),
            _ => None,
        }
    }
}

} // verus!
