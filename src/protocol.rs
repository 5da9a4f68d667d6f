use vstd::prelude::*;

use crate::structures::{ServerCapabilities, ServerInfo};

verus! {

/// The identifier of a request: a number, a string, or any other JSON value.
#[derive(Debug)]
pub enum Id {
    AsInt(u64),
    AsString(String),
    AsJson(serde_json::Value),
}

/// The error part of a response.
#[derive(Debug)]
pub struct ResponseError {
    pub code: i32,
    pub message: String,
    pub data: Option<serde_json::Value>,
}

impl ResponseError {
    pub const PARSE_ERROR: i32 = -32700;
    pub const INVALID_REQUEST: i32 = -32600;
    pub const METHOD_NOT_FOUND: i32 = -32601;
    pub const INVALID_PARAMS: i32 = -32602;
    pub const INTERNAL_ERROR: i32 = -32603;
    pub const SERVER_NOT_INITIALIZED: i32 = -32002;
    pub const UNKNOWN_ERROR_CODE: i32 = -32001;
    pub const REQUEST_FAILED: i32 = -32802;
    pub const SERVER_CANCELLED: i32 = -32802;
    pub const CONTENT_MODIFIED: i32 = -32801;
    pub const REQUEST_CANCELLED: i32 = -32800;
}

/// The result of the `initialize` request.
#[derive(Debug)]
pub struct InitializeResult {
    pub capabilities: ServerCapabilities,
    pub server_info: ServerInfo,
}

/// The structural kind of an incoming message.
#[derive(Clone, Copy, Debug, PartialEq, Eq, Structural)]
pub enum MessageKind {
    Request,
    Response,
    Notification,
}

/// A message with a `method` is a request if it also has an `id`, and a
/// notification if it has none; a message without `method` is a response.
pub open spec fn kind_of(has_method: bool, has_id: bool) -> MessageKind {
    if has_method {
        if has_id {
            MessageKind::Request
        } else {
            MessageKind::Notification
        }
    } else {
        MessageKind::Response
    }
}

/// Decides the kind of a message from the fields present in it.
pub fn classify(has_method: bool, has_id: bool) -> (r: MessageKind)
    ensures
        r == kind_of(has_method, has_id),
{
    if !has_method {
        MessageKind::Response
    } else if has_id {
        MessageKind::Request
    } else {
        MessageKind::Notification
    }
}

} // verus!
