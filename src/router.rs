use vstd::prelude::*;
use vstd::string::*;

use crate::document::position_in_bounds;
use crate::framing::FrameError;
use crate::protocol::{Id, InitializeResult, ResponseError};
use crate::store::{applied, DocumentError, DocumentStore};
use crate::structures::{
    ClientInfo, Hover, MarkupContent, Position, ServerCapabilities, ServerInfo, TextDocumentContentChangeEvent,
    TextDocumentIdentifier, TextDocumentItem, TextDocumentSyncOptions,
};
use crate::text::split_crlf;

verus! {

/// What a handled request returns.
#[derive(Debug)]
pub enum Reply {
    Initialize(InitializeResult),
    Hover(Hover),
    /// A result as another party sent it.
    Json(serde_json::Value),
}

/// A response: the request's id and either a result or an error.
#[derive(Debug)]
pub struct ResponseMessage {
    pub jsonrpc: String,
    pub id: Id,
    pub result: Option<Reply>,
    pub error: Option<ResponseError>,
}

/// The requests this server answers.
#[derive(Clone, Copy, Debug, PartialEq, Eq, Structural)]
pub enum RequestHandler {
    Initialize,
    Hover,
}

/// The notifications this server acts on.
#[derive(Clone, Copy, Debug, PartialEq, Eq, Structural)]
pub enum NotificationHandler {
    Initialized,
    DidOpen,
    DidChange,
    DidClose,
}

/// The request method table.
pub open spec fn request_handler_for(method: Seq<char>) -> Option<RequestHandler> {
    if method == "initialize"@ {
        Some(RequestHandler::Initialize)
    } else if method == "textDocument/hover"@ {
        Some(RequestHandler::Hover)
    } else {
        None
    }
}

/// The notification method table.
pub open spec fn notification_handler_for(method: Seq<char>) -> Option<NotificationHandler> {
    if method == "initialized"@ {
        Some(NotificationHandler::Initialized)
    } else if method == "textDocument/didOpen"@ {
        Some(NotificationHandler::DidOpen)
    } else if method == "textDocument/didChange"@ {
        Some(NotificationHandler::DidChange)
    } else if method == "textDocument/didClose"@ {
        Some(NotificationHandler::DidClose)
    } else {
        None
    }
}

fn same_text(a: &String, b: &str) -> (r: bool)
    ensures
        r == (a@ == b@),
{
    *a == String::from_str(b)
}

/// The handler bound to a request method.
pub fn lookup_request(method: &String) -> (r: Option<RequestHandler>)
    ensures
        r == request_handler_for(method@),
{
    if same_text(method, "initialize") {
        Some(RequestHandler::Initialize)
    } else if same_text(method, "textDocument/hover") {
        Some(RequestHandler::Hover)
    } else {
        None
    }
}

/// The handler bound to a notification method.
pub fn lookup_notification(method: &String) -> (r: Option<NotificationHandler>)
    ensures
        r == notification_handler_for(method@),
{
    if same_text(method, "initialized") {
        Some(NotificationHandler::Initialized)
    } else if same_text(method, "textDocument/didOpen") {
        Some(NotificationHandler::DidOpen)
    } else if same_text(method, "textDocument/didChange") {
        Some(NotificationHandler::DidChange)
    } else if same_text(method, "textDocument/didClose") {
        Some(NotificationHandler::DidClose)
    } else {
        None
    }
}

/// The parameters of a request, decoded for its handler.
#[derive(Debug)]
pub enum RequestParams {
    Initialize { client_info: Option<ClientInfo>, locale: Option<String> },
    Hover { text_document: TextDocumentIdentifier, position: Position },
}

impl RequestParams {
    pub open spec fn handler(&self) -> RequestHandler {
        match self {
            RequestParams::Initialize { .. } => RequestHandler::Initialize,
            RequestParams::Hover { .. } => RequestHandler::Hover,
        }
    }
}

/// The parameters of a notification, decoded for its handler.
#[derive(Debug)]
pub enum NotificationParams {
    Initialized,
    DidOpen { text_document: TextDocumentItem },
    DidChange { text_document: TextDocumentIdentifier, content_changes: Vec<TextDocumentContentChangeEvent> },
    DidClose { text_document: TextDocumentIdentifier },
}

impl NotificationParams {
    pub open spec fn handler(&self) -> NotificationHandler {
        match self {
            NotificationParams::Initialized => NotificationHandler::Initialized,
            NotificationParams::DidOpen { .. } => NotificationHandler::DidOpen,
            NotificationParams::DidChange { .. } => NotificationHandler::DidChange,
            NotificationParams::DidClose { .. } => NotificationHandler::DidClose,
        }
    }
}

/// A request: its id, method, and its parameters as decoded for the handler
/// of the method, or why they could not be.
#[derive(Debug)]
pub struct RequestMessage {
    pub jsonrpc: String,
    pub id: Id,
    pub method: String,
    pub params: Result<RequestParams, String>,
}

/// A notification: its method, and its parameters as decoded for the handler
/// of the method, or why they could not be.
#[derive(Debug)]
pub struct NotificationMessage {
    pub jsonrpc: String,
    pub method: String,
    pub params: Result<NotificationParams, String>,
}

/// An incoming message.
#[derive(Debug)]
pub enum Message {
    Request(RequestMessage),
    Response(ResponseMessage),
    Notification(NotificationMessage),
}

pub open spec fn unhandled_text(method: Seq<char>) -> Seq<char> {
    "Unhandled request "@ + method + "!"@
}

impl ResponseMessage {
    /// A response to `id` that carries an error with `code` and `message`.
    pub fn error(id: Id, code: i32, message: String) -> (r: ResponseMessage)
        ensures
            r.jsonrpc@ == "2.0"@,
            r.id == id,
            r.result is None,
            r.error matches Some(e) && e.code == code && e.message == message && e.data is None,
    {
        ResponseMessage {
            jsonrpc: String::from_str("2.0"),
            id,
            result: None,
            error: Some(ResponseError { code, message, data: None }),
        }
    }
}

/// The server's state: the open documents.
pub struct State {
    pub text_documents: DocumentStore,
}

pub open spec fn document_error_text(e: DocumentError) -> Seq<char> {
    match e {
        DocumentError::UnknownDocument => "Unknown document"@,
        DocumentError::PositionOutOfRange => "Position out of range"@,
    }
}

/// The response error for a failed document operation.
pub fn document_error(e: DocumentError) -> (r: ResponseError)
    ensures
        r.code == ResponseError::INVALID_PARAMS,
        r.message@ == document_error_text(e),
        r.data is None,
{
    let message = match e {
        DocumentError::UnknownDocument => String::from_str("Unknown document"),
        DocumentError::PositionOutOfRange => String::from_str("Position out of range"),
    };
    ResponseError { code: ResponseError::INVALID_PARAMS, message, data: None }
}

/// The open documents after a notification has been handled: only a
/// notification whose method is in the table and whose parameters were decoded
/// for that method has an effect.
pub open spec fn notified(docs: Map<Seq<char>, Seq<Seq<char>>>, n: NotificationMessage) -> Map<
    Seq<char>,
    Seq<Seq<char>>,
> {
    match notification_handler_for(n.method@) {
        None => docs,
        Some(h) => match n.params {
            Err(_) => docs,
            Ok(p) => if p.handler() != h {
                docs
            } else {
                match p {
                    NotificationParams::Initialized => docs,
                    NotificationParams::DidOpen { text_document } => docs.insert(
                        text_document.uri@,
                        split_crlf(text_document.text@),
                    ),
                    NotificationParams::DidChange { text_document, content_changes } => {
                        if docs.contains_key(text_document.uri@) {
                            match applied(docs[text_document.uri@], content_changes@) {
                                Some(lines) => docs.insert(text_document.uri@, lines),
                                None => docs,
                            }
                        } else {
                            docs
                        }
                    },
                    NotificationParams::DidClose { text_document } => if docs.contains_key(
                        text_document.uri@,
                    ) {
                        docs.remove(text_document.uri@)
                    } else {
                        docs
                    },
                }
            },
        },
    }
}

/// `r` carries an error with `code` and text `message`, and no result.
pub open spec fn is_error_reply(r: ResponseMessage, code: i32, message: Seq<char>) -> bool {
    &&& r.result is None
    &&& r.error matches Some(e) && e.code == code && e.message@ == message && e.data is None
}

/// `r` is the answer to request `q` against the open documents `docs`.
pub open spec fn answers(docs: Map<Seq<char>, Seq<Seq<char>>>, q: RequestMessage, r: ResponseMessage) -> bool {
    &&& r.id == q.id
    &&& r.jsonrpc@ == "2.0"@
    &&& match request_handler_for(q.method@) {
        None => is_error_reply(r, ResponseError::METHOD_NOT_FOUND, unhandled_text(q.method@)),
        Some(h) => match q.params {
            Err(msg) => is_error_reply(r, ResponseError::INVALID_PARAMS, msg@),
            Ok(p) => if p.handler() != h {
                is_error_reply(r, ResponseError::INVALID_PARAMS, mismatch_text())
            } else {
                match p {
                    RequestParams::Initialize { .. } => {
                        &&& r.error is None
                        &&& r.result matches Some(Reply::Initialize(res))
                        &&& res.capabilities.text_document_sync.open_close
                        &&& res.capabilities.text_document_sync.change == 2
                        &&& res.capabilities.hover_provider
                        &&& res.server_info.name@ == "Descend LSP"@
                        &&& res.server_info.version@ == "1.0.0"@
                    },
                    RequestParams::Hover { text_document, position } => {
                        let uri = text_document.uri@;
                        if !docs.contains_key(uri) {
                            is_error_reply(
                                r,
                                ResponseError::INVALID_PARAMS,
                                document_error_text(DocumentError::UnknownDocument),
                            )
                        } else if !position_in_bounds(docs[uri], position) {
                            is_error_reply(
                                r,
                                ResponseError::INVALID_PARAMS,
                                document_error_text(DocumentError::PositionOutOfRange),
                            )
                        } else {
                            &&& r.error is None
                            &&& r.result matches Some(Reply::Hover(hv))
                            &&& hv.contents.kind@ == "plaintext"@
                            &&& hv.contents.value@ == docs[uri][position.line as int].skip(position.character as int)
                        }
                    },
                }
            },
        },
    }
}

/// A request whose method is not in the request table is answered with its
/// own id, no result, and a `MethodNotFound` error naming the method.
pub proof fn lemma_unknown_request_answer(docs: Map<Seq<char>, Seq<Seq<char>>>, q: RequestMessage, r: ResponseMessage)
    requires
        request_handler_for(q.method@) is None,
        answers(docs, q, r),
    ensures
        r.id == q.id,
        r.result is None,
        r.error matches Some(e) && e.code == -32601 && e.message@ == unhandled_text(q.method@),
{
}

pub open spec fn mismatch_text() -> Seq<char> {
    "Parameters do not match the method"@
}

fn error_reply(id: Id, code: i32, message: String) -> (r: ResponseMessage)
    ensures
        r.jsonrpc@ == "2.0"@,
        r.id == id,
        r.result is None,
        r.error matches Some(e) && e.code == code && e.message == message && e.data is None,
{
    ResponseMessage {
        jsonrpc: String::from_str("2.0"),
        id,
        result: None,
        error: Some(ResponseError { code, message, data: None }),
    }
}

/// Relies on `serde_json::Value::Null`: the JSON `null`, the id of a response
/// to a message whose id could not be read.
#[verifier::external_body]
fn json_null() -> (r: serde_json::Value) {
    serde_json::Value::Null
}

pub open spec fn frame_error_text(e: FrameError) -> Seq<char> {
    match e {
        FrameError::HeaderParseError => "Malformed header"@,
        FrameError::UnexpectedHeaderField => "Unexpected header field"@,
        FrameError::ContentDecodeError => "Content is not valid UTF-8"@,
        FrameError::Truncated => "Message ends early"@,
    }
}

/// The response to a message that could not be read from the stream: an
/// internal error with a `null` id.
pub fn frame_error_response(e: FrameError) -> (r: ResponseMessage)
    ensures
        r.jsonrpc@ == "2.0"@,
        r.id is AsJson,
        is_error_reply(r, ResponseError::INTERNAL_ERROR, frame_error_text(e)),
{
    let message = match e {
        FrameError::HeaderParseError => String::from_str("Malformed header"),
        FrameError::UnexpectedHeaderField => String::from_str("Unexpected header field"),
        FrameError::ContentDecodeError => String::from_str("Content is not valid UTF-8"),
        FrameError::Truncated => String::from_str("Message ends early"),
    };
    ResponseMessage::error(Id::AsJson(json_null()), ResponseError::INTERNAL_ERROR, message)
}

/// The response to content that is not a JSON message: a parse error with a
/// `null` id and `message`.
pub fn parse_error_response(message: String) -> (r: ResponseMessage)
    ensures
        r.jsonrpc@ == "2.0"@,
        r.id is AsJson,
        is_error_reply(r, ResponseError::PARSE_ERROR, message@),
{
    ResponseMessage::error(Id::AsJson(json_null()), ResponseError::PARSE_ERROR, message)
}

/// The response to content that is JSON but not a message object: an
/// invalid-request error with a `null` id and `message`.
pub fn invalid_request_response(message: String) -> (r: ResponseMessage)
    ensures
        r.jsonrpc@ == "2.0"@,
        r.id is AsJson,
        is_error_reply(r, ResponseError::INVALID_REQUEST, message@),
{
    ResponseMessage::error(Id::AsJson(json_null()), ResponseError::INVALID_REQUEST, message)
}

impl State {
    pub open spec fn wf(&self) -> bool {
        self.text_documents.wf()
    }

    /// A state with no open document.
    pub fn new() -> (r: State)
        ensures
            r.wf(),
            r.text_documents@ == Map::<Seq<char>, Seq<Seq<char>>>::empty(),
    {
        State { text_documents: DocumentStore::new() }
    }

    /// The state that handlers work on.
    pub fn state(&mut self) -> (r: &mut State)
        ensures
            *r == *old(self),
            *final(self) == *final(r),
    {
        self
    }

    /// Answers `initialize` with the server's capabilities (open/close and
    /// incremental change notifications, hover) and its name and version.
    pub fn initialize(&mut self, _client_info: Option<ClientInfo>, _locale: Option<String>) -> (r: Result<
        InitializeResult,
        ResponseError,
    >)
        ensures
            *final(self) == *old(self),
            r matches Ok(res) && res.capabilities.text_document_sync.open_close
                && res.capabilities.text_document_sync.change == 2 && res.capabilities.hover_provider
                && res.server_info.name@ == "Descend LSP"@ && res.server_info.version@ == "1.0.0"@,
    {
        Ok(
            InitializeResult {
                capabilities: ServerCapabilities {
                    text_document_sync: TextDocumentSyncOptions { open_close: true, change: 2 },
                    hover_provider: true,
                },
                server_info: ServerInfo {
                    name: String::from_str("Descend LSP"),
                    version: String::from_str("1.0.0"),
                },
            },
        )
    }

    /// The client has finished initialising; nothing to do.
    pub fn initialized(&mut self)
        ensures
            *final(self) == *old(self),
    {
    }

    /// Opens the document, replacing any open under the same URI.
    pub fn did_open_text_document(&mut self, text_document: TextDocumentItem)
        requires
            old(self).wf(),
        ensures
            final(self).wf(),
            final(self).text_documents@ == old(self).text_documents@.insert(
                text_document.uri@,
                split_crlf(text_document.text@),
            ),
    {
        self.text_documents.open(text_document.uri, text_document.text.as_str());
    }

    /// Applies the changes in order to the document; the result tells whether
    /// the document was open and every range fitted.
    pub fn did_change_text_document(
        &mut self,
        text_document: TextDocumentIdentifier,
        content_changes: Vec<TextDocumentContentChangeEvent>,
    ) -> (r: Result<(), DocumentError>)
        requires
            old(self).wf(),
        ensures
            final(self).wf(),
            !old(self).text_documents@.contains_key(text_document.uri@) ==> r == Err::<(), DocumentError>(
                DocumentError::UnknownDocument,
            ) && final(self).text_documents@ == old(self).text_documents@,
            old(self).text_documents@.contains_key(text_document.uri@) ==> match applied(
                old(self).text_documents@[text_document.uri@],
                content_changes@,
            ) {
                Some(lines) => r is Ok && final(self).text_documents@ == old(self).text_documents@.insert(
                    text_document.uri@,
                    lines,
                ),
                None => r == Err::<(), DocumentError>(DocumentError::PositionOutOfRange)
                    && final(self).text_documents@ == old(self).text_documents@,
            },
    {
        self.text_documents.apply_changes(&text_document.uri, &content_changes)
    }

    /// Closes the document.
    pub fn did_close_text_document(&mut self, text_document: TextDocumentIdentifier) -> (r: Result<
        (),
        DocumentError,
    >)
        requires
            old(self).wf(),
        ensures
            final(self).wf(),
            old(self).text_documents@.contains_key(text_document.uri@) ==> r is Ok
                && final(self).text_documents@ == old(self).text_documents@.remove(text_document.uri@),
            !old(self).text_documents@.contains_key(text_document.uri@) ==> r == Err::<(), DocumentError>(
                DocumentError::UnknownDocument,
            ) && final(self).text_documents@ == old(self).text_documents@,
    {
        self.text_documents.close(&text_document.uri)
    }

    /// Routes a message to the handler that the method tables bind its method
    /// to. A request always gets a response with its id: the handler's result
    /// or error, `MethodNotFound` for a method not in the request table, and
    /// `InvalidParams` where its parameters could not be decoded for the
    /// method. Notifications and responses get no response.
    pub fn route_msg(&mut self, message: Message) -> (r: Option<ResponseMessage>)
        requires
            old(self).wf(),
        ensures
            final(self).wf(),
            match message {
                Message::Request(q) => final(self).text_documents@ == old(self).text_documents@ && (r matches Some(
                    resp,
                ) && answers(old(self).text_documents@, q, resp)),
                Message::Notification(n) => r is None && final(self).text_documents@ == notified(
                    old(self).text_documents@,
                    n,
                ),
                Message::Response(_) => r is None && final(self).text_documents@ == old(self).text_documents@,
            },
    {
        match message {
            Message::Request(q) => {
                let RequestMessage { jsonrpc: _, id, method, params } = q;
                match lookup_request(&method) {
                    None => {
                        let mut text = String::from_str("Unhandled request ");
                        text.append(method.as_str());
                        text.append("!");
                        Some(error_reply(id, ResponseError::METHOD_NOT_FOUND, text))
                    },
                    Some(h) => match params {
                        Err(msg) => Some(error_reply(id, ResponseError::INVALID_PARAMS, msg)),
                        Ok(RequestParams::Initialize { client_info, locale }) => {
                            if h != RequestHandler::Initialize {
                                let text = String::from_str("Parameters do not match the method");
                                return Some(error_reply(id, ResponseError::INVALID_PARAMS, text));
                            }
                            match self.initialize(client_info, locale) {
                                Ok(res) => Some(
                                    ResponseMessage {
                                        jsonrpc: String::from_str("2.0"),
                                        id,
                                        result: Some(Reply::Initialize(res)),
                                        error: None,
                                    },
                                ),
                                Err(e) => Some(ResponseMessage { jsonrpc: String::from_str("2.0"), id, result: None, error: Some(e) }),
                            }
                        },
                        Ok(RequestParams::Hover { text_document, position }) => {
                            if h != RequestHandler::Hover {
                                let text = String::from_str("Parameters do not match the method");
                                return Some(error_reply(id, ResponseError::INVALID_PARAMS, text));
                            }
                            match self.hover(text_document, position) {
                                Ok(hv) => Some(ResponseMessage {
                                    jsonrpc: String::from_str("2.0"),
                                    id,
                                    result: Some(Reply::Hover(hv)),
                                    error: None,
                                }),
                                Err(e) => Some(ResponseMessage { jsonrpc: String::from_str("2.0"), id, result: None, error: Some(e) }),
                            }
                        },
                    },
                }
            },
            Message::Notification(n) => {
                let NotificationMessage { jsonrpc: _, method, params } = n;
                match lookup_notification(&method) {
                    None => None,
                    Some(h) => match params {
                        Err(_) => None,
                        Ok(p) => {
                            match p {
                                NotificationParams::Initialized => {
                                    if h == NotificationHandler::Initialized {
                                        self.initialized();
                                    }
                                },
                                NotificationParams::DidOpen { text_document } => {
                                    if h == NotificationHandler::DidOpen {
                                        self.did_open_text_document(text_document);
                                    }
                                },
                                NotificationParams::DidChange { text_document, content_changes } => {
                                    if h == NotificationHandler::DidChange {
                                        let _ = self.did_change_text_document(text_document, content_changes);
                                    }
                                },
                                NotificationParams::DidClose { text_document } => {
                                    if h == NotificationHandler::DidClose {
                                        let _ = self.did_close_text_document(text_document);
                                    }
                                },
                            }
                            None
                        },
                    },
                }
            },
            Message::Response(_) => None,
        }
    }

    /// The text of the addressed line from `position` to its end, as plain text.
    pub fn hover(&mut self, text_document: TextDocumentIdentifier, position: Position) -> (r: Result<
        Hover,
        ResponseError,
    >)
        requires
            old(self).wf(),
        ensures
            final(self).wf(),
            final(self).text_documents@ == old(self).text_documents@,
            ({
                let docs = old(self).text_documents@;
                let uri = text_document.uri@;
                if !docs.contains_key(uri) {
                    r matches Err(e) && e.code == ResponseError::INVALID_PARAMS && e.data is None
                        && e.message@ == document_error_text(DocumentError::UnknownDocument)
                } else if !position_in_bounds(docs[uri], position) {
                    r matches Err(e) && e.code == ResponseError::INVALID_PARAMS && e.data is None
                        && e.message@ == document_error_text(DocumentError::PositionOutOfRange)
                } else {
                    r matches Ok(h) && h.contents.kind@ == "plaintext"@ && h.contents.value@ == docs[uri][position.line as int].skip(
                        position.character as int,
                    )
                }
            }),
    {
        match self.text_documents.value_at(&text_document.uri, &position) {
            Ok(value) => Ok(Hover { contents: MarkupContent { kind: String::from_str("plaintext"), value } }),
            Err(e) => Err(document_error(e)),
        }
    }
}

} // verus!
