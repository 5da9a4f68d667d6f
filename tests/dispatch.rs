use lsp_core::protocol::{classify, Id, MessageKind, ResponseError};
use lsp_core::router::{
    frame_error_response, invalid_request_response, lookup_notification, lookup_request, Message, NotificationHandler, NotificationMessage,
    NotificationParams, Reply, RequestHandler, RequestMessage, RequestParams, State,
};
use lsp_core::framing::FrameError;
use lsp_core::structures::{
    Position, Range, TextDocumentContentChangeEvent, TextDocumentIdentifier, TextDocumentItem,
};

fn request(id: u64, method: &str, params: Result<RequestParams, String>) -> Message {
    Message::Request(RequestMessage { jsonrpc: String::from("2.0"), id: Id::AsInt(id), method: String::from(method), params })
}

fn notification(method: &str, params: Result<NotificationParams, String>) -> Message {
    Message::Notification(NotificationMessage { jsonrpc: String::from("2.0"), method: String::from(method), params })
}

fn open(state: &mut State, uri: &str, text: &str) {
    let item = TextDocumentItem {
        uri: String::from(uri),
        language_id: String::from("plain"),
        version: 1,
        text: String::from(text),
    };
    assert!(state.route_msg(notification("textDocument/didOpen", Ok(NotificationParams::DidOpen { text_document: item }))).is_none());
}

fn hover(state: &mut State, id: u64, uri: &str, line: u32, character: u32) -> lsp_core::router::ResponseMessage {
    let params = RequestParams::Hover {
        text_document: TextDocumentIdentifier { uri: String::from(uri) },
        position: Position { line, character },
    };
    state.route_msg(request(id, "textDocument/hover", Ok(params))).unwrap()
}

#[test]
fn classify_by_fields() {
    assert_eq!(classify(true, true), MessageKind::Request);
    assert_eq!(classify(true, false), MessageKind::Notification);
    assert_eq!(classify(false, true), MessageKind::Response);
    assert_eq!(classify(false, false), MessageKind::Response);
}

#[test]
fn method_tables() {
    assert_eq!(lookup_request(&String::from("initialize")), Some(RequestHandler::Initialize));
    assert_eq!(lookup_request(&String::from("textDocument/hover")), Some(RequestHandler::Hover));
    assert_eq!(lookup_request(&String::from("initialized")), None);
    assert_eq!(lookup_notification(&String::from("textDocument/didChange")), Some(NotificationHandler::DidChange));
    assert_eq!(lookup_notification(&String::from("initialize")), None);
}

#[test]
fn unknown_request_gets_method_not_found() {
    let mut state = State::new();
    let resp = state.route_msg(request(7, "doesNotExist", Err(String::from("no handler")))).unwrap();
    assert!(matches!(resp.id, Id::AsInt(7)));
    assert!(resp.result.is_none());
    let e = resp.error.unwrap();
    assert_eq!(e.code, -32601);
    assert_eq!(e.message, "Unhandled request doesNotExist!");
}

#[test]
fn unknown_notification_gets_no_response() {
    let mut state = State::new();
    assert!(state.route_msg(notification("doesNotExist", Err(String::from("no handler")))).is_none());
}

#[test]
fn initialize_reports_capabilities() {
    let mut state = State::new();
    let resp = state
        .route_msg(request(1, "initialize", Ok(RequestParams::Initialize { client_info: None, locale: None })))
        .unwrap();
    assert!(resp.error.is_none());
    match resp.result {
        Some(Reply::Initialize(r)) => {
            assert!(r.capabilities.text_document_sync.open_close);
            assert_eq!(r.capabilities.text_document_sync.change, 2);
            assert!(r.capabilities.hover_provider);
            assert_eq!(r.server_info.name, "Descend LSP");
            assert_eq!(r.server_info.version, "1.0.0");
        },
        _ => panic!("expected an initialize result"),
    }
}

#[test]
fn undecodable_params_give_invalid_params() {
    let mut state = State::new();
    let resp = state.route_msg(request(3, "textDocument/hover", Err(String::from("missing field")))).unwrap();
    let e = resp.error.unwrap();
    assert_eq!(e.code, ResponseError::INVALID_PARAMS);
    assert_eq!(e.message, "missing field");
}

#[test]
fn hover_returns_rest_of_line() {
    let mut state = State::new();
    open(&mut state, "file:///h", "hello");
    let resp = hover(&mut state, 9, "file:///h", 0, 2);
    assert!(matches!(resp.id, Id::AsInt(9)));
    match resp.result {
        Some(Reply::Hover(h)) => {
            assert_eq!(h.contents.kind, "plaintext");
            assert_eq!(h.contents.value, "llo");
        },
        _ => panic!("expected a hover result"),
    }
}

#[test]
fn hover_on_unknown_document_is_an_error() {
    let mut state = State::new();
    let resp = hover(&mut state, 4, "file:///none", 0, 0);
    assert!(resp.result.is_none());
    assert_eq!(resp.error.unwrap().message, "Unknown document");
}

#[test]
fn did_change_on_missing_document_leaves_store_unchanged() {
    let mut state = State::new();
    open(&mut state, "file:///a", "abc");
    let changes = vec![TextDocumentContentChangeEvent {
        range: Range { start: Position { line: 0, character: 0 }, end: Position { line: 0, character: 1 } },
        text: String::from("z"),
    }];
    let r = state.did_change_text_document(TextDocumentIdentifier { uri: String::from("missing-uri") }, changes);
    assert_eq!(r, Err(lsp_core::store::DocumentError::UnknownDocument));
    let resp = hover(&mut state, 5, "file:///a", 0, 0);
    match resp.result {
        Some(Reply::Hover(h)) => assert_eq!(h.contents.value, "abc"),
        _ => panic!("expected a hover result"),
    }
}

#[test]
fn did_change_and_close_through_dispatch() {
    let mut state = State::new();
    open(&mut state, "file:///d", "01e");
    let changes = vec![TextDocumentContentChangeEvent {
        range: Range { start: Position { line: 0, character: 2 }, end: Position { line: 0, character: 2 } },
        text: String::from("2d"),
    }];
    let params = NotificationParams::DidChange {
        text_document: TextDocumentIdentifier { uri: String::from("file:///d") },
        content_changes: changes,
    };
    assert!(state.route_msg(notification("textDocument/didChange", Ok(params))).is_none());
    match hover(&mut state, 6, "file:///d", 0, 0).result {
        Some(Reply::Hover(h)) => assert_eq!(h.contents.value, "012de"),
        _ => panic!("expected a hover result"),
    }
    let close = NotificationParams::DidClose { text_document: TextDocumentIdentifier { uri: String::from("file:///d") } };
    assert!(state.route_msg(notification("textDocument/didClose", Ok(close))).is_none());
    assert!(hover(&mut state, 8, "file:///d", 0, 0).error.is_some());
}

#[test]
fn frame_error_gives_internal_error_with_null_id() {
    let resp = frame_error_response(FrameError::UnexpectedHeaderField);
    assert!(matches!(resp.id, Id::AsJson(serde_json::Value::Null)));
    let e = resp.error.unwrap();
    assert_eq!(e.code, ResponseError::INTERNAL_ERROR);
    assert_eq!(e.message, "Unexpected header field");
}

#[test]
fn responses_carry_jsonrpc_two_and_no_error_data() {
    let mut state = State::new();
    let q = Message::Request(RequestMessage {
        jsonrpc: String::from("1.0"),
        id: Id::AsString(String::from("q")),
        method: String::from("doesNotExist"),
        params: Err(String::from("no handler")),
    });
    let resp = state.route_msg(q).unwrap();
    assert_eq!(resp.jsonrpc, "2.0");
    assert!(matches!(resp.id, Id::AsString(ref s) if s == "q"));
    assert!(resp.error.unwrap().data.is_none());
    let h = hover(&mut state, 2, "file:///none", 0, 0);
    assert_eq!(h.jsonrpc, "2.0");
    assert!(h.error.unwrap().data.is_none());
    assert!(frame_error_response(FrameError::Truncated).error.unwrap().data.is_none());
}

#[test]
fn non_object_message_is_an_invalid_request() {
    let resp = invalid_request_response(String::from("A message must be a JSON object"));
    assert_eq!(resp.jsonrpc, "2.0");
    assert!(matches!(resp.id, Id::AsJson(serde_json::Value::Null)));
    let e = resp.error.unwrap();
    assert_eq!(e.code, -32600);
    assert!(e.data.is_none());
}
