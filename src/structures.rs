use vstd::prelude::*;

verus! {

/// The client's name and version, as reported on `initialize`.
#[derive(Debug)]
pub struct ClientInfo {
    pub name: String,
    pub version: Option<String>,
}

/// The server's name and version, as reported to the client.
#[derive(Debug)]
pub struct ServerInfo {
    pub name: String,
    pub version: String,
}

/// A zero-based coordinate in a document: a line index and a character index
/// within that line. Characters are counted as Unicode scalar values.
#[derive(Clone, Copy, Debug, PartialEq, Eq, Structural)]
pub struct Position {
    pub line: u32,
    pub character: u32,
}

/// A span of a document from `start` (inclusive) to `end` (exclusive).
#[derive(Clone, Copy, Debug, PartialEq, Eq, Structural)]
pub struct Range {
    pub start: Position,
    pub end: Position,
}

/// A document as the client opens it: its identifier, language, version and
/// full text.
#[derive(Debug)]
pub struct TextDocumentItem {
    pub uri: String,
    pub language_id: String,
    pub version: i32,
    pub text: String,
}

/// Names a document by its URI.
#[derive(Debug)]
pub struct TextDocumentIdentifier {
    pub uri: String,
}

/// A document and a position inside it.
#[derive(Debug)]
pub struct TextDocumentPositionParams {
    pub text_document: TextDocumentIdentifier,
    pub position: Position,
}

/// Replacement of a range by new text.
#[derive(Debug)]
pub struct TextEdit {
    pub range: Range,
    pub new_text: String,
}

/// A range inside a named document.
#[derive(Debug)]
pub struct Location {
    pub uri: String,
    pub range: Range,
}

#[derive(Clone, Copy, Debug)]
pub struct CreateFileOptions {
    pub overwrite: Option<bool>,
    pub ignore_if_exists: Option<bool>,
}

#[derive(Debug)]
pub struct CreateFile {
    pub uri: String,
    pub options: Option<CreateFileOptions>,
}

#[derive(Clone, Copy, Debug)]
pub struct RenameFileOptions {
    pub overwrite: Option<bool>,
    pub ignore_if_exists: Option<bool>,
}

#[derive(Debug)]
pub struct RenameFile {
    pub old_uri: String,
    pub new_uri: String,
    pub options: Option<RenameFileOptions>,
}

#[derive(Clone, Copy, Debug)]
pub struct DeleteFileOptions {
    pub recursive: Option<bool>,
    pub ignore_if_not_exists: Option<bool>,
}

#[derive(Debug)]
pub struct DeleteFile {
    pub uri: String,
    pub options: Option<DeleteFileOptions>,
}

/// One file operation of a workspace edit.
#[derive(Debug)]
pub enum ChangeFile {
    Create(CreateFile),
    Rename(RenameFile),
    Delete(DeleteFile),
}

/// Changes to many documents at once: text edits keyed by URI, as the client
/// sent them, and file operations.
#[derive(Debug)]
pub struct WorkspaceEdit {
    pub changes: Option<serde_json::Value>,
    pub document_changes: Option<Vec<ChangeFile>>,
}

/// How documents are synchronised: whether open and close are reported, and
/// the kind of change notification (2 is incremental).
#[derive(Clone, Copy, Debug)]
pub struct TextDocumentSyncOptions {
    pub open_close: bool,
    pub change: u32,
}

/// What the server offers to the client.
#[derive(Clone, Copy, Debug)]
pub struct ServerCapabilities {
    pub text_document_sync: TextDocumentSyncOptions,
    pub hover_provider: bool,
}

/// One change of a document: the range replaced and the replacement text.
#[derive(Debug)]
pub struct TextDocumentContentChangeEvent {
    pub range: Range,
    pub text: String,
}

#[derive(Debug)]
pub struct DocumentFilter {
    pub pattern: String,
}

/// Text with its format (`plaintext` or `markdown`).
#[derive(Debug)]
pub struct MarkupContent {
    pub kind: String,
    pub value: String,
}

/// The answer to a hover request.
#[derive(Debug)]
pub struct Hover {
    pub contents: MarkupContent,
}

} // verus!
