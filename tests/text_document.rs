use lsp_core::document::TextDocument;
use lsp_core::store::{DocumentError, DocumentStore};
use lsp_core::structures::{Position, Range, TextDocumentContentChangeEvent};
use lsp_core::text::split_lines;

fn doc(lines: &[&str]) -> TextDocument {
    TextDocument { lines: lines.iter().map(|l| String::from(*l)).collect() }
}

fn range(sl: u32, sc: u32, el: u32, ec: u32) -> Range {
    Range { start: Position { line: sl, character: sc }, end: Position { line: el, character: ec } }
}

#[test]
fn test_erase() {
    let mut content = TextDocument {
        lines: vec![String::from("01234"), String::from("56789"), String::from("abcde")],
    };
    let match1 = TextDocument { lines: vec![String::from("012de")] };
    let match2 = TextDocument { lines: vec![String::from("01e")] };

    content.erase(&Range { start: Position { line: 0, character: 3 }, end: Position { line: 2, character: 3 } });
    assert_eq!(content, match1);
    content.erase(&Range { start: Position { line: 0, character: 2 }, end: Position { line: 0, character: 4 } });
    assert_eq!(content, match2);
}

#[test]
fn test_insert() {
    let mut content = TextDocument { lines: vec![String::from("01e")] };
    let match1 = TextDocument { lines: vec![String::from("012de")] };
    let match2 = TextDocument {
        lines: vec![String::from("01234"), String::from("56789"), String::from("abcde")],
    };

    content.insert(&Position { line: 0, character: 2 }, "2d");
    assert_eq!(content, match1);
    content.insert(&Position { line: 0, character: 3 }, "34\r\n56789\r\nabc");
    assert_eq!(content, match2);
}

#[test]
fn erase_two_adjacent_lines_joins_them() {
    let mut d = doc(&["hello", "world"]);
    d.erase(&range(0, 2, 1, 3));
    assert_eq!(d, doc(&["held"]));
}

#[test]
fn erase_empty_range_changes_nothing() {
    let mut d = doc(&["abc", "def"]);
    d.erase(&range(1, 1, 1, 1));
    assert_eq!(d, doc(&["abc", "def"]));
}

#[test]
fn insert_line_break_alone_splits_line() {
    let mut d = doc(&["abcd"]);
    d.insert(&Position { line: 0, character: 2 }, "\r\n");
    assert_eq!(d, doc(&["ab", "cd"]));
}

#[test]
fn insert_at_line_end_and_into_empty_document() {
    let mut d = doc(&["ab"]);
    d.insert(&Position { line: 0, character: 2 }, "cd");
    assert_eq!(d, doc(&["abcd"]));
    let mut e = doc(&[""]);
    e.insert(&Position { line: 0, character: 0 }, "x\r\ny");
    assert_eq!(e, doc(&["x", "y"]));
}

#[test]
fn insert_counts_characters_not_bytes() {
    let mut d = doc(&["äöü"]);
    d.insert(&Position { line: 0, character: 1 }, "-");
    assert_eq!(d, doc(&["ä-öü"]));
}

#[test]
fn edit_with_empty_text_equals_erase() {
    let cases = [range(0, 3, 2, 3), range(0, 1, 0, 4), range(1, 0, 2, 5), range(0, 0, 0, 0)];
    for r in cases.iter() {
        let mut a = doc(&["01234", "56789", "abcde"]);
        let mut b = doc(&["01234", "56789", "abcde"]);
        a.edit(r, "");
        b.erase(r);
        assert_eq!(a, b);
    }
}

#[test]
fn edit_replaces_range() {
    let mut d = doc(&["let x = 1;"]);
    d.edit(&range(0, 4, 0, 5), "value");
    assert_eq!(d, doc(&["let value = 1;"]));
    d.edit(&range(0, 0, 0, 14), "a\r\nb");
    assert_eq!(d, doc(&["a", "b"]));
}

#[test]
fn split_lines_on_crlf_only() {
    assert_eq!(split_lines("a\r\nb\nc\r\n"), vec![String::from("a"), String::from("b\nc"), String::new()]);
    assert_eq!(split_lines(""), vec![String::new()]);
}

#[test]
fn documents_are_equal_by_lines() {
    assert_ne!(doc(&["a", "b"]), doc(&["a"]));
    assert_ne!(doc(&["a", "b"]), doc(&["a", "c"]));
    assert_eq!(doc(&["a", "b"]), doc(&["a", "b"]));
}

#[test]
fn open_reads_back_split_text_whatever_was_there() {
    let mut store = DocumentStore::new();
    let uri = String::from("file:///a");
    store.open(uri.clone(), "old\r\ntext");
    store.open(uri.clone(), "one\r\ntwo\r\n");
    let d = store.get(&uri).unwrap();
    assert_eq!(*d, doc(&["one", "two", ""]));
    assert_eq!(d.lines.join("\r\n"), "one\r\ntwo\r\n");
}

#[test]
fn hover_value_from_position_to_line_end() {
    let mut store = DocumentStore::new();
    let uri = String::from("file:///h");
    store.open(uri.clone(), "hello");
    assert_eq!(store.value_at(&uri, &Position { line: 0, character: 2 }), Ok(String::from("llo")));
    assert_eq!(store.value_at(&uri, &Position { line: 0, character: 5 }), Ok(String::new()));
    assert_eq!(
        store.value_at(&uri, &Position { line: 0, character: 6 }),
        Err(DocumentError::PositionOutOfRange)
    );
    assert_eq!(
        store.value_at(&uri, &Position { line: 1, character: 0 }),
        Err(DocumentError::PositionOutOfRange)
    );
    assert_eq!(
        store.value_at(&String::from("file:///other"), &Position { line: 0, character: 0 }),
        Err(DocumentError::UnknownDocument)
    );
}

#[test]
fn apply_changes_to_unknown_document_fails_and_keeps_store() {
    let mut store = DocumentStore::new();
    let uri = String::from("file:///known");
    store.open(uri.clone(), "abc");
    let changes = vec![TextDocumentContentChangeEvent { range: range(0, 0, 0, 1), text: String::from("x") }];
    assert_eq!(store.apply_changes(&String::from("missing-uri"), &changes), Err(DocumentError::UnknownDocument));
    assert_eq!(*store.get(&uri).unwrap(), doc(&["abc"]));
    assert!(store.get(&String::from("missing-uri")).is_none());
}

#[test]
fn apply_changes_in_order() {
    let mut store = DocumentStore::new();
    let uri = String::from("file:///c");
    store.open(uri.clone(), "01e");
    let changes = vec![
        TextDocumentContentChangeEvent { range: range(0, 2, 0, 2), text: String::from("2d") },
        TextDocumentContentChangeEvent { range: range(0, 3, 0, 3), text: String::from("34\r\n56789\r\nabc") },
    ];
    assert_eq!(store.apply_changes(&uri, &changes), Ok(()));
    assert_eq!(*store.get(&uri).unwrap(), doc(&["01234", "56789", "abcde"]));
}

#[test]
fn apply_changes_with_bad_range_keeps_document() {
    let mut store = DocumentStore::new();
    let uri = String::from("file:///r");
    store.open(uri.clone(), "abc");
    let changes = vec![
        TextDocumentContentChangeEvent { range: range(0, 0, 0, 1), text: String::from("x") },
        TextDocumentContentChangeEvent { range: range(0, 2, 3, 0), text: String::from("y") },
    ];
    assert_eq!(store.apply_changes(&uri, &changes), Err(DocumentError::PositionOutOfRange));
    assert_eq!(*store.get(&uri).unwrap(), doc(&["abc"]));
}

#[test]
fn close_removes_document() {
    let mut store = DocumentStore::new();
    let uri = String::from("file:///z");
    store.open(uri.clone(), "z");
    assert_eq!(store.close(&uri), Ok(()));
    assert!(store.get(&uri).is_none());
    assert_eq!(store.close(&uri), Err(DocumentError::UnknownDocument));
}
