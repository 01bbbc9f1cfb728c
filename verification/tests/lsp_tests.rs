//! The language-server side: framing, message classification, document and
//! pending-request state, and the reply readers.

use raven::json::{Json, parse_json, write_json};
use raven::lsp_transport::{
    write_message, read_frame, FrameRead, Request, Notification, IncomingMessage, ResponseError,
};
use raven::lsp_docs::{DocumentTable, ChangeAction};
use raven::lsp_pending::PendingTable;
use raven::lsp_protocol::{
    detect_language, ancestor_dirs, LanguageServerConfig, CompletionResponse, CompletionList,
    CompletionItem, DefinitionResponse, Location, LocationLink, Position, Range,
    CodeActionResponse, CodeActionOrCommand, Command, CodeAction, Hover, HoverContents,
    MarkedString, SerializedHover, SerializedWorkspaceEdit, WorkspaceEdit, DocumentChange,
    TextDocumentEdit, OptionalVersionedTextDocumentIdentifier, TextEditOrAnnotated, TextEdit,
    PublishDiagnosticsParams, ServerCapabilities, InitializeResult,
};

fn obj1(k: &str, v: Json) -> Json {
    Json::Obj(vec![(k.to_string(), v)])
}

#[test]
fn test_write_message() {
    let buf = write_message(b"hello");
    assert_eq!(buf, b"Content-Length: 5\r\n\r\nhello");
}

#[test]
fn test_read_message() {
    let data = b"Content-Length: 13\r\n\r\n{\"test\": 123}";
    match read_frame(data) {
        FrameRead::Frame { body, consumed } => {
            assert_eq!(consumed, data.len());
            match parse_json(&body).unwrap() {
                Json::Obj(fields) => {
                    assert_eq!(fields.len(), 1);
                    assert_eq!(fields[0].0, "test");
                    assert!(matches!(fields[0].1, Json::Int(123)));
                }
                _ => panic!("expected an object"),
            }
        }
        _ => panic!("expected a whole frame"),
    }
}

#[test]
fn test_read_message_with_extra_headers() {
    let data = b"Content-Length: 13\r\nContent-Type: application/json\r\n\r\n{\"test\": 456}";
    match read_frame(data) {
        FrameRead::Frame { body, .. } => {
            match parse_json(&body).unwrap() {
                Json::Obj(fields) => {
                    assert_eq!(fields[0].0, "test");
                    assert!(matches!(fields[0].1, Json::Int(456)));
                }
                _ => panic!("expected an object"),
            }
        }
        _ => panic!("expected a whole frame"),
    }
}

#[test]
fn read_frame_waits_for_missing_bytes() {
    assert!(matches!(read_frame(b"Content-Length: 5\r\n\r\nhel"), FrameRead::Incomplete));
    assert!(matches!(read_frame(b"Content-Length: 5\r\n"), FrameRead::Incomplete));
    assert!(matches!(read_frame(b"\r\nrest"), FrameRead::Malformed));
    assert!(matches!(read_frame(b"Content-Length: x\r\n\r\n"), FrameRead::Malformed));
}

#[test]
fn test_request_serialization() {
    let req = Request::new(1, "test/method".to_string(), Some(obj1("foo", Json::Str("bar".to_string()))));
    let json = String::from_utf8(write_json(&req.to_json())).unwrap();
    assert!(json.contains("\"jsonrpc\":\"2.0\""));
    assert!(json.contains("\"id\":1"));
    assert!(json.contains("\"method\":\"test/method\""));
}

#[test]
fn test_notification_serialization() {
    let notif = Notification::new("test/notify".to_string(), None);
    let json = String::from_utf8(write_json(&notif.to_json())).unwrap();
    assert!(json.contains("\"jsonrpc\":\"2.0\""));
    assert!(json.contains("\"method\":\"test/notify\""));
    assert!(!json.contains("\"id\""));
}

#[test]
fn test_incoming_message_is_response() {
    let msg = IncomingMessage {
        jsonrpc: "2.0".to_string(),
        id: Some(1),
        method: None,
        params: None,
        result: Some(Json::Obj(Vec::new())),
        error: None,
    };
    assert!(msg.is_response());
    assert!(!msg.is_notification());
}

#[test]
fn test_incoming_message_is_notification() {
    let msg = IncomingMessage {
        jsonrpc: "2.0".to_string(),
        id: None,
        method: Some("test".to_string()),
        params: Some(Json::Obj(Vec::new())),
        result: None,
        error: None,
    };
    assert!(!msg.is_response());
    assert!(msg.is_notification());
}

#[test]
fn incoming_message_reads_from_json() {
    let body = b"{\"jsonrpc\":\"2.0\",\"id\":3,\"error\":{\"code\":-32601,\"message\":\"no such method\"}}";
    let j = parse_json(body).unwrap();
    let msg = IncomingMessage::from_json(&j).unwrap();
    assert_eq!(msg.id, Some(3));
    assert!(msg.is_response());
    let err: ResponseError = msg.error.unwrap();
    assert_eq!(err.code, -32601);
    assert_eq!(err.message, "no such method");
    let resp = IncomingMessage::from_json(&j).unwrap().into_response().unwrap();
    assert_eq!(resp.id, Some(3));
}

#[test]
fn change_without_open_upgrades_to_open() {
    let mut docs = DocumentTable::new();
    let action = docs.change_document(&"file:///f.rs".to_string());
    assert!(matches!(action, ChangeAction::SendOpen));
    // the document is now open at version one: a change advances it
    match docs.change_document(&"file:///f.rs".to_string()) {
        ChangeAction::SendChange { version } => assert_eq!(version, 2),
        _ => panic!("expected a didChange"),
    }
}

#[test]
fn change_versions_increase_from_two() {
    let mut docs = DocumentTable::new();
    assert!(docs.open_document(&"u".to_string()));
    assert!(!docs.open_document(&"u".to_string()));
    let mut last = 1;
    for _ in 0..5 {
        match docs.change_document(&"u".to_string()) {
            ChangeAction::SendChange { version } => {
                assert!(version > last);
                assert!(version >= 2);
                last = version;
            }
            _ => panic!("expected a didChange"),
        }
    }
    assert_eq!(last, 6);
    docs.close_document(&"u".to_string());
    assert!(matches!(docs.change_document(&"u".to_string()), ChangeAction::SendOpen));
}

#[test]
fn pending_ids_settle_once() {
    let mut pending = PendingTable::new();
    let a = pending.issue();
    let b = pending.issue();
    assert_ne!(a, b);
    assert!(pending.take(a));
    assert!(!pending.take(a));
    assert!(pending.take(b));
    assert!(!pending.take(b));
}

#[test]
fn language_detection_follows_the_extension() {
    assert_eq!(detect_language("src/main.rs"), "rust");
    assert_eq!(detect_language("a/b.ts"), "typescript");
    assert_eq!(detect_language("c.tsx"), "typescriptreact");
    assert_eq!(detect_language("c.js"), "javascript");
    assert_eq!(detect_language("c.jsx"), "javascriptreact");
    assert_eq!(detect_language("c.json"), "json");
    assert_eq!(detect_language("README.md"), "markdown");
    assert_eq!(detect_language("Cargo.toml"), "toml");
    assert_eq!(detect_language("c.yaml"), "yaml");
    assert_eq!(detect_language("c.yml"), "yaml");
    assert_eq!(detect_language("no_extension"), "plaintext");
    assert_eq!(detect_language(".rs"), "plaintext");
    assert_eq!(detect_language("dir.rs/file"), "plaintext");
}

#[test]
fn ancestors_walk_to_the_root() {
    assert_eq!(ancestor_dirs("/a/b/c.rs"), vec!["/a/b", "/a", "/"]);
    assert_eq!(ancestor_dirs("rel/file.rs"), vec!["rel"]);
    assert_eq!(ancestor_dirs("bare"), Vec::<String>::new());
}

#[test]
fn rust_analyzer_configuration() {
    let config = LanguageServerConfig::rust_analyzer();
    assert_eq!(config.command, "rust-analyzer");
    assert!(config.args.is_empty());
}

#[test]
fn completion_response_flattens() {
    let items = vec![CompletionItem {
        label: "one".to_string(),
        kind: None,
        detail: None,
        documentation: None,
        insert_text: None,
        insert_text_format: None,
        text_edit: None,
        filter_text: None,
        sort_text: None,
    }];
    let as_list = CompletionResponse::List(CompletionList { is_incomplete: false, items: items.clone() });
    assert_eq!(as_list.into_items().len(), 1);
    let as_array = CompletionResponse::Array(items);
    assert_eq!(as_array.into_items()[0].label, "one");
}

fn range(l1: u32, c1: u32, l2: u32, c2: u32) -> Range {
    Range {
        start: Position { line: l1, character: c1 },
        end: Position { line: l2, character: c2 },
    }
}

#[test]
fn definition_links_flatten_to_selection_ranges() {
    let link = LocationLink {
        origin_selection_range: None,
        target_uri: "file:///t.rs".to_string(),
        target_range: range(0, 0, 9, 9),
        target_selection_range: range(1, 2, 1, 5),
    };
    let locs = DefinitionResponse::Links(vec![link]).into_locations();
    assert_eq!(locs.len(), 1);
    assert_eq!(locs[0].uri, "file:///t.rs");
    assert_eq!(locs[0].range, range(1, 2, 1, 5));
    let single = DefinitionResponse::Single(Location {
        uri: "u".to_string(),
        range: range(0, 0, 0, 1),
    });
    assert_eq!(single.into_locations().len(), 1);
}

#[test]
fn definition_reply_reads_all_shapes() {
    let single = parse_json(b"{\"uri\":\"file:///x.rs\",\"range\":{\"start\":{\"line\":1,\"character\":2},\"end\":{\"line\":1,\"character\":3}}}").unwrap();
    let d = DefinitionResponse::from_json(&single).unwrap();
    let locs = d.into_locations();
    assert_eq!(locs[0].uri, "file:///x.rs");
    assert_eq!(locs[0].range, range(1, 2, 1, 3));

    let links = parse_json(b"[{\"targetUri\":\"file:///y.rs\",\"targetRange\":{\"start\":{\"line\":0,\"character\":0},\"end\":{\"line\":5,\"character\":0}},\"targetSelectionRange\":{\"start\":{\"line\":2,\"character\":4},\"end\":{\"line\":2,\"character\":8}}}]").unwrap();
    let d2 = DefinitionResponse::from_json(&links).unwrap();
    let locs2 = d2.into_locations();
    assert_eq!(locs2[0].uri, "file:///y.rs");
    assert_eq!(locs2[0].range, range(2, 4, 2, 8));
}

#[test]
fn bare_commands_promote_to_actions() {
    let cmd = Command {
        title: "do it".to_string(),
        command: "x.apply".to_string(),
        arguments: None,
    };
    let actions =
        CodeActionResponse::Actions(vec![CodeActionOrCommand::Bare(cmd)]).into_actions();
    assert_eq!(actions.len(), 1);
    assert_eq!(actions[0].title, "do it");
    assert!(actions[0].command.is_some());
    assert!(actions[0].edit.is_none());
}

#[test]
fn code_action_reply_reads_actions_and_commands() {
    let body = b"[{\"title\":\"fix\",\"kind\":\"quickfix\",\"isPreferred\":true},{\"title\":\"run\",\"command\":\"cmd.id\"}]";
    let j = parse_json(body).unwrap();
    let resp = CodeActionResponse::from_json(&j).unwrap();
    let actions = resp.into_actions();
    assert_eq!(actions.len(), 2);
    assert_eq!(actions[0].title, "fix");
    assert_eq!(actions[0].kind, Some("quickfix".to_string()));
    assert_eq!(actions[1].title, "run");
    assert_eq!(actions[1].command.as_ref().unwrap().command, "cmd.id");
}

#[test]
fn hover_contents_normalize_to_one_string() {
    let hover = Hover {
        contents: HoverContents::Many(vec![
            MarkedString::Plain("first".to_string()),
            MarkedString::LanguageString {
                language: "rust".to_string(),
                value: "second".to_string(),
            },
        ]),
        range: None,
    };
    let flat = SerializedHover::of_hover(hover);
    assert_eq!(flat.contents, "first\n\nsecond");

    let body = b"{\"contents\":{\"kind\":\"markdown\",\"value\":\"docs\"}}";
    let h = Hover::from_json(&parse_json(body).unwrap()).unwrap();
    let flat2 = SerializedHover::of_hover(h);
    assert_eq!(flat2.contents, "docs");
}

#[test]
fn workspace_edit_flattens_document_changes() {
    let edit = WorkspaceEdit {
        changes: None,
        document_changes: Some(vec![DocumentChange::Edit(TextDocumentEdit {
            text_document: OptionalVersionedTextDocumentIdentifier {
                uri: "file:///e.rs".to_string(),
                version: Some(4),
            },
            edits: vec![TextEditOrAnnotated::Plain(TextEdit {
                range: range(0, 0, 0, 3),
                new_text: "new".to_string(),
            })],
        })]),
    };
    let flat = SerializedWorkspaceEdit::of_workspace_edit(edit);
    let dc = flat.document_changes.unwrap();
    assert_eq!(dc.len(), 1);
    assert_eq!(dc[0].uri, "file:///e.rs");
    assert_eq!(dc[0].edits[0].new_text, "new");
}

#[test]
fn diagnostics_notification_reads() {
    let body = b"{\"uri\":\"file:///d.rs\",\"version\":7,\"diagnostics\":[{\"range\":{\"start\":{\"line\":0,\"character\":0},\"end\":{\"line\":0,\"character\":4}},\"severity\":1,\"code\":\"E0308\",\"source\":\"rustc\",\"message\":\"mismatched types\"}]}";
    let dp = PublishDiagnosticsParams::from_json(&parse_json(body).unwrap()).unwrap();
    assert_eq!(dp.uri, "file:///d.rs");
    assert_eq!(dp.version, Some(7));
    assert_eq!(dp.diagnostics.len(), 1);
    assert_eq!(dp.diagnostics[0].message, "mismatched types");
    assert_eq!(dp.diagnostics[0].severity.unwrap().0, 1);
}

#[test]
fn initialize_reply_reads_capabilities() {
    let body = b"{\"capabilities\":{\"textDocumentSync\":1,\"hoverProvider\":true,\"definitionProvider\":true},\"serverInfo\":{\"name\":\"rust-analyzer\"}}";
    let ir = InitializeResult::from_json(&parse_json(body).unwrap()).unwrap();
    assert_eq!(ir.capabilities.hover_provider, Some(true));
    assert_eq!(ir.capabilities.definition_provider, Some(true));
    assert_eq!(ir.server_info.unwrap().name, "rust-analyzer");
    let caps: &ServerCapabilities = &InitializeResult::from_json(
        &parse_json(body).unwrap(),
    ).unwrap().capabilities;
    assert!(caps.completion_provider.is_none());
}

#[test]
fn frame_round_trip_carries_a_request() {
    let req = Request::new(
        2,
        "textDocument/definition".to_string(),
        Some(obj1("position", Json::Int(0))),
    );
    let frame = req.to_frame();
    match read_frame(&frame) {
        FrameRead::Frame { body, consumed } => {
            assert_eq!(consumed, frame.len());
            let j = parse_json(&body).unwrap();
            let msg = IncomingMessage::from_json(&j).unwrap();
            assert_eq!(msg.id, Some(2));
            assert_eq!(msg.method, Some("textDocument/definition".to_string()));
        }
        _ => panic!("expected a whole frame"),
    }
}

#[test]
fn header_lines_tolerate_surrounding_whitespace() {
    let data = b"  Content-Length: 5  \r\nAnother: x\r\n\r\nhello";
    match read_frame(data) {
        FrameRead::Frame { body, .. } => assert_eq!(body, b"hello"),
        _ => panic!("expected a whole frame"),
    }
}

#[test]
fn a_later_length_header_wins() {
    let data = b"Content-Length: 1\r\nContent-Length: 2\r\n\r\nhi";
    match read_frame(data) {
        FrameRead::Frame { body, consumed } => {
            assert_eq!(body, b"hi");
            assert_eq!(consumed, data.len());
        }
        _ => panic!("expected a whole frame"),
    }
}
