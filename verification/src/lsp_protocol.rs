//! The typed vocabulary of the Language Server Protocol that the broker
//! speaks: positions, diagnostics, capabilities, and the union-shaped
//! responses it flattens for its callers.

use vstd::prelude::*;
use crate::json::Json;
use vstd::string::StringSliceAdditionalSpecFns;

verus! {

/// A position in a document: zero-based line and character.
#[derive(Debug, Clone, Copy, PartialEq, Eq, Structural)]
pub struct Position {
    pub line: u32,
    pub character: u32,
}

/// A range in a document.
#[derive(Debug, Clone, Copy, PartialEq, Eq, Structural)]
pub struct Range {
    pub start: Position,
    pub end: Position,
}

/// A place in some document.
#[derive(Debug, Clone)]
pub struct Location {
    pub uri: String,
    pub range: Range,
}

/// Severity of a diagnostic; the wire carries a small number.
#[derive(Debug, Clone, Copy, PartialEq, Eq, Structural)]
pub struct DiagnosticSeverity(pub u8);

/// A diagnostic code: the wire carries a number or a string.
#[derive(Debug, Clone)]
pub enum DiagnosticCode {
    Number(i32),
    Text(String),
}

/// One diagnostic in a document.
#[derive(Debug, Clone)]
pub struct Diagnostic {
    pub range: Range,
    pub severity: Option<DiagnosticSeverity>,
    pub code: Option<DiagnosticCode>,
    pub source: Option<String>,
    pub message: String,
}

/// Names a document.
#[derive(Debug, Clone)]
pub struct TextDocumentIdentifier {
    pub uri: String,
}

/// Names a document at a version.
#[derive(Debug, Clone)]
pub struct VersionedTextDocumentIdentifier {
    pub uri: String,
    pub version: i32,
}

/// A document opened with its full text.
#[derive(Debug, Clone)]
pub struct TextDocumentItem {
    pub uri: String,
    pub language_id: String,
    pub version: i32,
    pub text: String,
}

/// A document and a position in it.
#[derive(Debug, Clone)]
pub struct TextDocumentPositionParams {
    pub text_document: TextDocumentIdentifier,
    pub position: Position,
}

/// Rich text with a declared markup kind.
#[derive(Debug, Clone)]
pub struct MarkupContent {
    pub kind: MarkupKind,
    pub value: String,
}

/// The markup kinds a hover may carry.
#[derive(Debug, Clone, Copy, PartialEq, Eq, Structural)]
pub enum MarkupKind {
    PlainText,
    Markdown,
}

/// A hover result.
#[derive(Debug, Clone)]
pub struct Hover {
    pub contents: HoverContents,
    pub range: Option<Range>,
}

/// The shapes hover contents arrive in.
#[derive(Debug, Clone)]
pub enum HoverContents {
    Markup(MarkupContent),
    Plain(String),
    Many(Vec<MarkedString>),
    Marked(MarkedString),
}

/// A string, possibly tagged with a language.
#[derive(Debug, Clone)]
pub enum MarkedString {
    Plain(String),
    LanguageString { language: String, value: String },
}

/// The kind of a completion item; the wire carries a small number.
#[derive(Debug, Clone, Copy, PartialEq, Eq, Structural)]
pub struct CompletionItemKind(pub u8);

/// One completion suggestion.
#[derive(Debug, Clone)]
pub struct CompletionItem {
    pub label: String,
    pub kind: Option<CompletionItemKind>,
    pub detail: Option<String>,
    pub documentation: Option<Documentation>,
    pub insert_text: Option<String>,
    pub insert_text_format: Option<InsertTextFormat>,
    pub text_edit: Option<TextEdit>,
    pub filter_text: Option<String>,
    pub sort_text: Option<String>,
}

/// Documentation of a completion item.
#[derive(Debug, Clone)]
pub enum Documentation {
    Plain(String),
    Markup(MarkupContent),
}

/// How an inserted text is to be read; the wire carries a small number.
#[derive(Debug, Clone, Copy, PartialEq, Eq, Structural)]
pub struct InsertTextFormat(pub u8);

/// A replacement of a range by new text.
#[derive(Debug, Clone)]
pub struct TextEdit {
    pub range: Range,
    pub new_text: String,
}

/// A completion list, possibly incomplete.
#[derive(Debug, Clone)]
pub struct CompletionList {
    pub is_incomplete: bool,
    pub items: Vec<CompletionItem>,
}

/// A completion response: a list or a bare array.
#[derive(Debug, Clone)]
pub enum CompletionResponse {
    List(CompletionList),
    Array(Vec<CompletionItem>),
}

/// The completion items of either response shape, in order.
pub open spec fn spec_into_items(r: CompletionResponse) -> Seq<CompletionItem> {
    match r {
        CompletionResponse::List(list) => list.items@,
        CompletionResponse::Array(items) => items@,
    }
}

impl CompletionResponse {
    /// Flattens either response shape to its items.
    pub fn into_items(self) -> (r: Vec<CompletionItem>)
        ensures
            r@ == spec_into_items(self),
    {
        match self {
            CompletionResponse::List(list) => list.items,
            CompletionResponse::Array(items) => items,
        }
    }
}

/// A definition response: one place, several, or links.
#[derive(Debug, Clone)]
pub enum DefinitionResponse {
    Single(Location),
    Array(Vec<Location>),
    Links(Vec<LocationLink>),
}

/// A definition link; richer than a bare location.
#[derive(Debug, Clone)]
pub struct LocationLink {
    pub origin_selection_range: Option<Range>,
    pub target_uri: String,
    pub target_range: Range,
    pub target_selection_range: Range,
}

/// The locations of any definition response shape: a link contributes its
/// target and the target's selection range.
pub open spec fn spec_into_locations(r: DefinitionResponse) -> Seq<Location> {
    match r {
        DefinitionResponse::Single(loc) => seq![loc],
        DefinitionResponse::Array(locs) => locs@,
        DefinitionResponse::Links(links) => Seq::new(
            links@.len(),
            |i: int|
                Location {
                    uri: links@[i].target_uri,
                    range: links@[i].target_selection_range,
                },
        ),
    }
}

impl DefinitionResponse {
    /// Flattens any response shape to a list of locations.
    pub fn into_locations(self) -> (r: Vec<Location>)
        ensures
            r@ == spec_into_locations(self),
    {
        match self {
            DefinitionResponse::Single(loc) => {
                let mut out: Vec<Location> = Vec::new();
                out.push(loc);
                proof {
                    assert(out@ =~= spec_into_locations(self));
                }
                out
            },
            DefinitionResponse::Array(locs) => locs,
            DefinitionResponse::Links(links) => {
                let ghost target = spec_into_locations(self);
                let mut out: Vec<Location> = Vec::new();
                let mut k: usize = 0;
                while k < links.len()
                    invariant
                        k <= links@.len(),
                        target == spec_into_locations(DefinitionResponse::Links(links)),
                        target.len() == links@.len(),
                        out@ == target.take(k as int),
                    decreases links@.len() - k,
                {
                    let link = &links[k];
                    out.push(
                        Location { uri: link.target_uri.clone(), range: link.target_selection_range },
                    );
                    proof {
                        assert(target[k as int] == (Location {
                            uri: links@[k as int].target_uri,
                            range: links@[k as int].target_selection_range,
                        }));
                        assert(out@ =~= target.take(k as int + 1));
                    }
                    k = k + 1;
                }
                proof {
                    assert(target.take(links@.len() as int) =~= target);
                }
                out
            },
        }
    }
}

/// A command offered by the server.
#[derive(Debug)]
pub struct Command {
    pub title: String,
    pub command: String,
    pub arguments: Option<Vec<Json>>,
}

/// Why a code action cannot run.
#[derive(Debug, Clone)]
pub struct CodeActionDisabled {
    pub reason: String,
}

/// A change the server offers to perform.
#[derive(Debug)]
pub struct CodeAction {
    pub title: String,
    pub kind: Option<String>,
    pub diagnostics: Option<Vec<Diagnostic>>,
    pub is_preferred: Option<bool>,
    pub disabled: Option<CodeActionDisabled>,
    pub edit: Option<WorkspaceEdit>,
    pub command: Option<Command>,
    pub data: Option<Json>,
}

/// A collection of edits across documents.
#[derive(Debug, Clone)]
pub struct WorkspaceEdit {
    pub changes: Option<Vec<(String, Vec<TextEdit>)>>,
    pub document_changes: Option<Vec<DocumentChange>>,
}

/// One document-level change of a workspace edit.
#[derive(Debug, Clone)]
pub enum DocumentChange {
    Edit(TextDocumentEdit),
    Create(CreateFile),
    Rename(RenameFile),
    Delete(DeleteFile),
}

/// Edits of one versioned document.
#[derive(Debug, Clone)]
pub struct TextDocumentEdit {
    pub text_document: OptionalVersionedTextDocumentIdentifier,
    pub edits: Vec<TextEditOrAnnotated>,
}

/// Names a document, with its version when known.
#[derive(Debug, Clone)]
pub struct OptionalVersionedTextDocumentIdentifier {
    pub uri: String,
    pub version: Option<i32>,
}

/// A plain or annotated text edit.
#[derive(Debug, Clone)]
pub enum TextEditOrAnnotated {
    Plain(TextEdit),
    Annotated(AnnotatedTextEdit),
}

/// A text edit with an annotation.
#[derive(Debug, Clone)]
pub struct AnnotatedTextEdit {
    pub range: Range,
    pub new_text: String,
    pub annotation_id: String,
}

/// A file creation offered by an edit.
#[derive(Debug, Clone)]
pub struct CreateFile {
    pub kind: String,
    pub uri: String,
    pub options: Option<CreateFileOptions>,
}

#[derive(Debug, Clone)]
pub struct CreateFileOptions {
    pub overwrite: Option<bool>,
    pub ignore_if_exists: Option<bool>,
}

/// A file rename offered by an edit.
#[derive(Debug, Clone)]
pub struct RenameFile {
    pub kind: String,
    pub old_uri: String,
    pub new_uri: String,
    pub options: Option<RenameFileOptions>,
}

#[derive(Debug, Clone)]
pub struct RenameFileOptions {
    pub overwrite: Option<bool>,
    pub ignore_if_exists: Option<bool>,
}

/// A file deletion offered by an edit.
#[derive(Debug, Clone)]
pub struct DeleteFile {
    pub kind: String,
    pub uri: String,
    pub options: Option<DeleteFileOptions>,
}

#[derive(Debug, Clone)]
pub struct DeleteFileOptions {
    pub recursive: Option<bool>,
    pub ignore_if_not_exists: Option<bool>,
}

/// A code action response: a list of actions or bare commands.
#[derive(Debug)]
pub enum CodeActionResponse {
    Actions(Vec<CodeActionOrCommand>),
}

/// One entry of a code action response.
#[derive(Debug)]
pub enum CodeActionOrCommand {
    Action(CodeAction),
    Bare(Command),
}

/// A bare command promoted to an action that only carries it.
pub open spec fn spec_promoted_action(cmd: Command) -> CodeAction {
    CodeAction {
        title: cmd.title,
        kind: None,
        diagnostics: None,
        is_preferred: None,
        disabled: None,
        edit: None,
        command: Some(cmd),
        data: None,
    }
}

/// The actions of a response, bare commands promoted.
pub open spec fn spec_into_actions(r: CodeActionResponse) -> Seq<CodeAction> {
    match r {
        CodeActionResponse::Actions(items) => Seq::new(
            items@.len(),
            |i: int|
                match items@[i] {
                    CodeActionOrCommand::Action(a) => a,
                    CodeActionOrCommand::Bare(cmd) => spec_promoted_action(cmd),
                },
        ),
    }
}

impl CodeActionResponse {
    /// Flattens the response to code actions, promoting bare commands to
    /// actions that carry them.
    pub fn into_actions(self) -> (r: Vec<CodeAction>)
        ensures
            r@ == spec_into_actions(self),
    {
        let ghost target = spec_into_actions(self);
        match self {
            CodeActionResponse::Actions(items) => {
                let ghost all = items@;
                proof {
                    assert(target =~= Seq::new(
                        all.len(),
                        |i: int|
                            match all[i] {
                                CodeActionOrCommand::Action(a) => a,
                                CodeActionOrCommand::Bare(c) => spec_promoted_action(c),
                            },
                    ));
                }
                let mut out: Vec<CodeAction> = Vec::new();
                let mut rest = items;
                while rest.len() > 0
                    invariant
                        out@.len() + rest@.len() == all.len(),
                        rest@ == all.skip(out@.len() as int),
                        target.len() == all.len(),
                        target == Seq::new(
                            all.len(),
                            |i: int|
                                match all[i] {
                                    CodeActionOrCommand::Action(a) => a,
                                    CodeActionOrCommand::Bare(c) => spec_promoted_action(c),
                                },
                        ),
                        out@ == target.take(out@.len() as int),
                    decreases rest@.len(),
                {
                    let ghost k = out@.len() as int;
                    let item = rest.remove(0);
                    proof {
                        assert(all.skip(k)[0] == all[k]);
                        assert(rest@ =~= all.skip(k + 1));
                    }
                    let action = match item {
                        CodeActionOrCommand::Action(a) => a,
                        CodeActionOrCommand::Bare(cmd) => {
                            let title = cmd.title.clone();
                            CodeAction {
                                title,
                                kind: None,
                                diagnostics: None,
                                is_preferred: None,
                                disabled: None,
                                edit: None,
                                command: Some(cmd),
                                data: None,
                            }
                        },
                    };
                    proof {
                        assert(action == target[k]);
                    }
                    out.push(action);
                    proof {
                        assert(out@ =~= target.take(k + 1));
                    }
                }
                proof {
                    assert(target.take(all.len() as int) =~= target);
                }
                out
            },
        }
    }
}

// ---------------------------------------------------------------------------
// Requests, notifications and capabilities
// ---------------------------------------------------------------------------
/// What a language server is started as.
#[derive(Debug, Clone)]
pub struct LanguageServerConfig {
    pub command: String,
    pub args: Vec<String>,
}

impl LanguageServerConfig {
    /// The configuration for rust-analyzer.
    pub fn rust_analyzer() -> (r: LanguageServerConfig)
        ensures
            r.command@ == "rust-analyzer"@,
            r.args@.len() == 0,
    {
        LanguageServerConfig { command: String::from_str("rust-analyzer"), args: Vec::new() }
    }
}

/// A notification from the server that the broker routes onward.
#[derive(Debug, Clone)]
pub enum ServerNotification {
    Diagnostics(PublishDiagnosticsParams),
}

/// Parameters of a published-diagnostics notification.
#[derive(Debug, Clone)]
pub struct PublishDiagnosticsParams {
    pub uri: String,
    pub version: Option<i32>,
    pub diagnostics: Vec<Diagnostic>,
}

#[derive(Debug, Clone)]
pub struct ClientCapabilities {
    pub text_document: Option<TextDocumentClientCapabilities>,
}

#[derive(Debug, Clone)]
pub struct TextDocumentClientCapabilities {
    pub synchronization: Option<TextDocumentSyncClientCapabilities>,
    pub completion: Option<CompletionClientCapabilities>,
    pub hover: Option<HoverClientCapabilities>,
    pub definition: Option<DefinitionClientCapabilities>,
    pub references: Option<ReferencesClientCapabilities>,
    pub publish_diagnostics: Option<PublishDiagnosticsClientCapabilities>,
    pub code_action: Option<CodeActionClientCapabilities>,
}

#[derive(Debug, Clone)]
pub struct TextDocumentSyncClientCapabilities {
    pub did_save: Option<bool>,
}

#[derive(Debug, Clone)]
pub struct CompletionClientCapabilities {
    pub completion_item: Option<CompletionItemClientCapabilities>,
}

#[derive(Debug, Clone)]
pub struct CompletionItemClientCapabilities {
    pub snippet_support: Option<bool>,
    pub documentation_format: Option<Vec<MarkupKind>>,
}

#[derive(Debug, Clone)]
pub struct HoverClientCapabilities {
    pub content_format: Option<Vec<MarkupKind>>,
}

#[derive(Debug, Clone)]
pub struct DefinitionClientCapabilities {
    pub link_support: Option<bool>,
}

#[derive(Debug, Clone)]
pub struct ReferencesClientCapabilities {}

#[derive(Debug, Clone)]
pub struct PublishDiagnosticsClientCapabilities {}

#[derive(Debug, Clone)]
pub struct CodeActionClientCapabilities {
    pub dynamic_registration: Option<bool>,
    pub code_action_literal_support: Option<CodeActionLiteralSupport>,
    pub is_preferred_support: Option<bool>,
    pub disabled_support: Option<bool>,
    pub data_support: Option<bool>,
    pub resolve_support: Option<CodeActionResolveSupport>,
}

#[derive(Debug, Clone)]
pub struct CodeActionLiteralSupport {
    pub code_action_kind: Option<CodeActionKindValueSet>,
}

#[derive(Debug, Clone)]
pub struct CodeActionKindValueSet {
    pub value_set: Vec<String>,
}

#[derive(Debug, Clone)]
pub struct CodeActionResolveSupport {
    pub properties: Vec<String>,
}

/// Parameters of the initialize request.
#[derive(Debug, Clone)]
pub struct InitializeParams {
    pub process_id: Option<u32>,
    pub client_info: Option<ClientInfo>,
    pub root_uri: Option<String>,
    pub capabilities: ClientCapabilities,
}

#[derive(Debug, Clone)]
pub struct ClientInfo {
    pub name: String,
    pub version: Option<String>,
}

/// The initialize request's result.
#[derive(Debug, Clone)]
pub struct InitializeResult {
    pub capabilities: ServerCapabilities,
    pub server_info: Option<ServerInfo>,
}

#[derive(Debug, Clone)]
pub struct ServerInfo {
    pub name: String,
    pub version: Option<String>,
}

/// The server capabilities the broker records.
#[derive(Debug, Clone)]
pub struct ServerCapabilities {
    pub text_document_sync: Option<TextDocumentSyncCapability>,
    pub completion_provider: Option<CompletionOptions>,
    pub hover_provider: Option<bool>,
    pub definition_provider: Option<bool>,
    pub references_provider: Option<bool>,
}

#[derive(Debug, Clone)]
pub enum TextDocumentSyncCapability {
    Kind(TextDocumentSyncKind),
    Options(TextDocumentSyncOptions),
}

#[derive(Debug, Clone, Copy, PartialEq, Eq, Structural)]
pub struct TextDocumentSyncKind(pub u8);

#[derive(Debug, Clone)]
pub struct TextDocumentSyncOptions {
    pub open_close: Option<bool>,
    pub change: Option<TextDocumentSyncKind>,
    pub save: Option<SaveOptions>,
}

#[derive(Debug, Clone)]
pub struct SaveOptions {
    pub include_text: Option<bool>,
}

#[derive(Debug, Clone)]
pub struct CompletionOptions {
    pub trigger_characters: Option<Vec<String>>,
    pub resolve_provider: Option<bool>,
}

/// Parameters of a didOpen notification.
#[derive(Debug, Clone)]
pub struct DidOpenTextDocumentParams {
    pub text_document: TextDocumentItem,
}

/// Parameters of a didChange notification; sync is always full text.
#[derive(Debug, Clone)]
pub struct DidChangeTextDocumentParams {
    pub text_document: VersionedTextDocumentIdentifier,
    pub content_changes: Vec<TextDocumentContentChangeEvent>,
}

/// One content change: the document's whole new text.
#[derive(Debug, Clone)]
pub struct TextDocumentContentChangeEvent {
    pub text: String,
}

/// Parameters of a didClose notification.
#[derive(Debug, Clone)]
pub struct DidCloseTextDocumentParams {
    pub text_document: TextDocumentIdentifier,
}

/// Parameters of a references request.
#[derive(Debug, Clone)]
pub struct ReferenceParams {
    pub text_document: TextDocumentIdentifier,
    pub position: Position,
    pub context: ReferenceContext,
}

#[derive(Debug, Clone)]
pub struct ReferenceContext {
    pub include_declaration: bool,
}

/// A code action kind string.
#[derive(Debug, Clone)]
pub struct CodeActionKind(pub String);

/// Parameters of a code action request.
#[derive(Debug)]
pub struct CodeActionParams {
    pub text_document: TextDocumentIdentifier,
    pub range: Range,
    pub context: CodeActionContext,
}

/// Context of a code action request.
#[derive(Debug)]
pub struct CodeActionContext {
    pub diagnostics: Vec<Diagnostic>,
    pub only: Option<Vec<String>>,
    pub trigger_kind: Option<CodeActionTriggerKind>,
}

/// What triggered a code action request; the wire carries a small number.
#[derive(Debug, Clone, Copy, PartialEq, Eq, Structural)]
pub struct CodeActionTriggerKind(pub u8);

// ---------------------------------------------------------------------------
// Language detection
// ---------------------------------------------------------------------------
/// Index right after the last occurrence of `b`, or zero.
pub open spec fn after_last(s: Seq<u8>, b: u8) -> int
    decreases s.len(),
{
    if s.len() == 0 {
        0
    } else if s.last() == b {
        s.len() as int
    } else {
        after_last(s.drop_last(), b)
    }
}

/// The extension of a path: what follows the last dot of the part after the
/// last slash, absent when there is no dot or only a leading one.
pub open spec fn spec_extension(p: Seq<u8>) -> Option<Seq<u8>> {
    let name = p.skip(after_last(p, 0x2f));
    let d = after_last(name, 0x2e);
    if d >= 2 {
        Some(name.skip(d))
    } else {
        None
    }
}

/// The language id an extension names; everything unknown is plain text.
pub open spec fn spec_language_id(e: Option<Seq<u8>>) -> Seq<char> {
    match e {
        None => "plaintext"@,
        Some(x) => if x == seq![0x72u8, 0x73u8] {
            "rust"@
        } else if x == seq![0x74u8, 0x73u8] {
            "typescript"@
        } else if x == seq![0x74u8, 0x73u8, 0x78u8] {
            "typescriptreact"@
        } else if x == seq![0x6au8, 0x73u8] {
            "javascript"@
        } else if x == seq![0x6au8, 0x73u8, 0x78u8] {
            "javascriptreact"@
        } else if x == seq![0x6au8, 0x73u8, 0x6fu8, 0x6eu8] {
            "json"@
        } else if x == seq![0x6du8, 0x64u8] {
            "markdown"@
        } else if x == seq![0x74u8, 0x6fu8, 0x6du8, 0x6cu8] {
            "toml"@
        } else if x == seq![0x79u8, 0x61u8, 0x6du8, 0x6cu8] {
            "yaml"@
        } else if x == seq![0x79u8, 0x6du8, 0x6cu8] {
            "yaml"@
        } else {
            "plaintext"@
        },
    }
}

/// Whether the bytes are exactly the two given.
fn ext2(e: &[u8], a: u8, b: u8) -> (r: bool)
    ensures
        r == (e@ == seq![a, b]),
{
    let r = e.len() == 2 && e[0] == a && e[1] == b;
    proof {
        if r {
            assert(e@ =~= seq![a, b]);
        } else {
            if e@ == seq![a, b] {
                assert(e@.len() == 2 && e@[0] == a && e@[1] == b);
            }
        }
    }
    r
}

/// Whether the bytes are exactly the three given.
fn ext3(e: &[u8], a: u8, b: u8, c: u8) -> (r: bool)
    ensures
        r == (e@ == seq![a, b, c]),
{
    let r = e.len() == 3 && e[0] == a && e[1] == b && e[2] == c;
    proof {
        if r {
            assert(e@ =~= seq![a, b, c]);
        } else {
            if e@ == seq![a, b, c] {
                assert(e@.len() == 3 && e@[0] == a && e@[1] == b && e@[2] == c);
            }
        }
    }
    r
}

/// Whether the bytes are exactly the four given.
fn ext4(e: &[u8], a: u8, b: u8, c: u8, d: u8) -> (r: bool)
    ensures
        r == (e@ == seq![a, b, c, d]),
{
    let r = e.len() == 4 && e[0] == a && e[1] == b && e[2] == c && e[3] == d;
    proof {
        if r {
            assert(e@ =~= seq![a, b, c, d]);
        } else {
            if e@ == seq![a, b, c, d] {
                assert(e@.len() == 4 && e@[0] == a && e@[1] == b && e@[2] == c && e@[3] == d);
            }
        }
    }
    r
}

/// The language id a file's extension names, for the didOpen notification.
#[verifier::loop_isolation(false)]
pub fn detect_language(file_path: &str) -> (r: String)
    ensures
        r@ == spec_language_id(spec_extension(file_path.spec_bytes())),
{
    let bytes: &[u8] = file_path.as_bytes();
    proof {
        assert(bytes@.take(bytes@.len() as int) =~= bytes@);
    }
    let mut j: usize = bytes.len();
    while j > 0 && bytes[j - 1] != 0x2f
        invariant
            j <= bytes@.len(),
            after_last(bytes@, 0x2f) == after_last(bytes@.take(j as int), 0x2f),
        decreases j,
    {
        proof {
            assert(bytes@.take(j as int).drop_last() =~= bytes@.take(j as int - 1));
        }
        j = j - 1;
    }
    let nstart = j;
    proof {
        if nstart > 0 {
            assert(after_last(bytes@.take(nstart as int), 0x2f) == nstart as int);
        } else {
            assert(bytes@.take(0) =~= Seq::<u8>::empty());
        }
        assert(after_last(bytes@, 0x2f) == nstart as int);
    }
    let ghost name = bytes@.skip(nstart as int);
    proof {
        assert(name.take(bytes@.len() - nstart) =~= name);
    }
    let mut d: usize = bytes.len();
    while d > nstart && bytes[d - 1] != 0x2e
        invariant
            nstart <= d <= bytes@.len(),
            after_last(name, 0x2e) == after_last(name.take(d - nstart), 0x2e),
        decreases d,
    {
        proof {
            assert(name.take(d - nstart)[d - nstart - 1] == bytes@[d - 1]);
            assert(name.take(d - nstart).drop_last() =~= name.take(d - nstart - 1));
        }
        d = d - 1;
    }
    proof {
        if d > nstart {
            assert(name.take(d - nstart)[d - nstart - 1] == bytes@[d - 1]);
            assert(name.take(d - nstart).last() == 0x2e);
            assert(after_last(name.take(d - nstart), 0x2e) == d - nstart);
        } else {
            assert(name.take(0) =~= Seq::<u8>::empty());
        }
        assert(after_last(name, 0x2e) == d - nstart);
    }
    if d - nstart < 2 {
        return String::from_str("plaintext");
    }
    let ext: &[u8] = &bytes[d..bytes.len()];
    proof {
        assert(ext@ =~= name.skip(d - nstart));
        assert(spec_extension(file_path.spec_bytes()) == Some(ext@));
    }
    if ext2(ext, 0x72, 0x73) {
        String::from_str("rust")
    } else if ext2(ext, 0x74, 0x73) {
        String::from_str("typescript")
    } else if ext3(ext, 0x74, 0x73, 0x78) {
        String::from_str("typescriptreact")
    } else if ext2(ext, 0x6a, 0x73) {
        String::from_str("javascript")
    } else if ext3(ext, 0x6a, 0x73, 0x78) {
        String::from_str("javascriptreact")
    } else if ext4(ext, 0x6a, 0x73, 0x6f, 0x6e) {
        String::from_str("json")
    } else if ext2(ext, 0x6d, 0x64) {
        String::from_str("markdown")
    } else if ext4(ext, 0x74, 0x6f, 0x6d, 0x6c) {
        String::from_str("toml")
    } else if ext4(ext, 0x79, 0x61, 0x6d, 0x6c) {
        String::from_str("yaml")
    } else if ext3(ext, 0x79, 0x6d, 0x6c) {
        String::from_str("yaml")
    } else {
        String::from_str("plaintext")
    }
}

// ---------------------------------------------------------------------------
// Flat shapes handed to the frontend
// ---------------------------------------------------------------------------
/// A location flattened for the frontend.
#[derive(Debug, Clone)]
pub struct SerializedLocation {
    pub uri: String,
    pub range: SerializedRange,
}

#[derive(Debug, Clone, Copy, PartialEq, Eq, Structural)]
pub struct SerializedRange {
    pub start: SerializedPosition,
    pub end: SerializedPosition,
}

#[derive(Debug, Clone, Copy, PartialEq, Eq, Structural)]
pub struct SerializedPosition {
    pub line: u32,
    pub character: u32,
}

/// The flat form of a range.
pub open spec fn spec_ser_range(r: Range) -> SerializedRange {
    SerializedRange {
        start: SerializedPosition { line: r.start.line, character: r.start.character },
        end: SerializedPosition { line: r.end.line, character: r.end.character },
    }
}

/// Copies a range into its flat form.
pub fn ser_range(r: Range) -> (s: SerializedRange)
    ensures
        s == spec_ser_range(r),
{
    SerializedRange {
        start: SerializedPosition { line: r.start.line, character: r.start.character },
        end: SerializedPosition { line: r.end.line, character: r.end.character },
    }
}

impl vstd::std_specs::convert::FromSpecImpl<Location> for SerializedLocation {
    open spec fn obeys_from_spec() -> bool {
        true
    }

    open spec fn from_spec(loc: Location) -> SerializedLocation {
        SerializedLocation { uri: loc.uri, range: spec_ser_range(loc.range) }
    }
}

impl From<Location> for SerializedLocation {
    /// The flat form of a location.
    fn from(loc: Location) -> (r: SerializedLocation) {
        SerializedLocation { uri: loc.uri, range: ser_range(loc.range) }
    }
}

/// A hover flattened for the frontend: its contents as one string.
#[derive(Debug, Clone)]
pub struct SerializedHover {
    pub contents: String,
    pub range: Option<SerializedRange>,
}

/// The text of one marked string.
pub open spec fn spec_marked_text(m: MarkedString) -> Seq<char> {
    match m {
        MarkedString::Plain(s) => s@,
        MarkedString::LanguageString { language, value } => value@,
    }
}

/// The texts of several marked strings, joined by blank lines.
pub open spec fn spec_joined_texts(arr: Seq<MarkedString>) -> Seq<char>
    decreases arr.len(),
{
    if arr.len() == 0 {
        Seq::empty()
    } else if arr.len() == 1 {
        spec_marked_text(arr[0])
    } else {
        spec_joined_texts(arr.drop_last()) + "\n\n"@ + spec_marked_text(arr.last())
    }
}

/// The single normalized text of any hover contents shape.
pub open spec fn spec_hover_text(c: HoverContents) -> Seq<char> {
    match c {
        HoverContents::Markup(m) => m.value@,
        HoverContents::Plain(s) => s@,
        HoverContents::Marked(m) => spec_marked_text(m),
        HoverContents::Many(arr) => spec_joined_texts(arr@),
    }
}

impl SerializedHover {
    /// Normalizes a hover: markup and marked strings become their text, an
    /// array's texts are joined by blank lines.
    pub fn of_hover(hover: Hover) -> (r: SerializedHover)
        ensures
            r.contents@ == spec_hover_text(hover.contents),
            match hover.range {
                Some(rg) => r.range == Some(spec_ser_range(rg)),
                None => r.range is None,
            },
    {
        let range: Option<SerializedRange> = match hover.range {
            Some(rg) => Some(ser_range(rg)),
            None => None,
        };
        let contents: String = match hover.contents {
            HoverContents::Markup(m) => m.value,
            HoverContents::Plain(s) => s,
            HoverContents::Marked(MarkedString::Plain(s)) => s,
            HoverContents::Marked(MarkedString::LanguageString { language: _, value }) => value,
            HoverContents::Many(arr) => {
                let ghost all = arr@;
                let mut text = String::new();
                let mut rest = arr;
                let bound = rest.len();
                proof {
                    assert(all.len() == bound as int);
                }
                let mut taken: usize = 0;
                while rest.len() > 0
                    invariant
                        all.len() <= usize::MAX,
                        taken + rest@.len() == all.len(),
                        rest@ == all.skip(taken as int),
                        text@ == spec_joined_texts(all.take(taken as int)),
                    decreases rest@.len(),
                {
                    let ghost k = taken as int;
                    let m = rest.remove(0);
                    proof {
                        assert(all.skip(k)[0] == all[k]);
                        assert(rest@ =~= all.skip(k + 1));
                    }
                    if taken > 0 {
                        text.append("\n\n");
                    }
                    match m {
                        MarkedString::Plain(s) => {
                            text.append(s.as_str());
                        },
                        MarkedString::LanguageString { language: _, value } => {
                            text.append(value.as_str());
                        },
                    }
                    proof {
                        assert(all.take(k + 1).drop_last() =~= all.take(k));
                        assert(all.take(k + 1).last() == all[k]);
                        if k == 0 {
                            assert(all.take(1).len() == 1);
                            assert(all.take(1)[0] == all[0]);
                            assert(text@ =~= spec_joined_texts(all.take(1)));
                        } else {
                            assert(text@ =~= spec_joined_texts(all.take(k + 1)));
                        }
                    }
                    taken = taken + 1;
                }
                proof {
                    assert(all.take(all.len() as int) =~= all);
                }
                text
            },
        };
        SerializedHover { contents, range }
    }
}

/// A completion item flattened for the frontend.
#[derive(Debug, Clone)]
pub struct SerializedCompletionItem {
    pub label: String,
    pub kind: Option<u8>,
    pub detail: Option<String>,
    pub insert_text: Option<String>,
    pub filter_text: Option<String>,
}

impl vstd::std_specs::convert::FromSpecImpl<CompletionItem> for SerializedCompletionItem {
    open spec fn obeys_from_spec() -> bool {
        true
    }

    open spec fn from_spec(item: CompletionItem) -> SerializedCompletionItem {
        SerializedCompletionItem {
            label: item.label,
            kind: match item.kind {
                Some(k) => Some(k.0),
                None => None,
            },
            detail: item.detail,
            insert_text: item.insert_text,
            filter_text: item.filter_text,
        }
    }
}

impl From<CompletionItem> for SerializedCompletionItem {
    /// The flat form of a completion item: only what the frontend shows.
    fn from(item: CompletionItem) -> (r: SerializedCompletionItem) {
        SerializedCompletionItem {
            label: item.label,
            kind: match item.kind {
                Some(k) => Some(k.0),
                None => None,
            },
            detail: item.detail,
            insert_text: item.insert_text,
            filter_text: item.filter_text,
        }
    }
}

/// A text edit flattened for the frontend.
#[derive(Debug, Clone)]
pub struct SerializedTextEdit {
    pub range: SerializedRange,
    pub new_text: String,
}

impl vstd::std_specs::convert::FromSpecImpl<TextEdit> for SerializedTextEdit {
    open spec fn obeys_from_spec() -> bool {
        true
    }

    open spec fn from_spec(edit: TextEdit) -> SerializedTextEdit {
        SerializedTextEdit { range: spec_ser_range(edit.range), new_text: edit.new_text }
    }
}

impl From<TextEdit> for SerializedTextEdit {
    /// The flat form of a text edit.
    fn from(edit: TextEdit) -> (r: SerializedTextEdit) {
        SerializedTextEdit { range: ser_range(edit.range), new_text: edit.new_text }
    }
}

/// The flat form of a plain or annotated edit: the annotation is dropped.
pub open spec fn spec_flat_edit(e: TextEditOrAnnotated) -> SerializedTextEdit {
    match e {
        TextEditOrAnnotated::Plain(te) => SerializedTextEdit {
            range: spec_ser_range(te.range),
            new_text: te.new_text,
        },
        TextEditOrAnnotated::Annotated(a) => SerializedTextEdit {
            range: spec_ser_range(a.range),
            new_text: a.new_text,
        },
    }
}

/// A workspace edit flattened for the frontend.
#[derive(Debug, Clone)]
pub struct SerializedWorkspaceEdit {
    pub changes: Option<Vec<(String, Vec<SerializedTextEdit>)>>,
    pub document_changes: Option<Vec<SerializedDocumentChange>>,
}

/// Edits of one document, flattened for the frontend.
#[derive(Debug, Clone)]
pub struct SerializedDocumentChange {
    pub uri: String,
    pub edits: Vec<SerializedTextEdit>,
}

/// The flat forms of a document's edits.
pub open spec fn spec_flat_edits(edits: Seq<TextEdit>) -> Seq<SerializedTextEdit> {
    Seq::new(edits.len(), |i: int| SerializedTextEdit {
        range: spec_ser_range(edits[i].range),
        new_text: edits[i].new_text,
    })
}

/// The flat forms of a mixed edit list.
pub open spec fn spec_flat_mixed_edits(edits: Seq<TextEditOrAnnotated>) -> Seq<
    SerializedTextEdit,
> {
    Seq::new(edits.len(), |i: int| spec_flat_edit(edits[i]))
}

/// The flat document changes, by uri and flat edits: text edits survive;
/// file creations, renames and deletions are passed over.
pub open spec fn spec_flat_doc_changes(dc: Seq<DocumentChange>) -> Seq<
    (Seq<char>, Seq<SerializedTextEdit>),
>
    decreases dc.len(),
{
    if dc.len() == 0 {
        Seq::empty()
    } else {
        let rest = spec_flat_doc_changes(dc.drop_last());
        match dc.last() {
            DocumentChange::Edit(e) => rest.push(
                (e.text_document.uri@, spec_flat_mixed_edits(e.edits@)),
            ),
            _ => rest,
        }
    }
}

/// The flat changes map, pairwise.
pub open spec fn spec_flat_changes(ch: Seq<(String, Vec<TextEdit>)>) -> Seq<
    (Seq<char>, Seq<SerializedTextEdit>),
> {
    Seq::new(ch.len(), |i: int| (ch[i].0@, spec_flat_edits(ch[i].1@)))
}

/// A flat document change's comparable shape.
pub open spec fn spec_doc_change_view(d: SerializedDocumentChange) -> (Seq<char>, Seq<
    SerializedTextEdit,
>) {
    (d.uri@, d.edits@)
}

/// The comparable shapes of a flat document change list.
pub open spec fn spec_doc_changes_view(ds: Seq<SerializedDocumentChange>) -> Seq<
    (Seq<char>, Seq<SerializedTextEdit>),
> {
    Seq::new(ds.len(), |i: int| spec_doc_change_view(ds[i]))
}

impl SerializedWorkspaceEdit {
    /// Flattens a workspace edit: each document's edits become flat edits,
    /// and only textual document changes survive.
    pub fn of_workspace_edit(edit: WorkspaceEdit) -> (r: SerializedWorkspaceEdit)
        ensures
            r.changes is Some <==> edit.changes is Some,
            edit.changes matches Some(ch) ==> r.changes matches Some(rch) && Seq::new(
                rch@.len(),
                |i: int| (rch@[i].0@, rch@[i].1@),
            ) == spec_flat_changes(ch@),
            r.document_changes is Some <==> edit.document_changes is Some,
            edit.document_changes matches Some(dc) ==> r.document_changes matches Some(rdc)
                && spec_doc_changes_view(rdc@) == spec_flat_doc_changes(dc@),
    {
        let changes: Option<Vec<(String, Vec<SerializedTextEdit>)>> = match edit.changes {
            Some(ch) => {
                let ghost all = ch@;
                let mut out: Vec<(String, Vec<SerializedTextEdit>)> = Vec::new();
                let mut rest = ch;
                while rest.len() > 0
                    invariant
                        out@.len() + rest@.len() == all.len(),
                        rest@ == all.skip(out@.len() as int),
                        forall|i: int|
                            0 <= i < out@.len() ==> ((#[trigger] out@[i]).0@, out@[i].1@)
                                == spec_flat_changes(all)[i],
                    decreases rest@.len(),
                {
                    let ghost k = out@.len() as int;
                    let pair = rest.remove(0);
                    proof {
                        assert(all.skip(k)[0] == all[k]);
                        assert(rest@ =~= all.skip(k + 1));
                    }
                    let mut edits: Vec<SerializedTextEdit> = Vec::new();
                    let ghost edits_all = pair.1@;
                    let mut erest = pair.1;
                    while erest.len() > 0
                        invariant
                            edits@.len() + erest@.len() == edits_all.len(),
                            erest@ == edits_all.skip(edits@.len() as int),
                            edits@ == spec_flat_edits(edits_all).take(edits@.len() as int),
                        decreases erest@.len(),
                    {
                        let ghost t = edits@.len() as int;
                        let e = erest.remove(0);
                        proof {
                            assert(edits_all.skip(t)[0] == edits_all[t]);
                            assert(erest@ =~= edits_all.skip(t + 1));
                        }
                        edits.push(
                            SerializedTextEdit { range: ser_range(e.range), new_text: e.new_text },
                        );
                        proof {
                            assert(spec_flat_edits(edits_all)[t] == (SerializedTextEdit {
                                range: spec_ser_range(edits_all[t].range),
                                new_text: edits_all[t].new_text,
                            }));
                            assert(edits@ =~= spec_flat_edits(edits_all).take(t + 1));
                        }
                    }
                    proof {
                        assert(spec_flat_edits(edits_all).take(edits_all.len() as int)
                            =~= spec_flat_edits(edits_all));
                    }
                    out.push((pair.0, edits));
                    proof {
                        assert(spec_flat_changes(all)[k] == (all[k].0@, spec_flat_edits(
                            all[k].1@,
                        )));
                    }
                }
                Some(out)
            },
            None => None,
        };
        let document_changes: Option<Vec<SerializedDocumentChange>> = match edit.document_changes {
            Some(dc) => {
                let ghost all = dc@;
                let mut out: Vec<SerializedDocumentChange> = Vec::new();
                let mut rest = dc;
                while rest.len() > 0
                    invariant
                        rest@.len() <= all.len(),
                        rest@ == all.skip(all.len() - rest@.len()),
                        spec_doc_changes_view(out@) == spec_flat_doc_changes(
                            all.take(all.len() - rest@.len()),
                        ),
                    decreases rest@.len(),
                {
                    let ghost k = all.len() - rest@.len();
                    let item = rest.remove(0);
                    proof {
                        assert(all.skip(k)[0] == all[k]);
                        assert(rest@ =~= all.skip(k + 1));
                        assert(all.take(k + 1).drop_last() =~= all.take(k));
                        assert(all.take(k + 1).last() == all[k]);
                    }
                    match item {
                        DocumentChange::Edit(e) => {
                            let mut edits: Vec<SerializedTextEdit> = Vec::new();
                            let ghost edits_all = e.edits@;
                            let mut erest = e.edits;
                            while erest.len() > 0
                                invariant
                                    edits@.len() + erest@.len() == edits_all.len(),
                                    erest@ == edits_all.skip(edits@.len() as int),
                                    edits@ == spec_flat_mixed_edits(edits_all).take(
                                        edits@.len() as int,
                                    ),
                                decreases erest@.len(),
                            {
                                let ghost t = edits@.len() as int;
                                let me = erest.remove(0);
                                proof {
                                    assert(edits_all.skip(t)[0] == edits_all[t]);
                                    assert(erest@ =~= edits_all.skip(t + 1));
                                }
                                let flat = match me {
                                    TextEditOrAnnotated::Plain(te) => SerializedTextEdit {
                                        range: ser_range(te.range),
                                        new_text: te.new_text,
                                    },
                                    TextEditOrAnnotated::Annotated(a) => SerializedTextEdit {
                                        range: ser_range(a.range),
                                        new_text: a.new_text,
                                    },
                                };
                                proof {
                                    assert(spec_flat_mixed_edits(edits_all)[t] == spec_flat_edit(
                                        edits_all[t],
                                    ));
                                    assert(flat == spec_flat_edit(edits_all[t]));
                                }
                                edits.push(flat);
                                proof {
                                    assert(edits@ =~= spec_flat_mixed_edits(edits_all).take(
                                        t + 1,
                                    ));
                                }
                            }
                            proof {
                                assert(spec_flat_mixed_edits(edits_all).take(
                                    edits_all.len() as int,
                                ) =~= spec_flat_mixed_edits(edits_all));
                            }
                            let ghost preout = out@;
                            out.push(
                                SerializedDocumentChange { uri: e.text_document.uri, edits },
                            );
                            proof {
                                assert(spec_doc_changes_view(out@) =~= spec_doc_changes_view(
                                    preout,
                                ).push(spec_doc_change_view(out@[preout.len() as int])));
                            }
                        },
                        _ => {},
                    }
                    proof {
                        lemma_flat_doc_changes_snoc(all, k);
                        assert(spec_doc_changes_view(out@) =~= spec_flat_doc_changes(
                            all.take(k + 1),
                        ));
                    }
                }
                proof {
                    assert(all.take(all.len() as int) =~= all);
                }
                Some(out)
            },
            None => None,
        };
        SerializedWorkspaceEdit { changes, document_changes }
    }
}

/// One more document change: a textual one appends its flat form, any other
/// leaves the flat list as it stands.
proof fn lemma_flat_doc_changes_snoc(all: Seq<DocumentChange>, k: int)
    requires
        0 <= k < all.len(),
    ensures
        spec_flat_doc_changes(all.take(k + 1)) == (match all[k] {
            DocumentChange::Edit(e) => spec_flat_doc_changes(all.take(k)).push(
                (e.text_document.uri@, spec_flat_mixed_edits(e.edits@)),
            ),
            _ => spec_flat_doc_changes(all.take(k)),
        }),
{
    assert(all.take(k + 1).drop_last() =~= all.take(k));
    assert(all.take(k + 1).last() == all[k]);
}

/// A code action flattened for the frontend.
#[derive(Debug)]
pub struct SerializedCodeAction {
    pub title: String,
    pub kind: Option<String>,
    pub is_preferred: Option<bool>,
    pub disabled_reason: Option<String>,
    pub edit: Option<SerializedWorkspaceEdit>,
    pub data: Option<Json>,
    pub needs_resolve: bool,
}

impl SerializedCodeAction {
    /// Flattens a code action. An action that carries resolution data but
    /// no edit yet must be resolved before it can run.
    pub fn of_code_action(action: CodeAction) -> (r: SerializedCodeAction)
        ensures
            r.title@ == action.title@,
            r.kind == action.kind,
            r.is_preferred == action.is_preferred,
            match action.disabled {
                Some(d) => r.disabled_reason == Some(d.reason),
                None => r.disabled_reason is None,
            },
            r.edit is Some <==> action.edit is Some,
            r.data == action.data,
            r.needs_resolve == (action.edit is None && action.data is Some),
    {
        let needs_resolve = action.edit.is_none() && action.data.is_some();
        let edit: Option<SerializedWorkspaceEdit> = match action.edit {
            Some(e) => Some(SerializedWorkspaceEdit::of_workspace_edit(e)),
            None => None,
        };
        SerializedCodeAction {
            title: action.title,
            kind: action.kind,
            is_preferred: action.is_preferred,
            disabled_reason: match action.disabled {
                Some(d) => Some(d.reason),
                None => None,
            },
            edit,
            data: action.data,
            needs_resolve,
        }
    }
}

/// A diagnostic as the frontend sends it back with a code action request.
#[derive(Debug)]
pub struct SerializedDiagnostic {
    pub range: SerializedRange,
    pub severity: Option<u8>,
    pub code: Option<Json>,
    pub source: Option<String>,
    pub message: String,
}

/// The protocol range of a flat one.
pub open spec fn spec_unser_range(r: SerializedRange) -> Range {
    Range {
        start: Position { line: r.start.line, character: r.start.character },
        end: Position { line: r.end.line, character: r.end.character },
    }
}

impl Diagnostic {
    /// The protocol diagnostic a frontend-sent one stands for: a numeric
    /// code within range becomes a number, a string stays one, anything
    /// else is dropped.
    pub fn of_serialized(d: SerializedDiagnostic) -> (r: Diagnostic)
        ensures
            r.range == spec_unser_range(d.range),
            match d.severity {
                Some(n) => r.severity == Some(DiagnosticSeverity(n)),
                None => r.severity is None,
            },
            r.source == d.source,
            r.message == d.message,
            match d.code {
                Some(Json::Int(n)) => if i32::MIN <= n <= i32::MAX {
                    r.code == Some(DiagnosticCode::Number(n as i32))
                } else {
                    r.code is None
                },
                Some(Json::Str(t)) => r.code == Some(DiagnosticCode::Text(t)),
                _ => r.code is None,
            },
    {
        let code: Option<DiagnosticCode> = match d.code {
            Some(Json::Int(n)) => {
                if -0x8000_0000i64 <= n && n <= 0x7fff_ffffi64 {
                    Some(DiagnosticCode::Number(n as i32))
                } else {
                    None
                }
            },
            Some(Json::Str(t)) => Some(DiagnosticCode::Text(t)),
            _ => None,
        };
        Diagnostic {
            range: Range {
                start: Position { line: d.range.start.line, character: d.range.start.character },
                end: Position { line: d.range.end.line, character: d.range.end.character },
            },
            severity: match d.severity {
                Some(n) => Some(DiagnosticSeverity(n)),
                None => None,
            },
            code,
            source: d.source,
            message: d.message,
        }
    }
}

/// A code action as the frontend sends it back for resolution.
#[derive(Debug)]
pub struct CodeActionForResolve {
    pub title: String,
    pub kind: Option<String>,
    pub is_preferred: Option<bool>,
    pub data: Option<Json>,
}

impl CodeAction {
    /// The protocol action a resolution request stands for: only the
    /// fields the frontend kept, everything else empty.
    pub fn of_resolve(ca: CodeActionForResolve) -> (r: CodeAction)
        ensures
            r == (CodeAction {
                title: ca.title,
                kind: ca.kind,
                diagnostics: None,
                is_preferred: ca.is_preferred,
                disabled: None,
                edit: None,
                command: None,
                data: ca.data,
            }),
    {
        CodeAction {
            title: ca.title,
            kind: ca.kind,
            diagnostics: None,
            is_preferred: ca.is_preferred,
            disabled: None,
            edit: None,
            command: None,
            data: ca.data,
        }
    }
}

// ---------------------------------------------------------------------------
// Root discovery
// ---------------------------------------------------------------------------
/// The directory a path sits in: everything before the last slash, the
/// root when only the leading slash is left, nothing when no slash is
/// left.
pub open spec fn spec_parent(p: Seq<u8>) -> Option<Seq<u8>> {
    let j = after_last(p, 0x2f);
    if p.len() <= 1 || j == 0 {
        None
    } else if j == 1 {
        Some(seq![0x2fu8])
    } else {
        Some(p.take(j - 1))
    }
}

/// The ancestors of a path, nearest first: where a project root marker is
/// looked for, in order.
pub open spec fn spec_ancestors(p: Seq<u8>) -> Seq<Seq<u8>>
    decreases p.len(),
{
    match spec_parent(p) {
        None => Seq::empty(),
        Some(q) => if q.len() < p.len() {
            seq![q] + spec_ancestors(q)
        } else {
            Seq::empty()
        },
    }
}

/// The directories a root marker is looked for in: the file's directory
/// and its ancestors, nearest first. The surrounding process probes each
/// for the configured markers and takes the first hit.
#[verifier::loop_isolation(false)]
pub fn ancestor_dirs(file_path: &str) -> (r: Vec<String>)
    ensures
        r@.len() == spec_ancestors(file_path.spec_bytes()).len(),
        forall|k: int|
            0 <= k < r@.len() ==> vstd::utf8::encode_utf8((#[trigger] r@[k])@) == spec_ancestors(
                file_path.spec_bytes(),
            )[k],
{
    let mut out: Vec<String> = Vec::new();
    let mut cur: String = file_path.to_owned();
    let ghost whole = file_path.spec_bytes();
    proof {
        vstd::utf8::encode_utf8_valid_utf8(file_path@);
    }
    loop
        invariant
            vstd::utf8::valid_utf8(vstd::utf8::encode_utf8(cur@)),
            spec_ancestors(whole) =~= Seq::new(
                out@.len() as nat,
                |i: int| vstd::utf8::encode_utf8(out@[i]@),
            ) + spec_ancestors(vstd::utf8::encode_utf8(cur@)),
            forall|k: int|
                0 <= k < out@.len() ==> vstd::utf8::encode_utf8((#[trigger] out@[k])@)
                    == spec_ancestors(whole)[k],
        decreases vstd::utf8::encode_utf8(cur@).len(),
    {
        let s: &str = cur.as_str();
        let bytes: &[u8] = s.as_bytes();
        let n = bytes.len();
        proof {
            assert(bytes@.take(n as int) =~= bytes@);
        }
        let mut j: usize = n;
        while j > 0 && bytes[j - 1] != 0x2f
            invariant
                j <= bytes@.len(),
                after_last(bytes@, 0x2f) == after_last(bytes@.take(j as int), 0x2f),
            decreases j,
        {
            proof {
                assert(bytes@.take(j as int).drop_last() =~= bytes@.take(j as int - 1));
            }
            j = j - 1;
        }
        proof {
            if j > 0 {
                assert(after_last(bytes@.take(j as int), 0x2f) == j as int);
            } else {
                assert(bytes@.take(0) =~= Seq::<u8>::empty());
            }
            assert(after_last(bytes@, 0x2f) == j as int);
        }
        if n <= 1 || j == 0 {
            assert(spec_parent(bytes@) is None);
            proof {
                assert(spec_ancestors(whole) =~= Seq::new(
                    out@.len() as nat,
                    |i: int| vstd::utf8::encode_utf8(out@[i]@),
                ));
            }
            return out;
        }
        let cut: usize = if j == 1 {
            1
        } else {
            j - 1
        };
        proof {
            if j >= 2 {
                assert(bytes@[cut as int] == 0x2f);
                vstd::utf8::is_char_boundary_iff_not_is_continuation_byte(bytes@, cut as int);
                assert(vstd::utf8::is_char_boundary(bytes@, cut as int));
            } else {
                assert(bytes@[0] == 0x2f);
                assert(vstd::utf8::is_leading_byte_width_1(bytes@[0]));
                assert(vstd::utf8::length_of_first_scalar(bytes@) == 1);
                assert(vstd::utf8::is_char_boundary(vstd::utf8::pop_first_scalar(bytes@), 0));
                assert(vstd::utf8::is_char_boundary(bytes@, 1));
            }
        }
        let parent: String = s.split_at(cut).0.to_owned();
        proof {
            assert(vstd::utf8::encode_utf8(parent@) =~= bytes@.subrange(0, cut as int));
            if j == 1 {
                assert(bytes@[0] == 0x2f);
                assert(bytes@.subrange(0, 1) =~= seq![0x2fu8]);
            } else {
                assert(bytes@.subrange(0, cut as int) =~= bytes@.take(j - 1));
            }
            assert(spec_parent(bytes@) == Some(vstd::utf8::encode_utf8(parent@)));
            assert(vstd::utf8::encode_utf8(parent@).len() < bytes@.len());
            vstd::utf8::valid_utf8_split(bytes@, cut as int);
        }
        let ghost preout = out@;
        out.push(parent.clone());
        proof {
            assert(Seq::new(out@.len() as nat, |i: int| vstd::utf8::encode_utf8(out@[i]@))
                =~= Seq::new(preout.len() as nat, |i: int| vstd::utf8::encode_utf8(preout[i]@)).push(
                vstd::utf8::encode_utf8(out@[preout.len() as int]@),
            ));
        }
        cur = parent;
    }
}

} // verus!
