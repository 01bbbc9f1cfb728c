//! JSON forms of the broker's request and notification parameters, and
//! readers for the server's replies.

use vstd::prelude::*;
use crate::json::{
    Json, JsonV, model_fields, model_items, lemma_model_fields_index, lemma_model_items_index,
};
use crate::protocol::{obj_lookup, field_str, field_opt_str, field_bool, obj_get, get_str,
    get_opt_str, get_bool};
use crate::lsp_protocol::{
    spec_into_locations, DefinitionResponse, MarkedString, HoverContents, MarkupContent,
    MarkupKind, Hover, TextEdit, CompletionItem, CompletionItemKind, InsertTextFormat,
    CompletionList, CompletionResponse, Command, TextEditOrAnnotated, AnnotatedTextEdit,
    DocumentChange, TextDocumentEdit, OptionalVersionedTextDocumentIdentifier, CreateFile,
    WorkspaceEdit, CodeActionDisabled, CodeActionOrCommand, CodeActionResponse,
    ServerCapabilities, TextDocumentSyncCapability, TextDocumentSyncKind, TextDocumentSyncOptions,
    SaveOptions, CompletionOptions, InitializeResult, ServerInfo,
    CreateFileOptions, RenameFile, RenameFileOptions, DeleteFile, DeleteFileOptions,
    Position, Range, Location, LocationLink, Diagnostic, DiagnosticCode, DiagnosticSeverity,
    TextDocumentIdentifier, VersionedTextDocumentIdentifier, TextDocumentItem,
    TextDocumentPositionParams, DidOpenTextDocumentParams, DidChangeTextDocumentParams,
    TextDocumentContentChangeEvent, DidCloseTextDocumentParams, ReferenceParams, ReferenceContext,
    CodeActionParams, CodeActionContext, CodeActionTriggerKind, CodeAction, PublishDiagnosticsParams,
};

verus! {

// ---------------------------------------------------------------------------
// Writing parameters
// ---------------------------------------------------------------------------
/// JSON form of a position.
pub open spec fn spec_position_json(p: Position) -> JsonV {
    JsonV::Obj(
        seq![
            ("line"@, JsonV::Int(p.line as int)),
            ("character"@, JsonV::Int(p.character as int)),
        ],
    )
}

/// JSON form of a range.
pub open spec fn spec_range_json(r: Range) -> JsonV {
    JsonV::Obj(
        seq![("start"@, spec_position_json(r.start)), ("end"@, spec_position_json(r.end))],
    )
}

/// JSON form of a document identifier.
pub open spec fn spec_text_document_json(uri: Seq<char>) -> JsonV {
    JsonV::Obj(seq![("uri"@, JsonV::Str(uri))])
}

impl Position {
    /// This position's JSON form.
    pub fn to_json(&self) -> (j: Json)
        ensures
            j.model() == spec_position_json(*self),
    {
        let fields: Vec<(String, Json)> = vec![
            (String::from_str("line"), Json::Int(self.line as i64)),
            (String::from_str("character"), Json::Int(self.character as i64)),
        ];
        proof {
            lemma_model_fields_index(fields@);
            assert(model_fields(fields@) =~= spec_position_json(*self)->Obj_0);
        }
        Json::Obj(fields)
    }
}

impl Range {
    /// This range's JSON form.
    pub fn to_json(&self) -> (j: Json)
        ensures
            j.model() == spec_range_json(*self),
    {
        let fields: Vec<(String, Json)> = vec![
            (String::from_str("start"), self.start.to_json()),
            (String::from_str("end"), self.end.to_json()),
        ];
        proof {
            lemma_model_fields_index(fields@);
            assert(model_fields(fields@) =~= spec_range_json(*self)->Obj_0);
        }
        Json::Obj(fields)
    }
}

impl TextDocumentIdentifier {
    /// This identifier's JSON form.
    pub fn to_json(&self) -> (j: Json)
        ensures
            j.model() == spec_text_document_json(self.uri@),
    {
        let fields: Vec<(String, Json)> = vec![
            (String::from_str("uri"), Json::Str(self.uri.clone())),
        ];
        proof {
            lemma_model_fields_index(fields@);
            assert(model_fields(fields@) =~= spec_text_document_json(self.uri@)->Obj_0);
        }
        Json::Obj(fields)
    }
}

/// JSON form of document-and-position parameters.
pub open spec fn spec_position_params_json(uri: Seq<char>, p: Position) -> JsonV {
    JsonV::Obj(
        seq![
            ("textDocument"@, spec_text_document_json(uri)),
            ("position"@, spec_position_json(p)),
        ],
    )
}

impl TextDocumentPositionParams {
    /// These parameters' JSON form.
    pub fn to_json(&self) -> (j: Json)
        ensures
            j.model() == spec_position_params_json(self.text_document.uri@, self.position),
    {
        let fields: Vec<(String, Json)> = vec![
            (String::from_str("textDocument"), self.text_document.to_json()),
            (String::from_str("position"), self.position.to_json()),
        ];
        proof {
            lemma_model_fields_index(fields@);
            assert(model_fields(fields@) =~= spec_position_params_json(
                self.text_document.uri@,
                self.position,
            )->Obj_0);
        }
        Json::Obj(fields)
    }
}

/// JSON form of a didOpen notification's parameters.
pub open spec fn spec_did_open_json(
    uri: Seq<char>,
    language_id: Seq<char>,
    version: i32,
    text: Seq<char>,
) -> JsonV {
    JsonV::Obj(
        seq![
            (
                "textDocument"@,
                JsonV::Obj(
                    seq![
                        ("uri"@, JsonV::Str(uri)),
                        ("languageId"@, JsonV::Str(language_id)),
                        ("version"@, JsonV::Int(version as int)),
                        ("text"@, JsonV::Str(text)),
                    ],
                ),
            ),
        ],
    )
}

impl DidOpenTextDocumentParams {
    /// These parameters' JSON form.
    pub fn to_json(&self) -> (j: Json)
        ensures
            j.model() == spec_did_open_json(
                self.text_document.uri@,
                self.text_document.language_id@,
                self.text_document.version,
                self.text_document.text@,
            ),
    {
        let td: Vec<(String, Json)> = vec![
            (String::from_str("uri"), Json::Str(self.text_document.uri.clone())),
            (String::from_str("languageId"), Json::Str(self.text_document.language_id.clone())),
            (String::from_str("version"), Json::Int(self.text_document.version as i64)),
            (String::from_str("text"), Json::Str(self.text_document.text.clone())),
        ];
        proof {
            lemma_model_fields_index(td@);
            assert(model_fields(td@) =~= seq![
                ("uri"@, JsonV::Str(self.text_document.uri@)),
                ("languageId"@, JsonV::Str(self.text_document.language_id@)),
                ("version"@, JsonV::Int(self.text_document.version as int)),
                ("text"@, JsonV::Str(self.text_document.text@)),
            ]);
        }
        let fields: Vec<(String, Json)> = vec![
            (String::from_str("textDocument"), Json::Obj(td)),
        ];
        proof {
            lemma_model_fields_index(fields@);
            assert(model_fields(fields@) =~= spec_did_open_json(
                self.text_document.uri@,
                self.text_document.language_id@,
                self.text_document.version,
                self.text_document.text@,
            )->Obj_0);
        }
        Json::Obj(fields)
    }
}

/// JSON form of a didChange notification's parameters: full-text sync, one
/// content change holding the whole new text.
pub open spec fn spec_did_change_json(uri: Seq<char>, version: i32, text: Seq<char>) -> JsonV {
    JsonV::Obj(
        seq![
            (
                "textDocument"@,
                JsonV::Obj(
                    seq![("uri"@, JsonV::Str(uri)), ("version"@, JsonV::Int(version as int))],
                ),
            ),
            (
                "contentChanges"@,
                JsonV::Arr(seq![JsonV::Obj(seq![("text"@, JsonV::Str(text))])]),
            ),
        ],
    )
}

impl DidChangeTextDocumentParams {
    /// These parameters' JSON form; sync is always the full text, so
    /// exactly one content change is sent.
    pub fn to_json(&self) -> (j: Json)
        requires
            self.content_changes@.len() == 1,
        ensures
            j.model() == spec_did_change_json(
                self.text_document.uri@,
                self.text_document.version,
                self.content_changes@[0].text@,
            ),
    {
        let td: Vec<(String, Json)> = vec![
            (String::from_str("uri"), Json::Str(self.text_document.uri.clone())),
            (String::from_str("version"), Json::Int(self.text_document.version as i64)),
        ];
        proof {
            lemma_model_fields_index(td@);
            assert(model_fields(td@) =~= seq![
                ("uri"@, JsonV::Str(self.text_document.uri@)),
                ("version"@, JsonV::Int(self.text_document.version as int)),
            ]);
        }
        let change: Vec<(String, Json)> = vec![
            (String::from_str("text"), Json::Str(self.content_changes[0].text.clone())),
        ];
        proof {
            lemma_model_fields_index(change@);
            assert(model_fields(change@) =~= seq![
                ("text"@, JsonV::Str(self.content_changes@[0].text@)),
            ]);
        }
        let changes: Vec<Json> = vec![Json::Obj(change)];
        proof {
            lemma_model_items_index(changes@);
            assert(model_items(changes@) =~= seq![
                JsonV::Obj(seq![("text"@, JsonV::Str(self.content_changes@[0].text@))]),
            ]);
        }
        let fields: Vec<(String, Json)> = vec![
            (String::from_str("textDocument"), Json::Obj(td)),
            (String::from_str("contentChanges"), Json::Arr(changes)),
        ];
        proof {
            lemma_model_fields_index(fields@);
            assert(model_fields(fields@) =~= spec_did_change_json(
                self.text_document.uri@,
                self.text_document.version,
                self.content_changes@[0].text@,
            )->Obj_0);
        }
        Json::Obj(fields)
    }
}

/// JSON form of a didClose notification's parameters.
pub open spec fn spec_did_close_json(uri: Seq<char>) -> JsonV {
    JsonV::Obj(seq![("textDocument"@, spec_text_document_json(uri))])
}

impl DidCloseTextDocumentParams {
    /// These parameters' JSON form.
    pub fn to_json(&self) -> (j: Json)
        ensures
            j.model() == spec_did_close_json(self.text_document.uri@),
    {
        let fields: Vec<(String, Json)> = vec![
            (String::from_str("textDocument"), self.text_document.to_json()),
        ];
        proof {
            lemma_model_fields_index(fields@);
            assert(model_fields(fields@) =~= spec_did_close_json(self.text_document.uri@)->Obj_0);
        }
        Json::Obj(fields)
    }
}

/// JSON form of a references request's parameters.
pub open spec fn spec_references_json(
    uri: Seq<char>,
    p: Position,
    include_declaration: bool,
) -> JsonV {
    JsonV::Obj(
        seq![
            ("textDocument"@, spec_text_document_json(uri)),
            ("position"@, spec_position_json(p)),
            (
                "context"@,
                JsonV::Obj(seq![("includeDeclaration"@, JsonV::Bool(include_declaration))]),
            ),
        ],
    )
}

impl ReferenceParams {
    /// These parameters' JSON form.
    pub fn to_json(&self) -> (j: Json)
        ensures
            j.model() == spec_references_json(
                self.text_document.uri@,
                self.position,
                self.context.include_declaration,
            ),
    {
        let ctx: Vec<(String, Json)> = vec![
            (
                String::from_str("includeDeclaration"),
                Json::Bool(self.context.include_declaration),
            ),
        ];
        proof {
            lemma_model_fields_index(ctx@);
            assert(model_fields(ctx@) =~= seq![
                ("includeDeclaration"@, JsonV::Bool(self.context.include_declaration)),
            ]);
        }
        let fields: Vec<(String, Json)> = vec![
            (String::from_str("textDocument"), self.text_document.to_json()),
            (String::from_str("position"), self.position.to_json()),
            (String::from_str("context"), Json::Obj(ctx)),
        ];
        proof {
            lemma_model_fields_index(fields@);
            assert(model_fields(fields@) =~= spec_references_json(
                self.text_document.uri@,
                self.position,
                self.context.include_declaration,
            )->Obj_0);
        }
        Json::Obj(fields)
    }
}

/// JSON form of a diagnostic, optional members written only when present.
pub open spec fn spec_diagnostic_json(d: Diagnostic) -> JsonV {
    JsonV::Obj(
        seq![("range"@, spec_range_json(d.range))] + (match d.severity {
            Some(s) => seq![("severity"@, JsonV::Int(s.0 as int))],
            None => Seq::empty(),
        }) + (match d.code {
            Some(DiagnosticCode::Number(n)) => seq![("code"@, JsonV::Int(n as int))],
            Some(DiagnosticCode::Text(t)) => seq![("code"@, JsonV::Str(t@))],
            None => Seq::empty(),
        }) + (match d.source {
            Some(src) => seq![("source"@, JsonV::Str(src@))],
            None => Seq::empty(),
        }) + seq![("message"@, JsonV::Str(d.message@))],
    )
}

impl Diagnostic {
    /// This diagnostic's JSON form.
    pub fn to_json(&self) -> (j: Json)
        ensures
            j.model() == spec_diagnostic_json(*self),
    {
        let mut fields: Vec<(String, Json)> = Vec::new();
        fields.push((String::from_str("range"), self.range.to_json()));
        match &self.severity {
            Some(s) => {
                fields.push((String::from_str("severity"), Json::Int(s.0 as i64)));
            },
            None => {},
        }
        match &self.code {
            Some(DiagnosticCode::Number(n)) => {
                fields.push((String::from_str("code"), Json::Int(*n as i64)));
            },
            Some(DiagnosticCode::Text(t)) => {
                fields.push((String::from_str("code"), Json::Str(t.clone())));
            },
            None => {},
        }
        match &self.source {
            Some(src) => {
                fields.push((String::from_str("source"), Json::Str(src.clone())));
            },
            None => {},
        }
        fields.push((String::from_str("message"), Json::Str(self.message.clone())));
        proof {
            lemma_model_fields_index(fields@);
            assert(model_fields(fields@) =~= spec_diagnostic_json(*self)->Obj_0);
        }
        Json::Obj(fields)
    }
}

/// JSON forms of several diagnostics.
pub open spec fn spec_diagnostics_json(ds: Seq<Diagnostic>) -> Seq<JsonV> {
    Seq::new(ds.len(), |i: int| spec_diagnostic_json(ds[i]))
}

/// JSON form of a code action request's parameters; the trigger kind is
/// written when the context names one.
pub open spec fn spec_code_action_params_json(
    uri: Seq<char>,
    range: Range,
    diagnostics: Seq<Diagnostic>,
    trigger: Option<u8>,
) -> JsonV {
    JsonV::Obj(
        seq![
            ("textDocument"@, spec_text_document_json(uri)),
            ("range"@, spec_range_json(range)),
            (
                "context"@,
                JsonV::Obj(
                    seq![("diagnostics"@, JsonV::Arr(spec_diagnostics_json(diagnostics)))]
                        + match trigger {
                        Some(t) => seq![("triggerKind"@, JsonV::Int(t as int))],
                        None => Seq::empty(),
                    },
                ),
            ),
        ],
    )
}

/// The trigger kind a context names.
pub open spec fn spec_trigger_of(c: Option<CodeActionTriggerKind>) -> Option<u8> {
    match c {
        Some(t) => Some(t.0),
        None => None,
    }
}

impl CodeActionParams {
    /// These parameters' JSON form.
    pub fn to_json(&self) -> (j: Json)
        ensures
            j.model() == spec_code_action_params_json(
                self.text_document.uri@,
                self.range,
                self.context.diagnostics@,
                spec_trigger_of(self.context.trigger_kind),
            ),
    {
        let mut diags: Vec<Json> = Vec::new();
        let mut k: usize = 0;
        while k < self.context.diagnostics.len()
            invariant
                k <= self.context.diagnostics@.len(),
                model_items(diags@) =~= spec_diagnostics_json(self.context.diagnostics@).take(
                    k as int,
                ),
            decreases self.context.diagnostics@.len() - k,
        {
            let ghost pre = diags@;
            diags.push(self.context.diagnostics[k].to_json());
            proof {
                assert(diags@.drop_last() =~= pre);
                assert(model_items(diags@) =~= spec_diagnostics_json(
                    self.context.diagnostics@,
                ).take(k as int + 1));
            }
            k = k + 1;
        }
        proof {
            assert(spec_diagnostics_json(self.context.diagnostics@).take(
                self.context.diagnostics@.len() as int,
            ) =~= spec_diagnostics_json(self.context.diagnostics@));
        }
        let mut ctx: Vec<(String, Json)> = vec![
            (String::from_str("diagnostics"), Json::Arr(diags)),
        ];
        match &self.context.trigger_kind {
            Some(t) => {
                ctx.push((String::from_str("triggerKind"), Json::Int(t.0 as i64)));
            },
            None => {},
        }
        proof {
            lemma_model_fields_index(ctx@);
            assert(model_fields(ctx@) =~= seq![
                ("diagnostics"@, JsonV::Arr(spec_diagnostics_json(self.context.diagnostics@))),
            ] + (match spec_trigger_of(self.context.trigger_kind) {
                Some(t) => seq![("triggerKind"@, JsonV::Int(t as int))],
                None => Seq::<(Seq<char>, JsonV)>::empty(),
            }));
        }
        let fields: Vec<(String, Json)> = vec![
            (String::from_str("textDocument"), self.text_document.to_json()),
            (String::from_str("range"), self.range.to_json()),
            (String::from_str("context"), Json::Obj(ctx)),
        ];
        proof {
            lemma_model_fields_index(fields@);
            assert(model_fields(fields@) =~= spec_code_action_params_json(
                self.text_document.uri@,
                self.range,
                self.context.diagnostics@,
                spec_trigger_of(self.context.trigger_kind),
            )->Obj_0);
        }
        Json::Obj(fields)
    }
}

/// JSON form of a code action sent back for resolution: the fields the
/// frontend kept. Unresolved actions carry no edit and no command.
pub open spec fn spec_resolve_action_json(a: CodeAction) -> JsonV {
    JsonV::Obj(
        seq![("title"@, JsonV::Str(a.title@))] + (match a.kind {
            Some(k) => seq![("kind"@, JsonV::Str(k@))],
            None => Seq::empty(),
        }) + (match a.is_preferred {
            Some(p) => seq![("isPreferred"@, JsonV::Bool(p))],
            None => Seq::empty(),
        }) + (match a.data {
            Some(d) => seq![("data"@, d.model())],
            None => Seq::empty(),
        }),
    )
}

impl CodeAction {
    /// This action's JSON form for a resolve request.
    pub fn to_resolve_json(&self) -> (j: Json)
        requires
            self.edit is None,
            self.command is None,
            self.diagnostics is None,
            self.disabled is None,
        ensures
            j.model() == spec_resolve_action_json(*self),
    {
        let mut fields: Vec<(String, Json)> = Vec::new();
        fields.push((String::from_str("title"), Json::Str(self.title.clone())));
        match &self.kind {
            Some(k) => {
                fields.push((String::from_str("kind"), Json::Str(k.clone())));
            },
            None => {},
        }
        match &self.is_preferred {
            Some(p) => {
                fields.push((String::from_str("isPreferred"), Json::Bool(*p)));
            },
            None => {},
        }
        match &self.data {
            Some(d) => {
                fields.push((String::from_str("data"), d.duplicate()));
            },
            None => {},
        }
        proof {
            lemma_model_fields_index(fields@);
            assert(model_fields(fields@) =~= spec_resolve_action_json(*self)->Obj_0);
        }
        Json::Obj(fields)
    }
}

// ---------------------------------------------------------------------------
// Reading replies
// ---------------------------------------------------------------------------
/// Decodes every element of an array, failing when one fails.
pub open spec fn decode_seq<T>(items: Seq<JsonV>, f: spec_fn(JsonV) -> Option<T>) -> Option<Seq<T>>
    decreases items.len(),
{
    if items.len() == 0 {
        Some(Seq::empty())
    } else {
        match (decode_seq(items.drop_last(), f), f(items.last())) {
            (Some(rest), Some(last)) => Some(rest.push(last)),
            _ => None,
        }
    }
}

/// If one element fails to decode, the whole array fails.
proof fn lemma_decode_seq_none<T>(items: Seq<JsonV>, f: spec_fn(JsonV) -> Option<T>, k: int)
    requires
        0 <= k < items.len(),
        f(items[k]) is None,
    ensures
        decode_seq(items, f) is None,
    decreases items.len(),
{
    if items.len() > 0 {
        if k < items.len() - 1 {
            lemma_decode_seq_none(items.drop_last(), f, k);
        }
    }
}

/// A required member holding an unsigned 32-bit number.
pub open spec fn field_u32(fields: Seq<(Seq<char>, JsonV)>, key: Seq<char>) -> Option<u32> {
    match obj_lookup(fields, key) {
        Some(JsonV::Int(n)) => if 0 <= n <= u32::MAX {
            Some(n as u32)
        } else {
            None
        },
        _ => None,
    }
}

/// A required member holding an unsigned 8-bit number.
pub open spec fn field_u8(fields: Seq<(Seq<char>, JsonV)>, key: Seq<char>) -> Option<u8> {
    match obj_lookup(fields, key) {
        Some(JsonV::Int(n)) => if 0 <= n <= u8::MAX {
            Some(n as u8)
        } else {
            None
        },
        _ => None,
    }
}

fn get_u32(fields: &Vec<(String, Json)>, key: &String) -> (r: Option<u32>)
    ensures
        match r {
            Some(n) => field_u32(model_fields(fields@), key@) == Some(n),
            None => field_u32(model_fields(fields@), key@) is None,
        },
{
    match obj_get(fields, key) {
        Some(Json::Int(n)) => {
            if 0 <= *n && *n <= 0xffff_ffffi64 {
                Some(*n as u32)
            } else {
                None
            }
        },
        _ => None,
    }
}

fn get_u8(fields: &Vec<(String, Json)>, key: &String) -> (r: Option<u8>)
    ensures
        match r {
            Some(n) => field_u8(model_fields(fields@), key@) == Some(n),
            None => field_u8(model_fields(fields@), key@) is None,
        },
{
    match obj_get(fields, key) {
        Some(Json::Int(n)) => {
            if 0 <= *n && *n <= 0xffi64 {
                Some(*n as u8)
            } else {
                None
            }
        },
        _ => None,
    }
}

/// Reads a position object.
pub open spec fn spec_decode_position(v: JsonV) -> Option<Position> {
    match v {
        JsonV::Obj(p) => match (field_u32(p, "line"@), field_u32(p, "character"@)) {
            (Some(line), Some(character)) => Some(Position { line, character }),
            _ => None,
        },
        _ => None,
    }
}

impl Position {
    /// Reads a position.
    pub fn from_json(j: &Json) -> (r: Option<Position>)
        ensures
            r == spec_decode_position(j.model()),
    {
        match j {
            Json::Obj(p) => {
                match (get_u32(p, &String::from_str("line")), get_u32(
                    p,
                    &String::from_str("character"),
                )) {
                    (Some(line), Some(character)) => Some(Position { line, character }),
                    _ => None,
                }
            },
            _ => None,
        }
    }
}

/// Reads a range object.
pub open spec fn spec_decode_range(v: JsonV) -> Option<Range> {
    match v {
        JsonV::Obj(p) => match (obj_lookup(p, "start"@), obj_lookup(p, "end"@)) {
            (Some(sv), Some(ev)) => match (spec_decode_position(sv), spec_decode_position(ev)) {
                (Some(start), Some(end)) => Some(Range { start, end }),
                _ => None,
            },
            _ => None,
        },
        _ => None,
    }
}

impl Range {
    /// Reads a range.
    pub fn from_json(j: &Json) -> (r: Option<Range>)
        ensures
            r == spec_decode_range(j.model()),
    {
        match j {
            Json::Obj(p) => {
                let sv = obj_get(p, &String::from_str("start"));
                let ev = obj_get(p, &String::from_str("end"));
                match (sv, ev) {
                    (Some(sv), Some(ev)) => {
                        match (Position::from_json(sv), Position::from_json(ev)) {
                            (Some(start), Some(end)) => Some(Range { start, end }),
                            _ => None,
                        }
                    },
                    _ => None,
                }
            },
            _ => None,
        }
    }
}

/// The comparable shape of a location.
pub open spec fn loc_view(l: Location) -> (Seq<char>, Range) {
    (l.uri@, l.range)
}

/// The comparable shapes of several locations.
pub open spec fn locs_view(ls: Seq<Location>) -> Seq<(Seq<char>, Range)> {
    Seq::new(ls.len(), |i: int| loc_view(ls[i]))
}

/// Reads a location object.
pub open spec fn spec_decode_location(v: JsonV) -> Option<(Seq<char>, Range)> {
    match v {
        JsonV::Obj(p) => match (field_str(p, "uri"@), obj_lookup(p, "range"@)) {
            (Some(uri), Some(rv)) => match spec_decode_range(rv) {
                Some(range) => Some((uri, range)),
                None => None,
            },
            _ => None,
        },
        _ => None,
    }
}

impl Location {
    /// Reads a location.
    pub fn from_json(j: &Json) -> (r: Option<Location>)
        ensures
            match r {
                Some(loc) => spec_decode_location(j.model()) == Some(loc_view(loc)),
                None => spec_decode_location(j.model()) is None,
            },
    {
        match j {
            Json::Obj(p) => {
                let uri = get_str(p, &String::from_str("uri"));
                let rv = obj_get(p, &String::from_str("range"));
                match (uri, rv) {
                    (Some(uri), Some(rv)) => match Range::from_json(rv) {
                        Some(range) => Some(Location { uri, range }),
                        None => None,
                    },
                    _ => None,
                }
            },
            _ => None,
        }
    }
}

/// Reads a location link: the target and its selection range matter.
pub open spec fn spec_decode_link(v: JsonV) -> Option<(Seq<char>, Range, Range)> {
    match v {
        JsonV::Obj(p) => match (field_str(p, "targetUri"@), obj_lookup(p, "targetRange"@),
        obj_lookup(p, "targetSelectionRange"@)) {
            (Some(uri), Some(trv), Some(tsv)) => match (spec_decode_range(trv), spec_decode_range(
                tsv,
            )) {
                (Some(tr), Some(ts)) => Some((uri, tr, ts)),
                _ => None,
            },
            _ => None,
        },
        _ => None,
    }
}

/// The comparable shape of a link.
pub open spec fn link_view(l: LocationLink) -> (Seq<char>, Range, Range) {
    (l.target_uri@, l.target_range, l.target_selection_range)
}

impl LocationLink {
    /// Reads a location link.
    pub fn from_json(j: &Json) -> (r: Option<LocationLink>)
        ensures
            match r {
                Some(l) => spec_decode_link(j.model()) == Some(link_view(l)) && l
                    .origin_selection_range is None,
                None => spec_decode_link(j.model()) is None,
            },
    {
        match j {
            Json::Obj(p) => {
                let uri = get_str(p, &String::from_str("targetUri"));
                let trv = obj_get(p, &String::from_str("targetRange"));
                let tsv = obj_get(p, &String::from_str("targetSelectionRange"));
                match (uri, trv, tsv) {
                    (Some(uri), Some(trv), Some(tsv)) => {
                        match (Range::from_json(trv), Range::from_json(tsv)) {
                            (Some(tr), Some(ts)) => Some(
                                LocationLink {
                                    origin_selection_range: None,
                                    target_uri: uri,
                                    target_range: tr,
                                    target_selection_range: ts,
                                },
                            ),
                            _ => None,
                        }
                    },
                    _ => None,
                }
            },
            _ => None,
        }
    }
}

/// Reads a whole array of locations.
pub open spec fn spec_decode_locations(v: JsonV) -> Option<Seq<(Seq<char>, Range)>> {
    match v {
        JsonV::Arr(items) => decode_seq(items, |x: JsonV| spec_decode_location(x)),
        _ => None,
    }
}

/// Reads the locations of a references reply.
#[verifier::loop_isolation(false)]
pub fn locations_from_json(j: &Json) -> (r: Option<Vec<Location>>)
    ensures
        match r {
            Some(ls) => spec_decode_locations(j.model()) == Some(locs_view(ls@)),
            None => spec_decode_locations(j.model()) is None,
        },
{
    let items = match j {
        Json::Arr(items) => items,
        _ => {
            return None;
        },
    };
    let ghost im = crate::json::model_items(items@);
    let ghost f = |x: JsonV| spec_decode_location(x);
    proof {
        lemma_model_items_index(items@);
    }
    let mut out: Vec<Location> = Vec::new();
    let mut k: usize = 0;
    while k < items.len()
        invariant
            k <= items@.len(),
            im == crate::json::model_items(items@),
            im.len() == items@.len(),
            forall|i: int| 0 <= i < items@.len() ==> im[i] == items@[i].model(),
            f == (|x: JsonV| spec_decode_location(x)),
            decode_seq(im.take(k as int), f) == Some(locs_view(out@)),
        decreases items@.len() - k,
    {
        let loc = match Location::from_json(&items[k]) {
            Some(loc) => loc,
            None => {
                proof {
                    lemma_decode_seq_none(im, f, k as int);
                }
                return None;
            },
        };
        let ghost pre = out@;
        out.push(loc);
        proof {
            assert(im.take(k as int + 1).drop_last() =~= im.take(k as int));
            assert(im.take(k as int + 1).last() == im[k as int]);
            assert(locs_view(out@) =~= locs_view(pre).push(loc_view(out@[pre.len() as int])));
        }
        k = k + 1;
    }
    proof {
        assert(im.take(items@.len() as int) =~= im);
    }
    Some(out)
}

/// The flattened locations of a definition reply of any shape: one
/// location, an array of locations, or an array of links, tried in that
/// order; a link contributes its target and selection range.
pub open spec fn spec_decode_definition(v: JsonV) -> Option<Seq<(Seq<char>, Range)>> {
    match spec_decode_location(v) {
        Some(single) => Some(seq![single]),
        None => match spec_decode_locations(v) {
            Some(ls) => Some(ls),
            None => match v {
                JsonV::Arr(items) => match decode_seq(items, |x: JsonV| spec_decode_link(x)) {
                    Some(links) => Some(
                        Seq::new(links.len(), |i: int| (links[i].0, links[i].2)),
                    ),
                    None => None,
                },
                _ => None,
            },
        },
    }
}

impl DefinitionResponse {
    /// Reads a definition reply of any shape.
    #[verifier::loop_isolation(false)]
    pub fn from_json(j: &Json) -> (r: Option<DefinitionResponse>)
        ensures
            match r {
                Some(d) => spec_decode_definition(j.model()) == Some(
                    locs_view(spec_into_locations(d)),
                ),
                None => spec_decode_definition(j.model()) is None,
            },
    {
        if let Some(loc) = Location::from_json(j) {
            let d = DefinitionResponse::Single(loc);
            proof {
                assert(locs_view(spec_into_locations(d)) =~= seq![
                    spec_decode_location(j.model()).unwrap(),
                ]);
            }
            return Some(d);
        }
        if let Some(ls) = locations_from_json(j) {
            let d = DefinitionResponse::Array(ls);
            return Some(d);
        }
        let items = match j {
            Json::Arr(items) => items,
            _ => {
                return None;
            },
        };
        let ghost im = crate::json::model_items(items@);
        let ghost f = |x: JsonV| spec_decode_link(x);
        proof {
            lemma_model_items_index(items@);
        }
        let mut out: Vec<LocationLink> = Vec::new();
        let mut k: usize = 0;
        while k < items.len()
            invariant
                k <= items@.len(),
                im == crate::json::model_items(items@),
                im.len() == items@.len(),
                forall|i: int| 0 <= i < items@.len() ==> im[i] == items@[i].model(),
                f == (|x: JsonV| spec_decode_link(x)),
                decode_seq(im.take(k as int), f) == Some(
                    Seq::new(out@.len() as nat, |i: int| link_view(out@[i])),
                ),
            decreases items@.len() - k,
        {
            let link = match LocationLink::from_json(&items[k]) {
                Some(link) => link,
                None => {
                    proof {
                        lemma_decode_seq_none(im, f, k as int);
                    }
                    return None;
                },
            };
            let ghost pre = out@;
            out.push(link);
            proof {
                assert(im.take(k as int + 1).drop_last() =~= im.take(k as int));
                assert(im.take(k as int + 1).last() == im[k as int]);
                assert(Seq::new(out@.len() as nat, |i: int| link_view(out@[i])) =~= Seq::new(
                    pre.len() as nat,
                    |i: int| link_view(pre[i]),
                ).push(link_view(out@[pre.len() as int])));
            }
            k = k + 1;
        }
        proof {
            assert(im.take(items@.len() as int) =~= im);
        }
        let d = DefinitionResponse::Links(out);
        proof {
            let links = decode_seq(im, f).unwrap();
            assert(locs_view(spec_into_locations(d)) =~= Seq::new(
                links.len(),
                |i: int| (links[i].0, links[i].2),
            ));
        }
        Some(d)
    }
}

/// The comparable shape of a marked string.
pub open spec fn marked_view(m: MarkedString) -> (Option<Seq<char>>, Seq<char>) {
    match m {
        MarkedString::Plain(s) => (None, s@),
        MarkedString::LanguageString { language, value } => (Some(language@), value@),
    }
}

/// Reads a marked string: a plain string, or an object naming a language.
pub open spec fn spec_decode_marked(v: JsonV) -> Option<(Option<Seq<char>>, Seq<char>)> {
    match v {
        JsonV::Str(s) => Some((None, s)),
        JsonV::Obj(p) => match (field_str(p, "language"@), field_str(p, "value"@)) {
            (Some(language), Some(value)) => Some((Some(language), value)),
            _ => None,
        },
        _ => None,
    }
}

impl MarkedString {
    /// Reads a marked string.
    pub fn from_json(j: &Json) -> (r: Option<MarkedString>)
        ensures
            match r {
                Some(m) => spec_decode_marked(j.model()) == Some(marked_view(m)),
                None => spec_decode_marked(j.model()) is None,
            },
    {
        match j {
            Json::Str(s) => Some(MarkedString::Plain(s.clone())),
            Json::Obj(p) => {
                let language = get_str(p, &String::from_str("language"));
                let value = get_str(p, &String::from_str("value"));
                match (language, value) {
                    (Some(language), Some(value)) => Some(
                        MarkedString::LanguageString { language, value },
                    ),
                    _ => None,
                }
            },
            _ => None,
        }
    }
}

/// The comparable shape of hover contents.
pub open spec fn hover_contents_view(c: HoverContents) -> (int, Seq<(Option<Seq<char>>, Seq<char>)>) {
    match c {
        HoverContents::Markup(m) => (0, seq![(None, m.value@)]),
        HoverContents::Plain(s) => (1, seq![(None, s@)]),
        HoverContents::Many(arr) => (2, Seq::new(arr@.len(), |i: int| marked_view(arr@[i]))),
        HoverContents::Marked(m) => (3, seq![marked_view(m)]),
    }
}

/// Reads hover contents: markup, a plain string, an array of marked
/// strings, or one marked string, tried in that order.
pub open spec fn spec_decode_hover_contents(v: JsonV) -> Option<
    (int, Seq<(Option<Seq<char>>, Seq<char>)>),
> {
    match v {
        JsonV::Obj(p) => match (field_str(p, "kind"@), field_str(p, "value"@)) {
            (Some(kind), Some(value)) => if kind == "markdown"@ || kind == "plaintext"@ {
                Some((0int, seq![(None, value)]))
            } else {
                spec_decode_marked_branch(v)
            },
            _ => spec_decode_marked_branch(v),
        },
        JsonV::Str(st) => Some((1int, seq![(None, st)])),
        JsonV::Arr(items) => match decode_seq(items, |x: JsonV| spec_decode_marked(x)) {
            Some(ms) => Some((2int, ms)),
            None => None,
        },
        _ => None,
    }
}

/// The marked-string fallback of hover contents.
pub open spec fn spec_decode_marked_branch(v: JsonV) -> Option<
    (int, Seq<(Option<Seq<char>>, Seq<char>)>),
> {
    match spec_decode_marked(v) {
        Some(m) => Some((3int, seq![m])),
        None => None,
    }
}

/// Reads hover contents.
#[verifier::loop_isolation(false)]
pub fn hover_contents_from_json(j: &Json) -> (r: Option<HoverContents>)
    ensures
        match r {
            Some(c) => spec_decode_hover_contents(j.model()) == Some(hover_contents_view(c)),
            None => spec_decode_hover_contents(j.model()) is None,
        },
{
    match j {
        Json::Obj(p) => {
            let kind = get_str(p, &String::from_str("kind"));
            let value = get_str(p, &String::from_str("value"));
            match (kind, value) {
                (Some(kind), Some(value)) => {
                    let is_md = kind == String::from_str("markdown");
                    let is_pt = kind == String::from_str("plaintext");
                    if is_md || is_pt {
                        let mk = if is_md {
                            MarkupKind::Markdown
                        } else {
                            MarkupKind::PlainText
                        };
                        Some(HoverContents::Markup(MarkupContent { kind: mk, value }))
                    } else {
                        match MarkedString::from_json(j) {
                            Some(m) => Some(HoverContents::Marked(m)),
                            None => None,
                        }
                    }
                },
                _ => match MarkedString::from_json(j) {
                    Some(m) => Some(HoverContents::Marked(m)),
                    None => None,
                },
            }
        },
        Json::Str(st) => Some(HoverContents::Plain(st.clone())),
        Json::Arr(items) => {
            let ghost im = crate::json::model_items(items@);
            let ghost f = |x: JsonV| spec_decode_marked(x);
            proof {
                lemma_model_items_index(items@);
            }
            let mut out: Vec<MarkedString> = Vec::new();
            let mut k: usize = 0;
            while k < items.len()
                invariant
                    k <= items@.len(),
                    decode_seq(im.take(k as int), f) == Some(
                        Seq::new(out@.len() as nat, |i: int| marked_view(out@[i])),
                    ),
                decreases items@.len() - k,
            {
                let m = match MarkedString::from_json(&items[k]) {
                    Some(m) => m,
                    None => {
                        proof {
                            lemma_decode_seq_none(im, f, k as int);
                        }
                        return None;
                    },
                };
                let ghost pre = out@;
                out.push(m);
                proof {
                    assert(im.take(k as int + 1).drop_last() =~= im.take(k as int));
                    assert(im.take(k as int + 1).last() == im[k as int]);
                    assert(Seq::new(out@.len() as nat, |i: int| marked_view(out@[i])) =~= Seq::new(
                        pre.len() as nat,
                        |i: int| marked_view(pre[i]),
                    ).push(marked_view(out@[pre.len() as int])));
                }
                k = k + 1;
            }
            proof {
                assert(im.take(items@.len() as int) =~= im);
                let c = HoverContents::Many(out);
                assert(hover_contents_view(c).1 =~= Seq::new(
                    out@.len() as nat,
                    |i: int| marked_view(out@[i]),
                ));
            }
            Some(HoverContents::Many(out))
        },
        _ => None,
    }
}

/// The comparable shape of a hover.
pub open spec fn hover_view(h: Hover) -> (
    (int, Seq<(Option<Seq<char>>, Seq<char>)>),
    Option<Range>,
) {
    (hover_contents_view(h.contents), h.range)
}

/// Reads a hover reply.
pub open spec fn spec_decode_hover(v: JsonV) -> Option<
    ((int, Seq<(Option<Seq<char>>, Seq<char>)>), Option<Range>),
> {
    match v {
        JsonV::Obj(p) => match obj_lookup(p, "contents"@) {
            Some(cv) => match spec_decode_hover_contents(cv) {
                Some(c) => match obj_lookup(p, "range"@) {
                    Some(rv) => match spec_decode_range(rv) {
                        Some(rg) => Some((c, Some(rg))),
                        None => None,
                    },
                    None => Some((c, None)),
                },
                None => None,
            },
            None => None,
        },
        _ => None,
    }
}

impl Hover {
    /// Reads a hover reply.
    pub fn from_json(j: &Json) -> (r: Option<Hover>)
        ensures
            match r {
                Some(h) => spec_decode_hover(j.model()) == Some(hover_view(h)),
                None => spec_decode_hover(j.model()) is None,
            },
    {
        let p = match j {
            Json::Obj(p) => p,
            _ => {
                return None;
            },
        };
        let cv = match obj_get(p, &String::from_str("contents")) {
            Some(cv) => cv,
            None => {
                return None;
            },
        };
        let contents = match hover_contents_from_json(cv) {
            Some(c) => c,
            None => {
                return None;
            },
        };
        match obj_get(p, &String::from_str("range")) {
            Some(rv) => match Range::from_json(rv) {
                Some(rg) => Some(Hover { contents, range: Some(rg) }),
                None => None,
            },
            None => Some(Hover { contents, range: None }),
        }
    }
}

/// The comparable shape of a diagnostic code.
pub open spec fn code_view(c: DiagnosticCode) -> (int, Seq<char>, int) {
    match c {
        DiagnosticCode::Number(n) => (0, Seq::empty(), n as int),
        DiagnosticCode::Text(t) => (1, t@, 0),
    }
}

/// Reads a diagnostic code: a number within the signed 32-bit range, or a
/// string.
pub open spec fn spec_decode_diag_code(v: JsonV) -> Option<(int, Seq<char>, int)> {
    match v {
        JsonV::Int(n) => if i32::MIN <= n <= i32::MAX {
            Some((0int, Seq::empty(), n))
        } else {
            None
        },
        JsonV::Str(st) => Some((1int, st, 0int)),
        _ => None,
    }
}

/// The comparable shape of a diagnostic.
pub open spec fn diag_view(d: Diagnostic) -> (
    Range,
    Option<u8>,
    Option<(int, Seq<char>, int)>,
    Option<Seq<char>>,
    Seq<char>,
) {
    (
        d.range,
        match d.severity {
            Some(sv) => Some(sv.0),
            None => None,
        },
        match d.code {
            Some(c) => Some(code_view(c)),
            None => None,
        },
        match d.source {
            Some(src) => Some(src@),
            None => None,
        },
        d.message@,
    )
}

/// Reads a diagnostic: range and message are required, the rest may be
/// absent.
pub open spec fn spec_decode_diagnostic(v: JsonV) -> Option<
    (Range, Option<u8>, Option<(int, Seq<char>, int)>, Option<Seq<char>>, Seq<char>),
> {
    match v {
        JsonV::Obj(p) => match (obj_lookup(p, "range"@), field_str(p, "message"@)) {
            (Some(rv), Some(message)) => match spec_decode_range(rv) {
                Some(range) => {
                    let severity = match obj_lookup(p, "severity"@) {
                        Some(JsonV::Int(n)) => if 0 <= n <= u8::MAX {
                            Some(Some(n as u8))
                        } else {
                            None
                        },
                        Some(_) => None,
                        None => Some(None),
                    };
                    let code = match obj_lookup(p, "code"@) {
                        Some(cv) => match spec_decode_diag_code(cv) {
                            Some(c) => Some(Some(c)),
                            None => None,
                        },
                        None => Some(None),
                    };
                    match (severity, code, field_opt_str(p, "source"@)) {
                        (Some(severity), Some(code), Some(source)) => Some(
                            (range, severity, code, source, message),
                        ),
                        _ => None,
                    }
                },
                None => None,
            },
            _ => None,
        },
        _ => None,
    }
}

impl Diagnostic {
    /// Reads a diagnostic.
    pub fn from_json(j: &Json) -> (r: Option<Diagnostic>)
        ensures
            match r {
                Some(d) => spec_decode_diagnostic(j.model()) == Some(diag_view(d)),
                None => spec_decode_diagnostic(j.model()) is None,
            },
    {
        let p = match j {
            Json::Obj(p) => p,
            _ => {
                return None;
            },
        };
        let rv = match obj_get(p, &String::from_str("range")) {
            Some(rv) => rv,
            None => {
                return None;
            },
        };
        let message = match get_str(p, &String::from_str("message")) {
            Some(m) => m,
            None => {
                return None;
            },
        };
        let range = match Range::from_json(rv) {
            Some(rg) => rg,
            None => {
                return None;
            },
        };
        let severity: Option<DiagnosticSeverity> = match obj_get(
            p,
            &String::from_str("severity"),
        ) {
            Some(Json::Int(n)) => {
                if 0 <= *n && *n <= 0xffi64 {
                    Some(DiagnosticSeverity(*n as u8))
                } else {
                    return None;
                }
            },
            Some(_) => {
                return None;
            },
            None => None,
        };
        let code: Option<DiagnosticCode> = match obj_get(p, &String::from_str("code")) {
            Some(Json::Int(n)) => {
                if -0x8000_0000i64 <= *n && *n <= 0x7fff_ffffi64 {
                    Some(DiagnosticCode::Number(*n as i32))
                } else {
                    return None;
                }
            },
            Some(Json::Str(st)) => Some(DiagnosticCode::Text(st.clone())),
            Some(_) => {
                return None;
            },
            None => None,
        };
        let source = match get_opt_str(p, &String::from_str("source")) {
            Some(src) => src,
            None => {
                return None;
            },
        };
        Some(Diagnostic { range, severity, code, source, message })
    }
}

/// The comparable shapes of several diagnostics.
pub open spec fn diags_view(ds: Seq<Diagnostic>) -> Seq<
    (Range, Option<u8>, Option<(int, Seq<char>, int)>, Option<Seq<char>>, Seq<char>),
> {
    Seq::new(ds.len(), |i: int| diag_view(ds[i]))
}

/// Reads a published-diagnostics notification's parameters.
pub open spec fn spec_decode_publish_diagnostics(v: JsonV) -> Option<
    (
        Seq<char>,
        Option<i32>,
        Seq<(Range, Option<u8>, Option<(int, Seq<char>, int)>, Option<Seq<char>>, Seq<char>)>,
    ),
> {
    match v {
        JsonV::Obj(p) => match (field_str(p, "uri"@), obj_lookup(p, "diagnostics"@)) {
            (Some(uri), Some(JsonV::Arr(items))) => match decode_seq(
                items,
                |x: JsonV| spec_decode_diagnostic(x),
            ) {
                Some(ds) => {
                    let version = match obj_lookup(p, "version"@) {
                        Some(JsonV::Int(n)) => if i32::MIN <= n <= i32::MAX {
                            Some(Some(n as i32))
                        } else {
                            None
                        },
                        Some(JsonV::Null) => Some(None),
                        Some(_) => None,
                        None => Some(None),
                    };
                    match version {
                        Some(version) => Some((uri, version, ds)),
                        None => None,
                    }
                },
                None => None,
            },
            _ => None,
        },
        _ => None,
    }
}

impl PublishDiagnosticsParams {
    /// Reads the parameters of a published-diagnostics notification.
    #[verifier::loop_isolation(false)]
    pub fn from_json(j: &Json) -> (r: Option<PublishDiagnosticsParams>)
        ensures
            match r {
                Some(dp) => spec_decode_publish_diagnostics(j.model()) == Some(
                    (dp.uri@, dp.version, diags_view(dp.diagnostics@)),
                ),
                None => spec_decode_publish_diagnostics(j.model()) is None,
            },
    {
        let p = match j {
            Json::Obj(p) => p,
            _ => {
                return None;
            },
        };
        let uri = match get_str(p, &String::from_str("uri")) {
            Some(u) => u,
            None => {
                return None;
            },
        };
        let items = match obj_get(p, &String::from_str("diagnostics")) {
            Some(Json::Arr(items)) => items,
            _ => {
                return None;
            },
        };
        let ghost im = crate::json::model_items(items@);
        let ghost f = |x: JsonV| spec_decode_diagnostic(x);
        proof {
            lemma_model_items_index(items@);
        }
        let mut ds: Vec<Diagnostic> = Vec::new();
        let mut k: usize = 0;
        while k < items.len()
            invariant
                k <= items@.len(),
                decode_seq(im.take(k as int), f) == Some(diags_view(ds@)),
            decreases items@.len() - k,
        {
            let d = match Diagnostic::from_json(&items[k]) {
                Some(d) => d,
                None => {
                    proof {
                        lemma_decode_seq_none(im, f, k as int);
                    }
                    return None;
                },
            };
            let ghost pre = ds@;
            ds.push(d);
            proof {
                assert(im.take(k as int + 1).drop_last() =~= im.take(k as int));
                assert(im.take(k as int + 1).last() == im[k as int]);
                assert(diags_view(ds@) =~= diags_view(pre).push(diag_view(ds@[pre.len() as int])));
            }
            k = k + 1;
        }
        proof {
            assert(im.take(items@.len() as int) =~= im);
        }
        let version: Option<i32> = match obj_get(p, &String::from_str("version")) {
            Some(Json::Int(n)) => {
                if -0x8000_0000i64 <= *n && *n <= 0x7fff_ffffi64 {
                    Some(*n as i32)
                } else {
                    return None;
                }
            },
            Some(Json::Null) => None,
            Some(_) => {
                return None;
            },
            None => None,
        };
        Some(PublishDiagnosticsParams { uri, version, diagnostics: ds })
    }
}

/// The comparable shape of a text edit.
pub open spec fn edit_view(e: TextEdit) -> (Range, Seq<char>) {
    (e.range, e.new_text@)
}

/// Reads a text edit.
pub open spec fn spec_decode_text_edit(v: JsonV) -> Option<(Range, Seq<char>)> {
    match v {
        JsonV::Obj(p) => match (obj_lookup(p, "range"@), field_str(p, "newText"@)) {
            (Some(rv), Some(text)) => match spec_decode_range(rv) {
                Some(range) => Some((range, text)),
                None => None,
            },
            _ => None,
        },
        _ => None,
    }
}

impl TextEdit {
    /// Reads a text edit.
    pub fn from_json(j: &Json) -> (r: Option<TextEdit>)
        ensures
            match r {
                Some(e) => spec_decode_text_edit(j.model()) == Some(edit_view(e)),
                None => spec_decode_text_edit(j.model()) is None,
            },
    {
        match j {
            Json::Obj(p) => {
                let rv = obj_get(p, &String::from_str("range"));
                let text = get_str(p, &String::from_str("newText"));
                match (rv, text) {
                    (Some(rv), Some(new_text)) => match Range::from_json(rv) {
                        Some(range) => Some(TextEdit { range, new_text }),
                        None => None,
                    },
                    _ => None,
                }
            },
            _ => None,
        }
    }
}

/// The comparable shape of a completion item: the fields the wire carries.
pub open spec fn item_view(it: CompletionItem) -> (
    Seq<char>,
    Option<u8>,
    Option<Seq<char>>,
    Option<Seq<char>>,
    Option<u8>,
    Option<(Range, Seq<char>)>,
    Option<Seq<char>>,
    Option<Seq<char>>,
) {
    (
        it.label@,
        match it.kind {
            Some(k) => Some(k.0),
            None => None,
        },
        match it.detail {
            Some(d) => Some(d@),
            None => None,
        },
        match it.insert_text {
            Some(t) => Some(t@),
            None => None,
        },
        match it.insert_text_format {
            Some(ftm) => Some(ftm.0),
            None => None,
        },
        match it.text_edit {
            Some(e) => Some(edit_view(e)),
            None => None,
        },
        match it.filter_text {
            Some(t) => Some(t@),
            None => None,
        },
        match it.sort_text {
            Some(t) => Some(t@),
            None => None,
        },
    )
}

/// Reads a completion item: the label is required, the rest may be absent.
/// Documentation is not kept: the frontend never shows it.
pub open spec fn spec_decode_item(v: JsonV) -> Option<
    (
        Seq<char>,
        Option<u8>,
        Option<Seq<char>>,
        Option<Seq<char>>,
        Option<u8>,
        Option<(Range, Seq<char>)>,
        Option<Seq<char>>,
        Option<Seq<char>>,
    ),
> {
    match v {
        JsonV::Obj(p) => match field_str(p, "label"@) {
            Some(label) => {
                let kind = match obj_lookup(p, "kind"@) {
                    Some(JsonV::Int(n)) => if 0 <= n <= u8::MAX {
                        Some(Some(n as u8))
                    } else {
                        None
                    },
                    Some(_) => None,
                    None => Some(None),
                };
                let fmt = match obj_lookup(p, "insertTextFormat"@) {
                    Some(JsonV::Int(n)) => if 0 <= n <= u8::MAX {
                        Some(Some(n as u8))
                    } else {
                        None
                    },
                    Some(_) => None,
                    None => Some(None),
                };
                let te = match obj_lookup(p, "textEdit"@) {
                    Some(tv) => match spec_decode_text_edit(tv) {
                        Some(e) => Some(Some(e)),
                        None => None,
                    },
                    None => Some(None),
                };
                match (kind, fmt, te, field_opt_str(p, "detail"@), field_opt_str(
                    p,
                    "insertText"@,
                ), field_opt_str(p, "filterText"@), field_opt_str(p, "sortText"@)) {
                    (
                        Some(kind),
                        Some(fmt),
                        Some(te),
                        Some(detail),
                        Some(insert_text),
                        Some(filter_text),
                        Some(sort_text),
                    ) => Some((label, kind, detail, insert_text, fmt, te, filter_text, sort_text)),
                    _ => None,
                }
            },
            None => None,
        },
        _ => None,
    }
}

impl CompletionItem {
    /// Reads a completion item.
    pub fn from_json(j: &Json) -> (r: Option<CompletionItem>)
        ensures
            match r {
                Some(it) => spec_decode_item(j.model()) == Some(item_view(it)) && it
                    .documentation is None,
                None => spec_decode_item(j.model()) is None,
            },
    {
        let p = match j {
            Json::Obj(p) => p,
            _ => {
                return None;
            },
        };
        let label = match get_str(p, &String::from_str("label")) {
            Some(l) => l,
            None => {
                return None;
            },
        };
        let kind: Option<CompletionItemKind> = match obj_get(p, &String::from_str("kind")) {
            Some(Json::Int(n)) => {
                if 0 <= *n && *n <= 0xffi64 {
                    Some(CompletionItemKind(*n as u8))
                } else {
                    return None;
                }
            },
            Some(_) => {
                return None;
            },
            None => None,
        };
        let insert_text_format: Option<InsertTextFormat> = match obj_get(
            p,
            &String::from_str("insertTextFormat"),
        ) {
            Some(Json::Int(n)) => {
                if 0 <= *n && *n <= 0xffi64 {
                    Some(InsertTextFormat(*n as u8))
                } else {
                    return None;
                }
            },
            Some(_) => {
                return None;
            },
            None => None,
        };
        let text_edit: Option<TextEdit> = match obj_get(p, &String::from_str("textEdit")) {
            Some(tv) => match TextEdit::from_json(tv) {
                Some(e) => Some(e),
                None => {
                    return None;
                },
            },
            None => None,
        };
        let detail = match get_opt_str(p, &String::from_str("detail")) {
            Some(d) => d,
            None => {
                return None;
            },
        };
        let insert_text = match get_opt_str(p, &String::from_str("insertText")) {
            Some(t) => t,
            None => {
                return None;
            },
        };
        let filter_text = match get_opt_str(p, &String::from_str("filterText")) {
            Some(t) => t,
            None => {
                return None;
            },
        };
        let sort_text = match get_opt_str(p, &String::from_str("sortText")) {
            Some(t) => t,
            None => {
                return None;
            },
        };
        Some(
            CompletionItem {
                label,
                kind,
                detail,
                documentation: None,
                insert_text,
                insert_text_format,
                text_edit,
                filter_text,
                sort_text,
            },
        )
    }
}

/// The comparable shapes of several completion items.
pub open spec fn items_view(its: Seq<CompletionItem>) -> Seq<
    (
        Seq<char>,
        Option<u8>,
        Option<Seq<char>>,
        Option<Seq<char>>,
        Option<u8>,
        Option<(Range, Seq<char>)>,
        Option<Seq<char>>,
        Option<Seq<char>>,
    ),
> {
    Seq::new(its.len(), |i: int| item_view(its[i]))
}

/// Reads a completion reply: a list object or a bare array, with whether it
/// was marked incomplete.
pub open spec fn spec_decode_completion(v: JsonV) -> Option<
    (
        Option<bool>,
        Seq<
            (
                Seq<char>,
                Option<u8>,
                Option<Seq<char>>,
                Option<Seq<char>>,
                Option<u8>,
                Option<(Range, Seq<char>)>,
                Option<Seq<char>>,
                Option<Seq<char>>,
            ),
        >,
    ),
> {
    match v {
        JsonV::Obj(p) => match (field_bool(p, "isIncomplete"@), obj_lookup(p, "items"@)) {
            (Some(inc), Some(JsonV::Arr(items))) => match decode_seq(
                items,
                |x: JsonV| spec_decode_item(x),
            ) {
                Some(its) => Some((Some(inc), its)),
                None => None,
            },
            _ => None,
        },
        JsonV::Arr(items) => match decode_seq(items, |x: JsonV| spec_decode_item(x)) {
            Some(its) => Some((None, its)),
            None => None,
        },
        _ => None,
    }
}

/// Reads the items of either completion reply shape.
#[verifier::loop_isolation(false)]
fn completion_items_from_json(items: &Vec<Json>) -> (r: Option<Vec<CompletionItem>>)
    ensures
        match r {
            Some(its) => decode_seq(
                crate::json::model_items(items@),
                |x: JsonV| spec_decode_item(x),
            ) == Some(items_view(its@)),
            None => decode_seq(
                crate::json::model_items(items@),
                |x: JsonV| spec_decode_item(x),
            ) is None,
        },
{
    let ghost im = crate::json::model_items(items@);
    let ghost f = |x: JsonV| spec_decode_item(x);
    proof {
        lemma_model_items_index(items@);
    }
    let mut out: Vec<CompletionItem> = Vec::new();
    let mut k: usize = 0;
    while k < items.len()
        invariant
            k <= items@.len(),
            decode_seq(im.take(k as int), f) == Some(items_view(out@)),
        decreases items@.len() - k,
    {
        let it = match CompletionItem::from_json(&items[k]) {
            Some(it) => it,
            None => {
                proof {
                    lemma_decode_seq_none(im, f, k as int);
                }
                return None;
            },
        };
        let ghost pre = out@;
        out.push(it);
        proof {
            assert(im.take(k as int + 1).drop_last() =~= im.take(k as int));
            assert(im.take(k as int + 1).last() == im[k as int]);
            assert(items_view(out@) =~= items_view(pre).push(item_view(out@[pre.len() as int])));
        }
        k = k + 1;
    }
    proof {
        assert(im.take(items@.len() as int) =~= im);
    }
    Some(out)
}

impl CompletionResponse {
    /// Reads a completion reply of either shape.
    pub fn from_json(j: &Json) -> (r: Option<CompletionResponse>)
        ensures
            match r {
                Some(c) => spec_decode_completion(j.model()) == Some(
                    match c {
                        CompletionResponse::List(l) => (
                            Some(l.is_incomplete),
                            items_view(l.items@),
                        ),
                        CompletionResponse::Array(its) => (None, items_view(its@)),
                    },
                ),
                None => spec_decode_completion(j.model()) is None,
            },
    {
        match j {
            Json::Obj(p) => {
                let inc = get_bool(p, &String::from_str("isIncomplete"));
                let items = obj_get(p, &String::from_str("items"));
                match (inc, items) {
                    (Some(inc), Some(Json::Arr(items))) => match completion_items_from_json(
                        items,
                    ) {
                        Some(its) => Some(
                            CompletionResponse::List(
                                CompletionList { is_incomplete: inc, items: its },
                            ),
                        ),
                        None => None,
                    },
                    _ => None,
                }
            },
            Json::Arr(items) => match completion_items_from_json(items) {
                Some(its) => Some(CompletionResponse::Array(its)),
                None => None,
            },
            _ => None,
        }
    }
}

/// The comparable shape of a command.
pub open spec fn cmd_view(c: Command) -> (Seq<char>, Seq<char>, Option<Seq<JsonV>>) {
    (
        c.title@,
        c.command@,
        match c.arguments {
            Some(args) => Some(crate::json::model_items(args@)),
            None => None,
        },
    )
}

/// Reads a command: title and command string, arguments carried through.
pub open spec fn spec_decode_command(v: JsonV) -> Option<(Seq<char>, Seq<char>, Option<Seq<JsonV>>)> {
    match v {
        JsonV::Obj(p) => match (field_str(p, "title"@), field_str(p, "command"@)) {
            (Some(title), Some(command)) => match obj_lookup(p, "arguments"@) {
                Some(JsonV::Arr(args)) => Some((title, command, Some(args))),
                Some(_) => None,
                None => Some((title, command, None)),
            },
            _ => None,
        },
        _ => None,
    }
}

impl Command {
    /// Reads a command.
    #[verifier::loop_isolation(false)]
    pub fn from_json(j: &Json) -> (r: Option<Command>)
        ensures
            match r {
                Some(c) => spec_decode_command(j.model()) == Some(cmd_view(c)),
                None => spec_decode_command(j.model()) is None,
            },
    {
        let p = match j {
            Json::Obj(p) => p,
            _ => {
                return None;
            },
        };
        let title = match get_str(p, &String::from_str("title")) {
            Some(t) => t,
            None => {
                return None;
            },
        };
        let command = match get_str(p, &String::from_str("command")) {
            Some(c) => c,
            None => {
                return None;
            },
        };
        let arguments: Option<Vec<Json>> = match obj_get(p, &String::from_str("arguments")) {
            Some(Json::Arr(args)) => {
                let mut out: Vec<Json> = Vec::new();
                let mut k: usize = 0;
                while k < args.len()
                    invariant
                        k <= args@.len(),
                        crate::json::model_items(out@) == crate::json::model_items(args@).take(
                            k as int,
                        ),
                    decreases args@.len() - k,
                {
                    let ghost pre = out@;
                    out.push(args[k].duplicate());
                    proof {
                        lemma_model_items_index(args@);
                        assert(out@.drop_last() =~= pre);
                        assert(crate::json::model_items(out@) =~= crate::json::model_items(
                            args@,
                        ).take(k as int + 1));
                    }
                    k = k + 1;
                }
                proof {
                    lemma_model_items_index(args@);
                    assert(crate::json::model_items(args@).take(args@.len() as int)
                        =~= crate::json::model_items(args@));
                }
                Some(out)
            },
            Some(_) => {
                return None;
            },
            None => None,
        };
        Some(Command { title, command, arguments })
    }
}

/// The comparable shape of a plain or annotated edit.
pub open spec fn mixed_edit_view(e: TextEditOrAnnotated) -> (Range, Seq<char>, Option<Seq<char>>) {
    match e {
        TextEditOrAnnotated::Plain(te) => (te.range, te.new_text@, None),
        TextEditOrAnnotated::Annotated(a) => (a.range, a.new_text@, Some(a.annotation_id@)),
    }
}

/// Reads a plain or annotated edit: one carrying an annotation id is
/// annotated.
pub open spec fn spec_decode_mixed_edit(v: JsonV) -> Option<(Range, Seq<char>, Option<Seq<char>>)> {
    match spec_decode_text_edit(v) {
        Some(e) => match v {
            JsonV::Obj(p) => match obj_lookup(p, "annotationId"@) {
                Some(JsonV::Str(id)) => Some((e.0, e.1, Some(id))),
                Some(_) => None,
                None => Some((e.0, e.1, None)),
            },
            _ => None,
        },
        None => None,
    }
}

impl TextEditOrAnnotated {
    /// Reads a plain or annotated edit.
    pub fn from_json(j: &Json) -> (r: Option<TextEditOrAnnotated>)
        ensures
            match r {
                Some(e) => spec_decode_mixed_edit(j.model()) == Some(mixed_edit_view(e)),
                None => spec_decode_mixed_edit(j.model()) is None,
            },
    {
        let te = match TextEdit::from_json(j) {
            Some(te) => te,
            None => {
                return None;
            },
        };
        let p = match j {
            Json::Obj(p) => p,
            _ => {
                return None;
            },
        };
        match obj_get(p, &String::from_str("annotationId")) {
            Some(Json::Str(id)) => Some(
                TextEditOrAnnotated::Annotated(
                    AnnotatedTextEdit {
                        range: te.range,
                        new_text: te.new_text,
                        annotation_id: id.clone(),
                    },
                ),
            ),
            Some(_) => None,
            None => Some(TextEditOrAnnotated::Plain(te)),
        }
    }
}

/// The comparable shape of one document change.
pub open spec fn dc_view(d: DocumentChange) -> (
    int,
    Seq<char>,
    Seq<char>,
    Option<i32>,
    Seq<(Range, Seq<char>, Option<Seq<char>>)>,
    Option<(Option<bool>, Option<bool>)>,
) {
    match d {
        DocumentChange::Edit(e) => (
            0,
            e.text_document.uri@,
            Seq::empty(),
            e.text_document.version,
            Seq::new(e.edits@.len(), |i: int| mixed_edit_view(e.edits@[i])),
            None,
        ),
        DocumentChange::Create(c) => (
            1,
            c.uri@,
            c.kind@,
            None,
            Seq::empty(),
            match c.options {
                Some(o) => Some((o.overwrite, o.ignore_if_exists)),
                None => None,
            },
        ),
        DocumentChange::Rename(rn) => (
            2,
            rn.old_uri@,
            rn.new_uri@,
            None,
            Seq::empty(),
            match rn.options {
                Some(o) => Some((o.overwrite, o.ignore_if_exists)),
                None => None,
            },
        ),
        DocumentChange::Delete(dl) => (
            3,
            dl.uri@,
            dl.kind@,
            None,
            Seq::empty(),
            match dl.options {
                Some(o) => Some((o.recursive, o.ignore_if_not_exists)),
                None => None,
            },
        ),
    }
}

/// Reads the optional two-flag options object under a key.
pub open spec fn spec_decode_two_flags(
    p: Seq<(Seq<char>, JsonV)>,
    k1: Seq<char>,
    k2: Seq<char>,
) -> Option<Option<(Option<bool>, Option<bool>)>> {
    match obj_lookup(p, "options"@) {
        Some(JsonV::Obj(po)) => {
            let a = match obj_lookup(po, k1) {
                Some(JsonV::Bool(b)) => Some(Some(b)),
                Some(_) => None,
                None => Some(None),
            };
            let b = match obj_lookup(po, k2) {
                Some(JsonV::Bool(x)) => Some(Some(x)),
                Some(_) => None,
                None => Some(None),
            };
            match (a, b) {
                (Some(a), Some(b)) => Some(Some((a, b))),
                _ => None,
            }
        },
        Some(_) => None,
        None => Some(None),
    }
}

fn get_two_flags(fields: &Vec<(String, Json)>, k1: &String, k2: &String) -> (r: Option<
    Option<(Option<bool>, Option<bool>)>,
>)
    ensures
        match r {
            Some(o) => spec_decode_two_flags(model_fields(fields@), k1@, k2@) == Some(o),
            None => spec_decode_two_flags(model_fields(fields@), k1@, k2@) is None,
        },
{
    match obj_get(fields, &String::from_str("options")) {
        Some(Json::Obj(po)) => {
            let a: Option<bool> = match obj_get(po, k1) {
                Some(Json::Bool(b)) => Some(*b),
                Some(_) => {
                    return None;
                },
                None => None,
            };
            let b: Option<bool> = match obj_get(po, k2) {
                Some(Json::Bool(x)) => Some(*x),
                Some(_) => {
                    return None;
                },
                None => None,
            };
            Some(Some((a, b)))
        },
        Some(_) => None,
        None => Some(None),
    }
}

/// Reads one document change: a textual edit, a file creation, a rename or
/// a deletion, told apart in that order.
pub open spec fn spec_decode_doc_change(v: JsonV) -> Option<
    (
        int,
        Seq<char>,
        Seq<char>,
        Option<i32>,
        Seq<(Range, Seq<char>, Option<Seq<char>>)>,
        Option<(Option<bool>, Option<bool>)>,
    ),
> {
    match v {
        JsonV::Obj(p) => match (obj_lookup(p, "textDocument"@), obj_lookup(p, "edits"@)) {
            (Some(JsonV::Obj(tdp)), Some(JsonV::Arr(edits))) => match (field_str(tdp, "uri"@),
            decode_seq(edits, |x: JsonV| spec_decode_mixed_edit(x))) {
                (Some(uri), Some(es)) => {
                    let ver = match obj_lookup(tdp, "version"@) {
                        Some(JsonV::Int(n)) => if i32::MIN <= n <= i32::MAX {
                            Some(Some(n as i32))
                        } else {
                            None
                        },
                        Some(JsonV::Null) => Some(None),
                        Some(_) => None,
                        None => Some(None),
                    };
                    match ver {
                        Some(ver) => Some((0int, uri, Seq::empty(), ver, es, None)),
                        None => None,
                    }
                },
                _ => None,
            },
            _ => spec_decode_file_op(p),
        },
        _ => None,
    }
}

/// Reads a file operation: creation, rename or deletion.
pub open spec fn spec_decode_file_op(p: Seq<(Seq<char>, JsonV)>) -> Option<
    (
        int,
        Seq<char>,
        Seq<char>,
        Option<i32>,
        Seq<(Range, Seq<char>, Option<Seq<char>>)>,
        Option<(Option<bool>, Option<bool>)>,
    ),
> {
    match field_str(p, "kind"@) {
        Some(kind) => match field_str(p, "uri"@) {
            Some(uri) => match spec_decode_two_flags(p, "overwrite"@, "ignoreIfExists"@) {
                Some(opts) => if kind == "delete"@ {
                    match spec_decode_two_flags(p, "recursive"@, "ignoreIfNotExists"@) {
                        Some(dopts) => Some((3int, uri, kind, None, Seq::empty(), dopts)),
                        None => None,
                    }
                } else {
                    Some((1int, uri, kind, None, Seq::empty(), opts))
                },
                None => None,
            },
            None => match (field_str(p, "oldUri"@), field_str(p, "newUri"@)) {
                (Some(old_uri), Some(new_uri)) => match spec_decode_two_flags(
                    p,
                    "overwrite"@,
                    "ignoreIfExists"@,
                ) {
                    Some(opts) => Some((2int, old_uri, new_uri, None, Seq::empty(), opts)),
                    None => None,
                },
                _ => None,
            },
        },
        None => None,
    }
}

impl DocumentChange {
    /// Reads one document change.
    #[verifier::loop_isolation(false)]
    pub fn from_json(j: &Json) -> (r: Option<DocumentChange>)
        ensures
            match r {
                Some(d) => spec_decode_doc_change(j.model()) == Some(dc_view(d)),
                None => spec_decode_doc_change(j.model()) is None,
            },
    {
        let p = match j {
            Json::Obj(p) => p,
            _ => {
                return None;
            },
        };
        let tdv = obj_get(p, &String::from_str("textDocument"));
        let edv = obj_get(p, &String::from_str("edits"));
        match (tdv, edv) {
            (Some(Json::Obj(tdp)), Some(Json::Arr(edits))) => {
                let uri = match get_str(tdp, &String::from_str("uri")) {
                    Some(u) => u,
                    None => {
                        return None;
                    },
                };
                let ghost im = crate::json::model_items(edits@);
                let ghost f = |x: JsonV| spec_decode_mixed_edit(x);
                proof {
                    lemma_model_items_index(edits@);
                }
                let mut es: Vec<TextEditOrAnnotated> = Vec::new();
                let mut k: usize = 0;
                while k < edits.len()
                    invariant
                        k <= edits@.len(),
                        decode_seq(im.take(k as int), f) == Some(
                            Seq::new(es@.len() as nat, |i: int| mixed_edit_view(es@[i])),
                        ),
                    decreases edits@.len() - k,
                {
                    let e = match TextEditOrAnnotated::from_json(&edits[k]) {
                        Some(e) => e,
                        None => {
                            proof {
                                lemma_decode_seq_none(im, f, k as int);
                            }
                            return None;
                        },
                    };
                    let ghost pre = es@;
                    es.push(e);
                    proof {
                        assert(im.take(k as int + 1).drop_last() =~= im.take(k as int));
                        assert(im.take(k as int + 1).last() == im[k as int]);
                        assert(Seq::new(es@.len() as nat, |i: int| mixed_edit_view(es@[i]))
                            =~= Seq::new(pre.len() as nat, |i: int| mixed_edit_view(pre[i])).push(
                            mixed_edit_view(es@[pre.len() as int]),
                        ));
                    }
                    k = k + 1;
                }
                proof {
                    assert(im.take(edits@.len() as int) =~= im);
                }
                let version: Option<i32> = match obj_get(tdp, &String::from_str("version")) {
                    Some(Json::Int(n)) => {
                        if -0x8000_0000i64 <= *n && *n <= 0x7fff_ffffi64 {
                            Some(*n as i32)
                        } else {
                            return None;
                        }
                    },
                    Some(Json::Null) => None,
                    Some(_) => {
                        return None;
                    },
                    None => None,
                };
                let d = DocumentChange::Edit(
                    TextDocumentEdit {
                        text_document: OptionalVersionedTextDocumentIdentifier { uri, version },
                        edits: es,
                    },
                );
                proof {
                    assert(dc_view(d).4 =~= Seq::new(
                        es@.len() as nat,
                        |i: int| mixed_edit_view(es@[i]),
                    ));
                }
                Some(d)
            },
            _ => {
                let kind = match get_str(p, &String::from_str("kind")) {
                    Some(kd) => kd,
                    None => {
                        return None;
                    },
                };
                match get_str(p, &String::from_str("uri")) {
                    Some(uri) => {
                        let opts = match get_two_flags(
                            p,
                            &String::from_str("overwrite"),
                            &String::from_str("ignoreIfExists"),
                        ) {
                            Some(o) => o,
                            None => {
                                return None;
                            },
                        };
                        if kind == String::from_str("delete") {
                            let dopts = match get_two_flags(
                                p,
                                &String::from_str("recursive"),
                                &String::from_str("ignoreIfNotExists"),
                            ) {
                                Some(o) => o,
                                None => {
                                    return None;
                                },
                            };
                            Some(
                                DocumentChange::Delete(
                                    DeleteFile {
                                        kind,
                                        uri,
                                        options: match dopts {
                                            Some(pair) => Some(
                                                DeleteFileOptions {
                                                    recursive: pair.0,
                                                    ignore_if_not_exists: pair.1,
                                                },
                                            ),
                                            None => None,
                                        },
                                    },
                                ),
                            )
                        } else {
                            Some(
                                DocumentChange::Create(
                                    CreateFile {
                                        kind,
                                        uri,
                                        options: match opts {
                                            Some(pair) => Some(
                                                CreateFileOptions {
                                                    overwrite: pair.0,
                                                    ignore_if_exists: pair.1,
                                                },
                                            ),
                                            None => None,
                                        },
                                    },
                                ),
                            )
                        }
                    },
                    None => {
                        let old_uri = match get_str(p, &String::from_str("oldUri")) {
                            Some(u) => u,
                            None => {
                                return None;
                            },
                        };
                        let new_uri = match get_str(p, &String::from_str("newUri")) {
                            Some(u) => u,
                            None => {
                                return None;
                            },
                        };
                        let opts = match get_two_flags(
                            p,
                            &String::from_str("overwrite"),
                            &String::from_str("ignoreIfExists"),
                        ) {
                            Some(o) => o,
                            None => {
                                return None;
                            },
                        };
                        Some(
                            DocumentChange::Rename(
                                RenameFile {
                                    kind,
                                    old_uri,
                                    new_uri,
                                    options: match opts {
                                        Some(pair) => Some(
                                            RenameFileOptions {
                                                overwrite: pair.0,
                                                ignore_if_exists: pair.1,
                                            },
                                        ),
                                        None => None,
                                    },
                                },
                            ),
                        )
                    },
                }
            },
        }
    }
}

/// The comparable shape of a workspace edit.
pub open spec fn wsedit_view(w: WorkspaceEdit) -> (
    Option<Seq<(Seq<char>, Seq<(Range, Seq<char>)>)>>,
    Option<
        Seq<
            (
                int,
                Seq<char>,
                Seq<char>,
                Option<i32>,
                Seq<(Range, Seq<char>, Option<Seq<char>>)>,
                Option<(Option<bool>, Option<bool>)>,
            ),
        >,
    >,
) {
    (
        match w.changes {
            Some(ch) => Some(
                Seq::new(
                    ch@.len(),
                    |i: int|
                        (
                            ch@[i].0@,
                            Seq::new(ch@[i].1@.len(), |t: int| edit_view(ch@[i].1@[t])),
                        ),
                ),
            ),
            None => None,
        },
        match w.document_changes {
            Some(dc) => Some(Seq::new(dc@.len(), |i: int| dc_view(dc@[i]))),
            None => None,
        },
    )
}

/// Reads the per-uri edits of a `changes` member.
pub open spec fn spec_decode_changes(fields: Seq<(Seq<char>, JsonV)>) -> Option<
    Seq<(Seq<char>, Seq<(Range, Seq<char>)>)>,
>
    decreases fields.len(),
{
    if fields.len() == 0 {
        Some(Seq::empty())
    } else {
        match (spec_decode_changes(fields.drop_last()), fields.last().1) {
            (Some(rest), JsonV::Arr(items)) => match decode_seq(
                items,
                |x: JsonV| spec_decode_text_edit(x),
            ) {
                Some(es) => Some(rest.push((fields.last().0, es))),
                None => None,
            },
            _ => None,
        }
    }
}

/// If one member's edits fail to decode, the whole map fails.
proof fn lemma_decode_changes_none(fields: Seq<(Seq<char>, JsonV)>, k: int)
    requires
        0 <= k < fields.len(),
        match fields[k].1 {
            JsonV::Arr(items) => decode_seq(items, |x: JsonV| spec_decode_text_edit(x)) is None,
            _ => true,
        },
    ensures
        spec_decode_changes(fields) is None,
    decreases fields.len(),
{
    if fields.len() > 0 {
        if k < fields.len() - 1 {
            lemma_decode_changes_none(fields.drop_last(), k);
        }
    }
}

/// Reads a workspace edit: both members may be absent.
pub open spec fn spec_decode_wsedit(v: JsonV) -> Option<
    (
        Option<Seq<(Seq<char>, Seq<(Range, Seq<char>)>)>>,
        Option<
            Seq<
                (
                    int,
                    Seq<char>,
                    Seq<char>,
                    Option<i32>,
                    Seq<(Range, Seq<char>, Option<Seq<char>>)>,
                    Option<(Option<bool>, Option<bool>)>,
                ),
            >,
        >,
    ),
> {
    match v {
        JsonV::Obj(p) => {
            let ch = match obj_lookup(p, "changes"@) {
                Some(JsonV::Obj(cf)) => match spec_decode_changes(cf) {
                    Some(c) => Some(Some(c)),
                    None => None,
                },
                Some(_) => None,
                None => Some(None),
            };
            let dc = match obj_lookup(p, "documentChanges"@) {
                Some(JsonV::Arr(items)) => match decode_seq(
                    items,
                    |x: JsonV| spec_decode_doc_change(x),
                ) {
                    Some(d) => Some(Some(d)),
                    None => None,
                },
                Some(_) => None,
                None => Some(None),
            };
            match (ch, dc) {
                (Some(ch), Some(dc)) => Some((ch, dc)),
                _ => None,
            }
        },
        _ => None,
    }
}

impl WorkspaceEdit {
    /// Reads a workspace edit.
    #[verifier::loop_isolation(false)]
    #[verifier::rlimit(100)]
    pub fn from_json(j: &Json) -> (r: Option<WorkspaceEdit>)
        ensures
            match r {
                Some(w) => spec_decode_wsedit(j.model()) == Some(wsedit_view(w)),
                None => spec_decode_wsedit(j.model()) is None,
            },
    {
        let p = match j {
            Json::Obj(p) => p,
            _ => {
                return None;
            },
        };
        let changes: Option<Vec<(String, Vec<TextEdit>)>> = match obj_get(
            p,
            &String::from_str("changes"),
        ) {
            Some(Json::Obj(cf)) => {
                let ghost cm = model_fields(cf@);
                proof {
                    lemma_model_fields_index(cf@);
                }
                let mut out: Vec<(String, Vec<TextEdit>)> = Vec::new();
                let mut k: usize = 0;
                while k < cf.len()
                    invariant
                        k <= cf@.len(),
                        spec_decode_changes(cm.take(k as int)) == Some(
                            Seq::new(
                                out@.len() as nat,
                                |i: int|
                                    (
                                        out@[i].0@,
                                        Seq::new(
                                            out@[i].1@.len(),
                                            |t: int| edit_view(out@[i].1@[t]),
                                        ),
                                    ),
                            ),
                        ),
                    decreases cf@.len() - k,
                {
                    let items = match &cf[k].1 {
                        Json::Arr(items) => items,
                        _ => {
                            proof {
                                lemma_decode_changes_none(cm, k as int);
                                assert(cm.take(k as int + 1).drop_last() =~= cm.take(k as int));
                            }
                            assert(spec_decode_changes(cm) is None) by {
                                lemma_decode_changes_prefix(cm, k as int);
                            }
                            return None;
                        },
                    };
                    let ghost im = crate::json::model_items(items@);
                    let ghost f = |x: JsonV| spec_decode_text_edit(x);
                    proof {
                        lemma_model_items_index(items@);
                    }
                    let mut es: Vec<TextEdit> = Vec::new();
                    let mut t: usize = 0;
                    while t < items.len()
                        invariant
                            t <= items@.len(),
                            decode_seq(im.take(t as int), f) == Some(
                                Seq::new(es@.len() as nat, |i: int| edit_view(es@[i])),
                            ),
                        decreases items@.len() - t,
                    {
                        let e = match TextEdit::from_json(&items[t]) {
                            Some(e) => e,
                            None => {
                                proof {
                                    lemma_decode_seq_none(im, f, t as int);
                                    lemma_decode_changes_none(cm, k as int);
                                    lemma_decode_changes_prefix(cm, k as int);
                                }
                                return None;
                            },
                        };
                        let ghost pre = es@;
                        es.push(e);
                        proof {
                            assert(im.take(t as int + 1).drop_last() =~= im.take(t as int));
                            assert(im.take(t as int + 1).last() == im[t as int]);
                            assert(Seq::new(es@.len() as nat, |i: int| edit_view(es@[i]))
                                =~= Seq::new(pre.len() as nat, |i: int| edit_view(pre[i])).push(
                                edit_view(es@[pre.len() as int]),
                            ));
                        }
                        t = t + 1;
                    }
                    proof {
                        assert(im.take(items@.len() as int) =~= im);
                    }
                    let ghost preout = out@;
                    out.push((cf[k].0.clone(), es));
                    proof {
                        assert(cm.take(k as int + 1).drop_last() =~= cm.take(k as int));
                        assert(cm.take(k as int + 1).last() == cm[k as int]);
                        assert(Seq::new(
                            out@.len() as nat,
                            |i: int|
                                (
                                    out@[i].0@,
                                    Seq::new(out@[i].1@.len(), |t2: int| edit_view(out@[i].1@[t2])),
                                ),
                        ) =~= Seq::new(
                            preout.len() as nat,
                            |i: int|
                                (
                                    preout[i].0@,
                                    Seq::new(
                                        preout[i].1@.len(),
                                        |t2: int| edit_view(preout[i].1@[t2]),
                                    ),
                                ),
                        ).push(
                            (
                                out@[preout.len() as int].0@,
                                Seq::new(
                                    out@[preout.len() as int].1@.len(),
                                    |t2: int| edit_view(out@[preout.len() as int].1@[t2]),
                                ),
                            ),
                        ));
                    }
                    k = k + 1;
                }
                proof {
                    assert(cm.take(cf@.len() as int) =~= cm);
                }
                Some(out)
            },
            Some(_) => {
                return None;
            },
            None => None,
        };
        let document_changes: Option<Vec<DocumentChange>> = match obj_get(
            p,
            &String::from_str("documentChanges"),
        ) {
            Some(Json::Arr(items)) => {
                let ghost im = crate::json::model_items(items@);
                let ghost f = |x: JsonV| spec_decode_doc_change(x);
                proof {
                    lemma_model_items_index(items@);
                }
                let mut out: Vec<DocumentChange> = Vec::new();
                let mut k: usize = 0;
                while k < items.len()
                    invariant
                        k <= items@.len(),
                        decode_seq(im.take(k as int), f) == Some(
                            Seq::new(out@.len() as nat, |i: int| dc_view(out@[i])),
                        ),
                    decreases items@.len() - k,
                {
                    let d = match DocumentChange::from_json(&items[k]) {
                        Some(d) => d,
                        None => {
                            proof {
                                lemma_decode_seq_none(im, f, k as int);
                            }
                            return None;
                        },
                    };
                    let ghost pre = out@;
                    out.push(d);
                    proof {
                        assert(im.take(k as int + 1).drop_last() =~= im.take(k as int));
                        assert(im.take(k as int + 1).last() == im[k as int]);
                        assert(Seq::new(out@.len() as nat, |i: int| dc_view(out@[i])) =~= Seq::new(
                            pre.len() as nat,
                            |i: int| dc_view(pre[i]),
                        ).push(dc_view(out@[pre.len() as int])));
                    }
                    k = k + 1;
                }
                proof {
                    assert(im.take(items@.len() as int) =~= im);
                }
                Some(out)
            },
            Some(_) => {
                return None;
            },
            None => None,
        };
        let w = WorkspaceEdit { changes, document_changes };
        proof {
            match w.changes {
                Some(ref ch) => {
                    let chv = ch@;
                    assert(wsedit_view(w).0 matches Some(x) && x =~= Seq::new(
                        chv.len(),
                        |i: int|
                            (
                                chv[i].0@,
                                Seq::new(chv[i].1@.len(), |t: int| edit_view(chv[i].1@[t])),
                            ),
                    ));
                },
                None => {},
            }
        }
        Some(w)
    }
}

/// A later member of the changes map decides nothing when an earlier one
/// already failed.
proof fn lemma_decode_changes_prefix(fields: Seq<(Seq<char>, JsonV)>, k: int)
    requires
        0 <= k < fields.len(),
        spec_decode_changes(fields.take(k + 1)) is None,
    ensures
        spec_decode_changes(fields) is None,
    decreases fields.len(),
{
    if k + 1 < fields.len() {
        assert(fields.drop_last().take(k + 1) =~= fields.take(k + 1));
        lemma_decode_changes_prefix(fields.drop_last(), k);
    } else {
        assert(fields.take(k + 1) =~= fields);
    }
}

/// The comparable shape of a code action.
pub open spec fn ca_view(a: CodeAction) -> (
    Seq<char>,
    Option<Seq<char>>,
    Option<Seq<(Range, Option<u8>, Option<(int, Seq<char>, int)>, Option<Seq<char>>, Seq<char>)>>,
    Option<bool>,
    Option<Seq<char>>,
    Option<
        (
            Option<Seq<(Seq<char>, Seq<(Range, Seq<char>)>)>>,
            Option<
                Seq<
                    (
                        int,
                        Seq<char>,
                        Seq<char>,
                        Option<i32>,
                        Seq<(Range, Seq<char>, Option<Seq<char>>)>,
                        Option<(Option<bool>, Option<bool>)>,
                    ),
                >,
            >,
        ),
    >,
    Option<(Seq<char>, Seq<char>, Option<Seq<JsonV>>)>,
    Option<JsonV>,
) {
    (
        a.title@,
        match a.kind {
            Some(k) => Some(k@),
            None => None,
        },
        match a.diagnostics {
            Some(ds) => Some(diags_view(ds@)),
            None => None,
        },
        a.is_preferred,
        match a.disabled {
            Some(d) => Some(d.reason@),
            None => None,
        },
        match a.edit {
            Some(e) => Some(wsedit_view(e)),
            None => None,
        },
        match a.command {
            Some(c) => Some(cmd_view(c)),
            None => None,
        },
        match a.data {
            Some(d) => Some(d.model()),
            None => None,
        },
    )
}

/// Reads a code action: the title is required, everything else may be
/// absent.
pub open spec fn spec_decode_code_action(v: JsonV) -> Option<
    (
        Seq<char>,
        Option<Seq<char>>,
        Option<
            Seq<(Range, Option<u8>, Option<(int, Seq<char>, int)>, Option<Seq<char>>, Seq<char>)>,
        >,
        Option<bool>,
        Option<Seq<char>>,
        Option<
            (
                Option<Seq<(Seq<char>, Seq<(Range, Seq<char>)>)>>,
                Option<
                    Seq<
                        (
                            int,
                            Seq<char>,
                            Seq<char>,
                            Option<i32>,
                            Seq<(Range, Seq<char>, Option<Seq<char>>)>,
                            Option<(Option<bool>, Option<bool>)>,
                        ),
                    >,
                >,
            ),
        >,
        Option<(Seq<char>, Seq<char>, Option<Seq<JsonV>>)>,
        Option<JsonV>,
    ),
> {
    match v {
        JsonV::Obj(p) => match field_str(p, "title"@) {
            Some(title) => {
                let diags = match obj_lookup(p, "diagnostics"@) {
                    Some(JsonV::Arr(items)) => match decode_seq(
                        items,
                        |x: JsonV| spec_decode_diagnostic(x),
                    ) {
                        Some(ds) => Some(Some(ds)),
                        None => None,
                    },
                    Some(_) => None,
                    None => Some(None),
                };
                let disabled = match obj_lookup(p, "disabled"@) {
                    Some(JsonV::Obj(dp)) => match field_str(dp, "reason"@) {
                        Some(reason) => Some(Some(reason)),
                        None => None,
                    },
                    Some(_) => None,
                    None => Some(None),
                };
                let edit = match obj_lookup(p, "edit"@) {
                    Some(ev) => match spec_decode_wsedit(ev) {
                        Some(w) => Some(Some(w)),
                        None => None,
                    },
                    None => Some(None),
                };
                let command = match obj_lookup(p, "command"@) {
                    Some(cv) => match spec_decode_command(cv) {
                        Some(c) => Some(Some(c)),
                        None => None,
                    },
                    None => Some(None),
                };
                let pref = match obj_lookup(p, "isPreferred"@) {
                    Some(JsonV::Bool(b)) => Some(Some(b)),
                    Some(_) => None,
                    None => Some(None),
                };
                match (field_opt_str(p, "kind"@), diags, pref, disabled, edit, command) {
                    (
                        Some(kind),
                        Some(diags),
                        Some(pref),
                        Some(disabled),
                        Some(edit),
                        Some(command),
                    ) => Some(
                        (
                            title,
                            kind,
                            diags,
                            pref,
                            disabled,
                            edit,
                            command,
                            crate::lsp_transport::field_opt_json(p, "data"@),
                        ),
                    ),
                    _ => None,
                }
            },
            None => None,
        },
        _ => None,
    }
}

impl CodeAction {
    /// Reads a code action.
    #[verifier::loop_isolation(false)]
    pub fn from_json(j: &Json) -> (r: Option<CodeAction>)
        ensures
            match r {
                Some(a) => spec_decode_code_action(j.model()) == Some(ca_view(a)),
                None => spec_decode_code_action(j.model()) is None,
            },
    {
        let p = match j {
            Json::Obj(p) => p,
            _ => {
                return None;
            },
        };
        let title = match get_str(p, &String::from_str("title")) {
            Some(t) => t,
            None => {
                return None;
            },
        };
        let diagnostics: Option<Vec<Diagnostic>> = match obj_get(
            p,
            &String::from_str("diagnostics"),
        ) {
            Some(Json::Arr(items)) => {
                let ghost im = crate::json::model_items(items@);
                let ghost f = |x: JsonV| spec_decode_diagnostic(x);
                proof {
                    lemma_model_items_index(items@);
                }
                let mut ds: Vec<Diagnostic> = Vec::new();
                let mut k: usize = 0;
                while k < items.len()
                    invariant
                        k <= items@.len(),
                        decode_seq(im.take(k as int), f) == Some(diags_view(ds@)),
                    decreases items@.len() - k,
                {
                    let d = match Diagnostic::from_json(&items[k]) {
                        Some(d) => d,
                        None => {
                            proof {
                                lemma_decode_seq_none(im, f, k as int);
                            }
                            return None;
                        },
                    };
                    let ghost pre = ds@;
                    ds.push(d);
                    proof {
                        assert(im.take(k as int + 1).drop_last() =~= im.take(k as int));
                        assert(im.take(k as int + 1).last() == im[k as int]);
                        assert(diags_view(ds@) =~= diags_view(pre).push(
                            diag_view(ds@[pre.len() as int]),
                        ));
                    }
                    k = k + 1;
                }
                proof {
                    assert(im.take(items@.len() as int) =~= im);
                }
                Some(ds)
            },
            Some(_) => {
                return None;
            },
            None => None,
        };
        let disabled: Option<CodeActionDisabled> = match obj_get(
            p,
            &String::from_str("disabled"),
        ) {
            Some(Json::Obj(dp)) => match get_str(dp, &String::from_str("reason")) {
                Some(reason) => Some(CodeActionDisabled { reason }),
                None => {
                    return None;
                },
            },
            Some(_) => {
                return None;
            },
            None => None,
        };
        let edit: Option<WorkspaceEdit> = match obj_get(p, &String::from_str("edit")) {
            Some(ev) => match WorkspaceEdit::from_json(ev) {
                Some(w) => Some(w),
                None => {
                    return None;
                },
            },
            None => None,
        };
        let command: Option<Command> = match obj_get(p, &String::from_str("command")) {
            Some(cv) => match Command::from_json(cv) {
                Some(c) => Some(c),
                None => {
                    return None;
                },
            },
            None => None,
        };
        let is_preferred: Option<bool> = match obj_get(p, &String::from_str("isPreferred")) {
            Some(Json::Bool(b)) => Some(*b),
            Some(_) => {
                return None;
            },
            None => None,
        };
        let kind = match get_opt_str(p, &String::from_str("kind")) {
            Some(k) => k,
            None => {
                return None;
            },
        };
        let data = crate::lsp_transport::get_opt_json(p, &String::from_str("data"));
        Some(
            CodeAction {
                title,
                kind,
                diagnostics,
                is_preferred,
                disabled,
                edit,
                command,
                data,
            },
        )
    }
}

/// Reads one entry of a code action reply: an action, else a bare command,
/// tried in that order.
pub open spec fn spec_decode_action_or_command(v: JsonV) -> Option<
    (int, Option<(Seq<char>, Seq<char>, Option<Seq<JsonV>>)>),
> {
    match spec_decode_code_action(v) {
        Some(_) => Some((0int, None)),
        None => match spec_decode_command(v) {
            Some(c) => Some((1int, Some(c))),
            None => None,
        },
    }
}

impl CodeActionOrCommand {
    /// Reads one entry of a code action reply.
    pub fn from_json(j: &Json) -> (r: Option<CodeActionOrCommand>)
        ensures
            match r {
                Some(CodeActionOrCommand::Action(a)) => spec_decode_code_action(j.model()) == Some(
                    ca_view(a),
                ),
                Some(CodeActionOrCommand::Bare(c)) => spec_decode_code_action(j.model()) is None
                    && spec_decode_command(j.model()) == Some(cmd_view(c)),
                None => spec_decode_code_action(j.model()) is None && spec_decode_command(
                    j.model(),
                ) is None,
            },
    {
        match CodeAction::from_json(j) {
            Some(a) => Some(CodeActionOrCommand::Action(a)),
            None => match Command::from_json(j) {
                Some(c) => Some(CodeActionOrCommand::Bare(c)),
                None => None,
            },
        }
    }
}

impl CodeActionResponse {
    /// Reads a code action reply: an array whose entries are actions or
    /// bare commands. Every entry must read.
    #[verifier::loop_isolation(false)]
    pub fn from_json(j: &Json) -> (r: Option<CodeActionResponse>)
        ensures
            match r {
                Some(CodeActionResponse::Actions(items)) => {
                    &&& j.model() is Arr
                    &&& decode_seq(
                        j.model()->Arr_0,
                        |x: JsonV| spec_decode_action_or_command(x),
                    ) is Some
                    &&& items@.len() == j.model()->Arr_0.len()
                    &&& forall|k: int|
                        0 <= k < items@.len() ==> match #[trigger] items@[k] {
                            CodeActionOrCommand::Action(a) => spec_decode_code_action(
                                j.model()->Arr_0[k],
                            ) == Some(ca_view(a)),
                            CodeActionOrCommand::Bare(c) => spec_decode_code_action(
                                j.model()->Arr_0[k],
                            ) is None && spec_decode_command(j.model()->Arr_0[k]) == Some(
                                cmd_view(c),
                            ),
                        }
                },
                None => !(j.model() is Arr && decode_seq(
                    j.model()->Arr_0,
                    |x: JsonV| spec_decode_action_or_command(x),
                ) is Some),
            },
    {
        let items = match j {
            Json::Arr(items) => items,
            _ => {
                return None;
            },
        };
        let ghost im = crate::json::model_items(items@);
        let ghost f = |x: JsonV| spec_decode_action_or_command(x);
        proof {
            lemma_model_items_index(items@);
        }
        let mut out: Vec<CodeActionOrCommand> = Vec::new();
        let mut k: usize = 0;
        while k < items.len()
            invariant
                k <= items@.len(),
                out@.len() == k,
                decode_seq(im.take(k as int), f) is Some,
                forall|t: int|
                    0 <= t < k ==> match #[trigger] out@[t] {
                        CodeActionOrCommand::Action(a) => spec_decode_code_action(im[t]) == Some(
                            ca_view(a),
                        ),
                        CodeActionOrCommand::Bare(c) => spec_decode_code_action(im[t]) is None
                            && spec_decode_command(im[t]) == Some(cmd_view(c)),
                    },
            decreases items@.len() - k,
        {
            let x = match CodeActionOrCommand::from_json(&items[k]) {
                Some(x) => x,
                None => {
                    proof {
                        lemma_decode_seq_none(im, f, k as int);
                    }
                    return None;
                },
            };
            out.push(x);
            proof {
                assert(im.take(k as int + 1).drop_last() =~= im.take(k as int));
                assert(im.take(k as int + 1).last() == im[k as int]);
            }
            k = k + 1;
        }
        proof {
            assert(im.take(items@.len() as int) =~= im);
        }
        Some(CodeActionResponse::Actions(out))
    }
}

/// The comparable shape of the sync capability.
pub open spec fn sync_view(c: TextDocumentSyncCapability) -> (
    int,
    u8,
    (Option<bool>, Option<u8>, Option<Option<bool>>),
) {
    match c {
        TextDocumentSyncCapability::Kind(k) => (0, k.0, (None, None, None)),
        TextDocumentSyncCapability::Options(o) => (
            1,
            0,
            (
                o.open_close,
                match o.change {
                    Some(k) => Some(k.0),
                    None => None,
                },
                match o.save {
                    Some(sv) => Some(sv.include_text),
                    None => None,
                },
            ),
        ),
    }
}

/// Reads the sync capability: a bare number, or an options object.
pub open spec fn spec_decode_sync(v: JsonV) -> Option<
    (int, u8, (Option<bool>, Option<u8>, Option<Option<bool>>)),
> {
    match v {
        JsonV::Int(n) => if 0 <= n <= u8::MAX {
            Some((0int, n as u8, (None, None, None)))
        } else {
            None
        },
        JsonV::Obj(p) => {
            let oc = match obj_lookup(p, "openClose"@) {
                Some(JsonV::Bool(b)) => Some(Some(b)),
                Some(_) => None,
                None => Some(None),
            };
            let ch = match obj_lookup(p, "change"@) {
                Some(JsonV::Int(n)) => if 0 <= n <= u8::MAX {
                    Some(Some(n as u8))
                } else {
                    None
                },
                Some(_) => None,
                None => Some(None),
            };
            let sv = match obj_lookup(p, "save"@) {
                Some(JsonV::Obj(sp)) => {
                    match obj_lookup(sp, "includeText"@) {
                        Some(JsonV::Bool(b)) => Some(Some(Some(b))),
                        Some(_) => None,
                        None => Some(Some(None)),
                    }
                },
                Some(JsonV::Bool(_)) => Some(None),
                Some(_) => None,
                None => Some(None),
            };
            match (oc, ch, sv) {
                (Some(oc), Some(ch), Some(sv)) => Some((1int, 0u8, (oc, ch, sv))),
                _ => None,
            }
        },
        _ => None,
    }
}

/// The comparable shape of the server capabilities.
pub open spec fn caps_view(c: ServerCapabilities) -> (
    Option<(int, u8, (Option<bool>, Option<u8>, Option<Option<bool>>))>,
    Option<(Option<Seq<Seq<char>>>, Option<bool>)>,
    Option<bool>,
    Option<bool>,
    Option<bool>,
) {
    (
        match c.text_document_sync {
            Some(sc) => Some(sync_view(sc)),
            None => None,
        },
        match c.completion_provider {
            Some(co) => Some(
                (
                    match co.trigger_characters {
                        Some(ts) => Some(Seq::new(ts@.len(), |i: int| ts@[i]@)),
                        None => None,
                    },
                    co.resolve_provider,
                ),
            ),
            None => None,
        },
        c.hover_provider,
        c.definition_provider,
        c.references_provider,
    )
}

/// Reads a string array.
pub open spec fn spec_decode_strings(items: Seq<JsonV>) -> Option<Seq<Seq<char>>> {
    decode_seq(
        items,
        |x: JsonV|
            match x {
                JsonV::Str(st) => Some(st),
                _ => None,
            },
    )
}

/// Reads the server capabilities the broker keeps: sync, completion, hover,
/// definition and references support. Everything else is passed over.
pub open spec fn spec_decode_capabilities(v: JsonV) -> Option<
    (
        Option<(int, u8, (Option<bool>, Option<u8>, Option<Option<bool>>))>,
        Option<(Option<Seq<Seq<char>>>, Option<bool>)>,
        Option<bool>,
        Option<bool>,
        Option<bool>,
    ),
> {
    match v {
        JsonV::Obj(p) => {
            let sync = match obj_lookup(p, "textDocumentSync"@) {
                Some(sv) => match spec_decode_sync(sv) {
                    Some(sc) => Some(Some(sc)),
                    None => None,
                },
                None => Some(None),
            };
            let comp = match obj_lookup(p, "completionProvider"@) {
                Some(JsonV::Obj(cp)) => {
                    let ts = match obj_lookup(cp, "triggerCharacters"@) {
                        Some(JsonV::Arr(items)) => match spec_decode_strings(items) {
                            Some(ss) => Some(Some(ss)),
                            None => None,
                        },
                        Some(_) => None,
                        None => Some(None),
                    };
                    let rp = match obj_lookup(cp, "resolveProvider"@) {
                        Some(JsonV::Bool(b)) => Some(Some(b)),
                        Some(_) => None,
                        None => Some(None),
                    };
                    match (ts, rp) {
                        (Some(ts), Some(rp)) => Some(Some((ts, rp))),
                        _ => None,
                    }
                },
                Some(_) => None,
                None => Some(None),
            };
            let hover = match obj_lookup(p, "hoverProvider"@) {
                Some(JsonV::Bool(b)) => Some(Some(b)),
                Some(_) => None,
                None => Some(None),
            };
            let defp = match obj_lookup(p, "definitionProvider"@) {
                Some(JsonV::Bool(b)) => Some(Some(b)),
                Some(_) => None,
                None => Some(None),
            };
            let refp = match obj_lookup(p, "referencesProvider"@) {
                Some(JsonV::Bool(b)) => Some(Some(b)),
                Some(_) => None,
                None => Some(None),
            };
            match (sync, comp, hover, defp, refp) {
                (Some(sync), Some(comp), Some(hover), Some(defp), Some(refp)) => Some(
                    (sync, comp, hover, defp, refp),
                ),
                _ => None,
            }
        },
        _ => None,
    }
}

impl ServerCapabilities {
    /// Reads the server capabilities.
    #[verifier::loop_isolation(false)]
    pub fn from_json(j: &Json) -> (r: Option<ServerCapabilities>)
        ensures
            match r {
                Some(c) => spec_decode_capabilities(j.model()) == Some(caps_view(c)),
                None => spec_decode_capabilities(j.model()) is None,
            },
    {
        let p = match j {
            Json::Obj(p) => p,
            _ => {
                return None;
            },
        };
        let text_document_sync: Option<TextDocumentSyncCapability> = match obj_get(
            p,
            &String::from_str("textDocumentSync"),
        ) {
            Some(Json::Int(n)) => {
                if 0 <= *n && *n <= 0xffi64 {
                    Some(TextDocumentSyncCapability::Kind(TextDocumentSyncKind(*n as u8)))
                } else {
                    return None;
                }
            },
            Some(Json::Obj(sp)) => {
                let open_close: Option<bool> = match obj_get(sp, &String::from_str("openClose")) {
                    Some(Json::Bool(b)) => Some(*b),
                    Some(_) => {
                        return None;
                    },
                    None => None,
                };
                let change: Option<TextDocumentSyncKind> = match obj_get(
                    sp,
                    &String::from_str("change"),
                ) {
                    Some(Json::Int(n)) => {
                        if 0 <= *n && *n <= 0xffi64 {
                            Some(TextDocumentSyncKind(*n as u8))
                        } else {
                            return None;
                        }
                    },
                    Some(_) => {
                        return None;
                    },
                    None => None,
                };
                let save: Option<SaveOptions> = match obj_get(sp, &String::from_str("save")) {
                    Some(Json::Obj(svp)) => {
                        let include_text: Option<bool> = match obj_get(
                            svp,
                            &String::from_str("includeText"),
                        ) {
                            Some(Json::Bool(b)) => Some(*b),
                            Some(_) => {
                                return None;
                            },
                            None => None,
                        };
                        Some(SaveOptions { include_text })
                    },
                    Some(Json::Bool(_)) => None,
                    Some(_) => {
                        return None;
                    },
                    None => None,
                };
                Some(
                    TextDocumentSyncCapability::Options(
                        TextDocumentSyncOptions { open_close, change, save },
                    ),
                )
            },
            Some(_) => {
                return None;
            },
            None => None,
        };
        let completion_provider: Option<CompletionOptions> = match obj_get(
            p,
            &String::from_str("completionProvider"),
        ) {
            Some(Json::Obj(cp)) => {
                let trigger_characters: Option<Vec<String>> = match obj_get(
                    cp,
                    &String::from_str("triggerCharacters"),
                ) {
                    Some(Json::Arr(items)) => {
                        let ghost im = crate::json::model_items(items@);
                        let ghost f = |x: JsonV|
                            match x {
                                JsonV::Str(st) => Some(st),
                                _ => None,
                            };
                        proof {
                            lemma_model_items_index(items@);
                        }
                        let mut ss: Vec<String> = Vec::new();
                        let mut k: usize = 0;
                        while k < items.len()
                            invariant
                                k <= items@.len(),
                                decode_seq(im.take(k as int), f) == Some(
                                    Seq::new(ss@.len() as nat, |i: int| ss@[i]@),
                                ),
                            decreases items@.len() - k,
                        {
                            let st = match &items[k] {
                                Json::Str(st) => st.clone(),
                                _ => {
                                    proof {
                                        lemma_decode_seq_none(im, f, k as int);
                                    }
                                    return None;
                                },
                            };
                            let ghost pre = ss@;
                            ss.push(st);
                            proof {
                                assert(im.take(k as int + 1).drop_last() =~= im.take(k as int));
                                assert(im.take(k as int + 1).last() == im[k as int]);
                                assert(Seq::new(ss@.len() as nat, |i: int| ss@[i]@) =~= Seq::new(
                                    pre.len() as nat,
                                    |i: int| pre[i]@,
                                ).push(ss@[pre.len() as int]@));
                            }
                            k = k + 1;
                        }
                        proof {
                            assert(im.take(items@.len() as int) =~= im);
                        }
                        Some(ss)
                    },
                    Some(_) => {
                        return None;
                    },
                    None => None,
                };
                let resolve_provider: Option<bool> = match obj_get(
                    cp,
                    &String::from_str("resolveProvider"),
                ) {
                    Some(Json::Bool(b)) => Some(*b),
                    Some(_) => {
                        return None;
                    },
                    None => None,
                };
                Some(CompletionOptions { trigger_characters, resolve_provider })
            },
            Some(_) => {
                return None;
            },
            None => None,
        };
        let hover_provider: Option<bool> = match obj_get(p, &String::from_str("hoverProvider")) {
            Some(Json::Bool(b)) => Some(*b),
            Some(_) => {
                return None;
            },
            None => None,
        };
        let definition_provider: Option<bool> = match obj_get(
            p,
            &String::from_str("definitionProvider"),
        ) {
            Some(Json::Bool(b)) => Some(*b),
            Some(_) => {
                return None;
            },
            None => None,
        };
        let references_provider: Option<bool> = match obj_get(
            p,
            &String::from_str("referencesProvider"),
        ) {
            Some(Json::Bool(b)) => Some(*b),
            Some(_) => {
                return None;
            },
            None => None,
        };
        let c = ServerCapabilities {
            text_document_sync,
            completion_provider,
            hover_provider,
            definition_provider,
            references_provider,
        };
        proof {
            match c.completion_provider {
                Some(ref co) => match co.trigger_characters {
                    Some(ref ts) => {
                        let tsv = ts@;
                        assert(caps_view(c).1 matches Some(x) && x.0 matches Some(y) && y
                            =~= Seq::new(tsv.len(), |i: int| tsv[i]@));
                    },
                    None => {},
                },
                None => {},
            }
        }
        Some(c)
    }
}

/// Reads an initialize reply: the capabilities, and the server's name when
/// it gives one.
pub open spec fn spec_decode_initialize(v: JsonV) -> Option<
    (
        (
            Option<(int, u8, (Option<bool>, Option<u8>, Option<Option<bool>>))>,
            Option<(Option<Seq<Seq<char>>>, Option<bool>)>,
            Option<bool>,
            Option<bool>,
            Option<bool>,
        ),
        Option<(Seq<char>, Option<Seq<char>>)>,
    ),
> {
    match v {
        JsonV::Obj(p) => match obj_lookup(p, "capabilities"@) {
            Some(cv) => match spec_decode_capabilities(cv) {
                Some(caps) => {
                    let si = match obj_lookup(p, "serverInfo"@) {
                        Some(JsonV::Obj(sp)) => match field_str(sp, "name"@) {
                            Some(nm) => match field_opt_str(sp, "version"@) {
                                Some(ver) => Some(Some((nm, ver))),
                                None => None,
                            },
                            None => None,
                        },
                        Some(_) => None,
                        None => Some(None),
                    };
                    match si {
                        Some(si) => Some((caps, si)),
                        None => None,
                    }
                },
                None => None,
            },
            None => None,
        },
        _ => None,
    }
}

impl InitializeResult {
    /// Reads an initialize reply.
    pub fn from_json(j: &Json) -> (r: Option<InitializeResult>)
        ensures
            match r {
                Some(ir) => spec_decode_initialize(j.model()) == Some(
                    (
                        caps_view(ir.capabilities),
                        match ir.server_info {
                            Some(si) => Some(
                                (
                                    si.name@,
                                    match si.version {
                                        Some(vv) => Some(vv@),
                                        None => None,
                                    },
                                ),
                            ),
                            None => None,
                        },
                    ),
                ),
                None => spec_decode_initialize(j.model()) is None,
            },
    {
        let p = match j {
            Json::Obj(p) => p,
            _ => {
                return None;
            },
        };
        let cv = match obj_get(p, &String::from_str("capabilities")) {
            Some(cv) => cv,
            None => {
                return None;
            },
        };
        let capabilities = match ServerCapabilities::from_json(cv) {
            Some(c) => c,
            None => {
                return None;
            },
        };
        let server_info: Option<ServerInfo> = match obj_get(p, &String::from_str("serverInfo")) {
            Some(Json::Obj(sp)) => {
                let name = match get_str(sp, &String::from_str("name")) {
                    Some(nm) => nm,
                    None => {
                        return None;
                    },
                };
                let version = match get_opt_str(sp, &String::from_str("version")) {
                    Some(vv) => vv,
                    None => {
                        return None;
                    },
                };
                Some(ServerInfo { name, version })
            },
            Some(_) => {
                return None;
            },
            None => None,
        };
        Some(InitializeResult { capabilities, server_info })
    }
}

/// The formats the client can show: markdown preferred, plain text too.
pub open spec fn spec_format_list() -> JsonV {
    JsonV::Arr(seq![JsonV::Str("markdown"@), JsonV::Str("plaintext"@)])
}

/// The code action kinds the client understands.
pub open spec fn spec_kind_list() -> JsonV {
    JsonV::Arr(
        seq![
            JsonV::Str("quickfix"@),
            JsonV::Str("refactor"@),
            JsonV::Str("refactor.extract"@),
            JsonV::Str("refactor.inline"@),
            JsonV::Str("refactor.rewrite"@),
            JsonV::Str("source"@),
            JsonV::Str("source.organizeImports"@),
        ],
    )
}

/// The capabilities the broker advertises: markdown hover, snippet
/// completion, definition links, references, published diagnostics, and
/// code action literals with lazily resolved edits.
pub open spec fn spec_client_capabilities_json() -> JsonV {
    JsonV::Obj(
        seq![
            (
                "textDocument"@,
                JsonV::Obj(
                    seq![
                        (
                            "synchronization"@,
                            JsonV::Obj(seq![("didSave"@, JsonV::Bool(true))]),
                        ),
                        (
                            "completion"@,
                            JsonV::Obj(
                                seq![
                                    (
                                        "completionItem"@,
                                        JsonV::Obj(
                                            seq![
                                                ("snippetSupport"@, JsonV::Bool(true)),
                                                ("documentationFormat"@, spec_format_list()),
                                            ],
                                        ),
                                    ),
                                ],
                            ),
                        ),
                        (
                            "hover"@,
                            JsonV::Obj(seq![("contentFormat"@, spec_format_list())]),
                        ),
                        (
                            "definition"@,
                            JsonV::Obj(seq![("linkSupport"@, JsonV::Bool(true))]),
                        ),
                        ("references"@, JsonV::Obj(Seq::empty())),
                        ("publishDiagnostics"@, JsonV::Obj(Seq::empty())),
                        (
                            "codeAction"@,
                            JsonV::Obj(
                                seq![
                                    ("dynamicRegistration"@, JsonV::Bool(false)),
                                    (
                                        "codeActionLiteralSupport"@,
                                        JsonV::Obj(
                                            seq![
                                                (
                                                    "codeActionKind"@,
                                                    JsonV::Obj(
                                                        seq![("valueSet"@, spec_kind_list())],
                                                    ),
                                                ),
                                            ],
                                        ),
                                    ),
                                    ("isPreferredSupport"@, JsonV::Bool(true)),
                                    ("disabledSupport"@, JsonV::Bool(true)),
                                    ("dataSupport"@, JsonV::Bool(true)),
                                    (
                                        "resolveSupport"@,
                                        JsonV::Obj(
                                            seq![
                                                (
                                                    "properties"@,
                                                    JsonV::Arr(seq![JsonV::Str("edit"@)]),
                                                ),
                                            ],
                                        ),
                                    ),
                                ],
                            ),
                        ),
                    ],
                ),
            ),
        ],
    )
}

/// The whole initialize request's parameters.
pub open spec fn spec_initialize_params_json(
    process_id: Option<u32>,
    root_uri: Seq<char>,
) -> JsonV {
    JsonV::Obj(
        seq![
            (
                "processId"@,
                match process_id {
                    Some(n) => JsonV::Int(n as int),
                    None => JsonV::Null,
                },
            ),
            ("clientInfo"@, JsonV::Obj(seq![("name"@, JsonV::Str("raven"@))])),
            ("rootUri"@, JsonV::Str(root_uri)),
            ("capabilities"@, spec_client_capabilities_json()),
        ],
    )
}

/// The markdown-then-plaintext format list.
fn format_list() -> (j: Json)
    ensures
        j.model() == spec_format_list(),
{
    let items: Vec<Json> = vec![
        Json::Str(String::from_str("markdown")),
        Json::Str(String::from_str("plaintext")),
    ];
    proof {
        lemma_model_items_index(items@);
        assert(crate::json::model_items(items@) =~= spec_format_list()->Arr_0);
    }
    Json::Arr(items)
}

/// One object with one member.
fn obj1(k: &str, v: Json) -> (j: Json)
    ensures
        j.model() == JsonV::Obj(seq![(k@, v.model())]),
{
    let ghost vm = v.model();
    let fields: Vec<(String, Json)> = vec![(String::from_str(k), v)];
    proof {
        lemma_model_fields_index(fields@);
        assert(model_fields(fields@) =~= seq![(k@, vm)]);
    }
    Json::Obj(fields)
}

/// Builds the initialize request's parameters.
pub fn initialize_params_json(process_id: Option<u32>, root_uri: &String) -> (j: Json)
    ensures
        j.model() == spec_initialize_params_json(process_id, root_uri@),
{
    let sync = obj1("didSave", Json::Bool(true));
    let ci: Vec<(String, Json)> = vec![
        (String::from_str("snippetSupport"), Json::Bool(true)),
        (String::from_str("documentationFormat"), format_list()),
    ];
    proof {
        lemma_model_fields_index(ci@);
        assert(model_fields(ci@) =~= seq![
            ("snippetSupport"@, JsonV::Bool(true)),
            ("documentationFormat"@, spec_format_list()),
        ]);
    }
    let completion = obj1("completionItem", Json::Obj(ci));
    let hover = obj1("contentFormat", format_list());
    let definition = obj1("linkSupport", Json::Bool(true));
    let kinds: Vec<Json> = vec![
        Json::Str(String::from_str("quickfix")),
        Json::Str(String::from_str("refactor")),
        Json::Str(String::from_str("refactor.extract")),
        Json::Str(String::from_str("refactor.inline")),
        Json::Str(String::from_str("refactor.rewrite")),
        Json::Str(String::from_str("source")),
        Json::Str(String::from_str("source.organizeImports")),
    ];
    proof {
        lemma_model_items_index(kinds@);
        assert(crate::json::model_items(kinds@) =~= spec_kind_list()->Arr_0);
    }
    let literal_support = obj1("codeActionKind", obj1("valueSet", Json::Arr(kinds)));
    let props: Vec<Json> = vec![Json::Str(String::from_str("edit"))];
    proof {
        lemma_model_items_index(props@);
        assert(crate::json::model_items(props@) =~= seq![JsonV::Str("edit"@)]);
    }
    let resolve = obj1("properties", Json::Arr(props));
    let ca: Vec<(String, Json)> = vec![
        (String::from_str("dynamicRegistration"), Json::Bool(false)),
        (String::from_str("codeActionLiteralSupport"), literal_support),
        (String::from_str("isPreferredSupport"), Json::Bool(true)),
        (String::from_str("disabledSupport"), Json::Bool(true)),
        (String::from_str("dataSupport"), Json::Bool(true)),
        (String::from_str("resolveSupport"), resolve),
    ];
    proof {
        lemma_model_fields_index(ca@);
        assert(model_fields(ca@) =~= spec_client_capabilities_json()->Obj_0[0].1->Obj_0[6].1
            ->Obj_0);
    }
    let empty1: Vec<(String, Json)> = Vec::new();
    let empty2: Vec<(String, Json)> = Vec::new();
    proof {
        assert(model_fields(empty1@) =~= Seq::<(Seq<char>, JsonV)>::empty());
        assert(model_fields(empty2@) =~= Seq::<(Seq<char>, JsonV)>::empty());
    }
    let td: Vec<(String, Json)> = vec![
        (String::from_str("synchronization"), sync),
        (String::from_str("completion"), completion),
        (String::from_str("hover"), hover),
        (String::from_str("definition"), definition),
        (String::from_str("references"), Json::Obj(empty1)),
        (String::from_str("publishDiagnostics"), Json::Obj(empty2)),
        (String::from_str("codeAction"), Json::Obj(ca)),
    ];
    proof {
        lemma_model_fields_index(td@);
        assert(model_fields(td@) =~= spec_client_capabilities_json()->Obj_0[0].1->Obj_0);
    }
    let caps = obj1("textDocument", Json::Obj(td));
    proof {
        assert(caps.model() == spec_client_capabilities_json()) by {
            assert(caps.model()->Obj_0 =~= spec_client_capabilities_json()->Obj_0);
        }
    }
    let pid: Json = match process_id {
        Some(n) => Json::Int(n as i64),
        None => Json::Null,
    };
    let fields: Vec<(String, Json)> = vec![
        (String::from_str("processId"), pid),
        (String::from_str("clientInfo"), obj1("name", Json::Str(String::from_str("raven")))),
        (String::from_str("rootUri"), Json::Str(root_uri.clone())),
        (String::from_str("capabilities"), caps),
    ];
    proof {
        lemma_model_fields_index(fields@);
        assert(model_fields(fields@) =~= spec_initialize_params_json(process_id, root_uri@)
            ->Obj_0);
    }
    Json::Obj(fields)
}

} // verus!
