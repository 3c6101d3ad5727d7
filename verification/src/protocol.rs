//! The control-plane wire protocol: the client and server message families,
//! their mathematical views, and their rendering as line-delimited JSON.
//!
//! Every outgoing message is one JSON object followed by a newline byte; its
//! exact bytes are given by the `*_bytes` spec functions. Incoming bytes are
//! parsed as an unbroken stream of JSON values (no newline is required
//! between values).

use vstd::prelude::*;

verus! {

use crate::json::{
    Json,
    JsonV,
    json_view,
    json_seq_view,
    json_fields_view,
    json_bytes,
    json_to_bytes,
    lemma_json_seq_view_len,
    lemma_json_fields_view_len,
    Parsed,
    Step,
    sp_doc,
    step_matches,
    step_in_range,
    parse_json_doc,
};
use vstd::utf8::{encode_utf8, encode_utf8_decode_utf8};

/// One diagnostic of the configuration validator.
#[derive(Debug, Clone, PartialEq)]
pub struct ValidationError {
    pub line: usize,
    pub message: String,
    pub severity: String,
    pub column: Option<usize>,
    pub file: Option<String>,
    pub category: Option<String>,
    pub help_text: Option<String>,
}

/// The view of a diagnostic: strings as character sequences.
pub struct ValidationErrorV {
    pub line: usize,
    pub message: Seq<char>,
    pub severity: Seq<char>,
    pub column: Option<usize>,
    pub file: Option<Seq<char>>,
    pub category: Option<Seq<char>>,
    pub help_text: Option<Seq<char>>,
}

pub open spec fn opt_str_view(o: Option<String>) -> Option<Seq<char>> {
    match o {
        Option::Some(s) => Option::Some(s@),
        Option::None => Option::None,
    }
}

impl View for ValidationError {
    type V = ValidationErrorV;

    open spec fn view(&self) -> ValidationErrorV {
        ValidationErrorV {
            line: self.line,
            message: self.message@,
            severity: self.severity@,
            column: self.column,
            file: opt_str_view(self.file),
            category: opt_str_view(self.category),
            help_text: opt_str_view(self.help_text),
        }
    }
}

/// The action a client may request on a virtual key.
#[derive(Debug, Clone, Copy, PartialEq, Eq, Hash, Structural)]
pub enum FakeKeyActionMessage {
    Press,
    Release,
    Tap,
    Toggle,
}

/// What a client sends to the server.
#[derive(Debug, Clone, PartialEq)]
pub enum ClientMessage {
    ChangeLayer { new: String },
    RequestLayerNames {},
    RequestCurrentLayerInfo {},
    RequestCurrentLayerName {},
    ActOnFakeKey { name: String, action: FakeKeyActionMessage },
    SetMouse { x: u16, y: u16 },
    Reload {},
    ReloadNext {},
    ReloadPrev {},
    ReloadNum { index: usize },
    ReloadFile { path: String },
    ValidateConfig { config_content: String, request_id: Option<String> },
    SetSessionMode { quiet: bool },
}

/// The view of a client message.
pub enum ClientMessageV {
    ChangeLayer { new: Seq<char> },
    RequestLayerNames,
    RequestCurrentLayerInfo,
    RequestCurrentLayerName,
    ActOnFakeKey { name: Seq<char>, action: FakeKeyActionMessage },
    SetMouse { x: u16, y: u16 },
    Reload,
    ReloadNext,
    ReloadPrev,
    ReloadNum { index: usize },
    ReloadFile { path: Seq<char> },
    ValidateConfig { config_content: Seq<char>, request_id: Option<Seq<char>> },
    SetSessionMode { quiet: bool },
}

impl View for ClientMessage {
    type V = ClientMessageV;

    open spec fn view(&self) -> ClientMessageV {
        match self {
            ClientMessage::ChangeLayer { new } => ClientMessageV::ChangeLayer { new: new@ },
            ClientMessage::RequestLayerNames {} => ClientMessageV::RequestLayerNames,
            ClientMessage::RequestCurrentLayerInfo {} => ClientMessageV::RequestCurrentLayerInfo,
            ClientMessage::RequestCurrentLayerName {} => ClientMessageV::RequestCurrentLayerName,
            ClientMessage::ActOnFakeKey { name, action } => ClientMessageV::ActOnFakeKey {
                name: name@,
                action: *action,
            },
            ClientMessage::SetMouse { x, y } => ClientMessageV::SetMouse { x: *x, y: *y },
            ClientMessage::Reload {} => ClientMessageV::Reload,
            ClientMessage::ReloadNext {} => ClientMessageV::ReloadNext,
            ClientMessage::ReloadPrev {} => ClientMessageV::ReloadPrev,
            ClientMessage::ReloadNum { index } => ClientMessageV::ReloadNum { index: *index },
            ClientMessage::ReloadFile { path } => ClientMessageV::ReloadFile { path: path@ },
            ClientMessage::ValidateConfig { config_content, request_id } => {
                ClientMessageV::ValidateConfig {
                    config_content: config_content@,
                    request_id: opt_str_view(*request_id),
                }
            },
            ClientMessage::SetSessionMode { quiet } => ClientMessageV::SetSessionMode {
                quiet: *quiet,
            },
        }
    }
}

/// What the server sends to a client.
#[derive(Debug, PartialEq)]
pub enum ServerMessage {
    LayerChange { new: String },
    LayerNames { names: Vec<String> },
    CurrentLayerInfo { name: String, cfg_text: String },
    ConfigFileReload { new: String },
    CurrentLayerName { name: String },
    MessagePush { message: Json },
    Error { msg: String },
    ValidationResult {
        success: bool,
        errors: Vec<ValidationError>,
        warnings: Vec<ValidationError>,
        error_count: usize,
        warning_count: usize,
        request_id: Option<String>,
    },
}

/// The view of a server message.
pub enum ServerMessageV {
    LayerChange { new: Seq<char> },
    LayerNames { names: Seq<Seq<char>> },
    CurrentLayerInfo { name: Seq<char>, cfg_text: Seq<char> },
    ConfigFileReload { new: Seq<char> },
    CurrentLayerName { name: Seq<char> },
    MessagePush { message: JsonV },
    Error { msg: Seq<char> },
    ValidationResult {
        success: bool,
        errors: Seq<ValidationErrorV>,
        warnings: Seq<ValidationErrorV>,
        error_count: usize,
        warning_count: usize,
        request_id: Option<Seq<char>>,
    },
}

pub open spec fn strings_view(v: Seq<String>) -> Seq<Seq<char>>
    decreases v.len(),
{
    if v.len() == 0 {
        Seq::empty()
    } else {
        strings_view(v.drop_last()).push(v.last()@)
    }
}

pub proof fn lemma_strings_view(v: Seq<String>)
    ensures
        strings_view(v).len() == v.len(),
        forall|i: int| 0 <= i < v.len() ==> strings_view(v)[i] == v[i]@,
    decreases v.len(),
{
    if v.len() > 0 {
        lemma_strings_view(v.drop_last());
    }
}

pub open spec fn verrs_view(v: Seq<ValidationError>) -> Seq<ValidationErrorV>
    decreases v.len(),
{
    if v.len() == 0 {
        Seq::empty()
    } else {
        verrs_view(v.drop_last()).push(v.last()@)
    }
}

pub proof fn lemma_verrs_view(v: Seq<ValidationError>)
    ensures
        verrs_view(v).len() == v.len(),
        forall|i: int| 0 <= i < v.len() ==> verrs_view(v)[i] == v[i]@,
    decreases v.len(),
{
    if v.len() > 0 {
        lemma_verrs_view(v.drop_last());
    }
}

impl View for ServerMessage {
    type V = ServerMessageV;

    open spec fn view(&self) -> ServerMessageV {
        match self {
            ServerMessage::LayerChange { new } => ServerMessageV::LayerChange { new: new@ },
            ServerMessage::LayerNames { names } => ServerMessageV::LayerNames {
                names: strings_view(names@),
            },
            ServerMessage::CurrentLayerInfo { name, cfg_text } => {
                ServerMessageV::CurrentLayerInfo { name: name@, cfg_text: cfg_text@ }
            },
            ServerMessage::ConfigFileReload { new } => ServerMessageV::ConfigFileReload {
                new: new@,
            },
            ServerMessage::CurrentLayerName { name } => ServerMessageV::CurrentLayerName {
                name: name@,
            },
            ServerMessage::MessagePush { message } => ServerMessageV::MessagePush {
                message: json_view(*message),
            },
            ServerMessage::Error { msg } => ServerMessageV::Error { msg: msg@ },
            ServerMessage::ValidationResult {
                success,
                errors,
                warnings,
                error_count,
                warning_count,
                request_id,
            } => ServerMessageV::ValidationResult {
                success: *success,
                errors: verrs_view(errors@),
                warnings: verrs_view(warnings@),
                error_count: *error_count,
                warning_count: *warning_count,
                request_id: opt_str_view(*request_id),
            },
        }
    }
}

/// The unified reply to the five reload commands.
#[derive(Debug, PartialEq)]
pub enum ServerResponse {
    Okay,
    Error { msg: String },
}

/// The view of a `ServerResponse`.
pub enum ServerResponseV {
    Okay,
    Error { msg: Seq<char> },
}

impl View for ServerResponse {
    type V = ServerResponseV;

    open spec fn view(&self) -> ServerResponseV {
        match self {
            ServerResponse::Okay => ServerResponseV::Okay,
            ServerResponse::Error { msg } => ServerResponseV::Error { msg: msg@ },
        }
    }
}

// ---------------------------------------------------------------------------
// Rendering: each message family maps to a JSON document; the bytes on the
// wire are that document's rendering followed by one newline byte.
// ---------------------------------------------------------------------------

/// An optional string as JSON: `null` when absent.
pub open spec fn opt_str_jsonv(o: Option<Seq<char>>) -> JsonV {
    match o {
        Option::Some(s) => JsonV::Str(s),
        Option::None => JsonV::Null,
    }
}

/// An optional count as JSON: `null` when absent.
pub open spec fn opt_num_jsonv(o: Option<usize>) -> JsonV {
    match o {
        Option::Some(n) => JsonV::UInt(n as u64),
        Option::None => JsonV::Null,
    }
}

/// A diagnostic as a JSON object, fields in declaration order.
pub open spec fn verr_jsonv(e: ValidationErrorV) -> JsonV {
    JsonV::Obj(
        seq![
            ("line"@, JsonV::UInt(e.line as u64)),
            ("message"@, JsonV::Str(e.message)),
            ("severity"@, JsonV::Str(e.severity)),
            ("column"@, opt_num_jsonv(e.column)),
            ("file"@, opt_str_jsonv(e.file)),
            ("category"@, opt_str_jsonv(e.category)),
            ("help_text"@, opt_str_jsonv(e.help_text)),
        ],
    )
}

pub open spec fn verrs_jsonv(list: Seq<ValidationErrorV>) -> Seq<JsonV>
    decreases list.len(),
{
    if list.len() == 0 {
        Seq::empty()
    } else {
        verrs_jsonv(list.drop_last()).push(verr_jsonv(list.last()))
    }
}

pub proof fn lemma_verrs_jsonv(list: Seq<ValidationErrorV>)
    ensures
        verrs_jsonv(list).len() == list.len(),
        forall|i: int| 0 <= i < list.len() ==> verrs_jsonv(list)[i] == verr_jsonv(list[i]),
    decreases list.len(),
{
    if list.len() > 0 {
        lemma_verrs_jsonv(list.drop_last());
    }
}

pub open spec fn strs_jsonv(list: Seq<Seq<char>>) -> Seq<JsonV>
    decreases list.len(),
{
    if list.len() == 0 {
        Seq::empty()
    } else {
        strs_jsonv(list.drop_last()).push(JsonV::Str(list.last()))
    }
}

pub proof fn lemma_strs_jsonv(list: Seq<Seq<char>>)
    ensures
        strs_jsonv(list).len() == list.len(),
        forall|i: int| 0 <= i < list.len() ==> strs_jsonv(list)[i] == JsonV::Str(list[i]),
    decreases list.len(),
{
    if list.len() > 0 {
        lemma_strs_jsonv(list.drop_last());
    }
}

/// One externally tagged variant: an object with one key.
pub open spec fn tagged(tag: Seq<char>, body: JsonV) -> JsonV {
    JsonV::Obj(seq![(tag, body)])
}

/// A server message as a JSON document. The `request_id` field is left out
/// when it is absent; the optional fields of a diagnostic are `null` instead.
pub open spec fn server_msg_jsonv(m: ServerMessageV) -> JsonV {
    match m {
        ServerMessageV::LayerChange { new } => tagged(
            "LayerChange"@,
            JsonV::Obj(seq![("new"@, JsonV::Str(new))]),
        ),
        ServerMessageV::LayerNames { names } => tagged(
            "LayerNames"@,
            JsonV::Obj(seq![("names"@, JsonV::Arr(strs_jsonv(names)))]),
        ),
        ServerMessageV::CurrentLayerInfo { name, cfg_text } => tagged(
            "CurrentLayerInfo"@,
            JsonV::Obj(seq![("name"@, JsonV::Str(name)), ("cfg_text"@, JsonV::Str(cfg_text))]),
        ),
        ServerMessageV::ConfigFileReload { new } => tagged(
            "ConfigFileReload"@,
            JsonV::Obj(seq![("new"@, JsonV::Str(new))]),
        ),
        ServerMessageV::CurrentLayerName { name } => tagged(
            "CurrentLayerName"@,
            JsonV::Obj(seq![("name"@, JsonV::Str(name))]),
        ),
        ServerMessageV::MessagePush { message } => tagged(
            "MessagePush"@,
            JsonV::Obj(seq![("message"@, message)]),
        ),
        ServerMessageV::Error { msg } => tagged(
            "Error"@,
            JsonV::Obj(seq![("msg"@, JsonV::Str(msg))]),
        ),
        ServerMessageV::ValidationResult {
            success,
            errors,
            warnings,
            error_count,
            warning_count,
            request_id,
        } => {
            let base = seq![
                ("success"@, JsonV::Bool(success)),
                ("errors"@, JsonV::Arr(verrs_jsonv(errors))),
                ("warnings"@, JsonV::Arr(verrs_jsonv(warnings))),
                ("error_count"@, JsonV::UInt(error_count as u64)),
                ("warning_count"@, JsonV::UInt(warning_count as u64)),
            ];
            let fields = match request_id {
                Option::Some(id) => base.push(("request_id"@, JsonV::Str(id))),
                Option::None => base,
            };
            tagged("ValidationResult"@, JsonV::Obj(fields))
        },
    }
}

/// A client message as a JSON document; `request_id` is left out when absent.
pub open spec fn client_msg_jsonv(m: ClientMessageV) -> JsonV {
    match m {
        ClientMessageV::ChangeLayer { new } => tagged(
            "ChangeLayer"@,
            JsonV::Obj(seq![("new"@, JsonV::Str(new))]),
        ),
        ClientMessageV::RequestLayerNames => tagged("RequestLayerNames"@, JsonV::Obj(Seq::empty())),
        ClientMessageV::RequestCurrentLayerInfo => tagged(
            "RequestCurrentLayerInfo"@,
            JsonV::Obj(Seq::empty()),
        ),
        ClientMessageV::RequestCurrentLayerName => tagged(
            "RequestCurrentLayerName"@,
            JsonV::Obj(Seq::empty()),
        ),
        ClientMessageV::ActOnFakeKey { name, action } => tagged(
            "ActOnFakeKey"@,
            JsonV::Obj(
                seq![("name"@, JsonV::Str(name)), ("action"@, JsonV::Str(action_name(action)))],
            ),
        ),
        ClientMessageV::SetMouse { x, y } => tagged(
            "SetMouse"@,
            JsonV::Obj(seq![("x"@, JsonV::UInt(x as u64)), ("y"@, JsonV::UInt(y as u64))]),
        ),
        ClientMessageV::Reload => tagged("Reload"@, JsonV::Obj(Seq::empty())),
        ClientMessageV::ReloadNext => tagged("ReloadNext"@, JsonV::Obj(Seq::empty())),
        ClientMessageV::ReloadPrev => tagged("ReloadPrev"@, JsonV::Obj(Seq::empty())),
        ClientMessageV::ReloadNum { index } => tagged(
            "ReloadNum"@,
            JsonV::Obj(seq![("index"@, JsonV::UInt(index as u64))]),
        ),
        ClientMessageV::ReloadFile { path } => tagged(
            "ReloadFile"@,
            JsonV::Obj(seq![("path"@, JsonV::Str(path))]),
        ),
        ClientMessageV::ValidateConfig { config_content, request_id } => {
            let base = seq![("config_content"@, JsonV::Str(config_content))];
            let fields = match request_id {
                Option::Some(id) => base.push(("request_id"@, JsonV::Str(id))),
                Option::None => base,
            };
            tagged("ValidateConfig"@, JsonV::Obj(fields))
        },
        ClientMessageV::SetSessionMode { quiet } => tagged(
            "SetSessionMode"@,
            JsonV::Obj(seq![("quiet"@, JsonV::Bool(quiet))]),
        ),
    }
}

/// The wire name of a fake-key action.
pub open spec fn action_name(a: FakeKeyActionMessage) -> Seq<char> {
    match a {
        FakeKeyActionMessage::Press => "Press"@,
        FakeKeyActionMessage::Release => "Release"@,
        FakeKeyActionMessage::Tap => "Tap"@,
        FakeKeyActionMessage::Toggle => "Toggle"@,
    }
}

/// The bytes of a server response on the wire.
pub open spec fn server_response_jsonv(r: ServerResponseV) -> JsonV {
    match r {
        ServerResponseV::Okay => JsonV::Obj(seq![("status"@, JsonV::Str("Ok"@))]),
        ServerResponseV::Error { msg } => JsonV::Obj(
            seq![("status"@, JsonV::Str("Error"@)), ("msg"@, JsonV::Str(msg))],
        ),
    }
}

pub open spec fn server_response_bytes(r: ServerResponseV) -> Seq<u8> {
    json_bytes(server_response_jsonv(r)) + seq![0x0au8]
}

pub open spec fn server_msg_bytes(m: ServerMessageV) -> Seq<u8> {
    json_bytes(server_msg_jsonv(m)) + seq![0x0au8]
}

pub open spec fn client_msg_bytes(m: ClientMessageV) -> Seq<u8> {
    json_bytes(client_msg_jsonv(m)) + seq![0x0au8]
}


// ---------------------------------------------------------------------------
// Executable rendering.
// ---------------------------------------------------------------------------

/// A fresh owned copy of `s` as a JSON string node.
fn str_json(s: &str) -> (r: Json)
    ensures
        r@ == JsonV::Str(s@),
{
    Json::Str(String::from_str(s))
}

/// An optional string as a JSON node: `null` when absent.
fn opt_str_json(o: &Option<String>) -> (r: Json)
    ensures
        r@ == opt_str_jsonv(opt_str_view(*o)),
{
    match o {
        Option::Some(s) => str_json(s.as_str()),
        Option::None => Json::Null,
    }
}

/// An optional count as a JSON node: `null` when absent.
fn opt_num_json(o: &Option<usize>) -> (r: Json)
    ensures
        r@ == opt_num_jsonv(*o),
{
    match o {
        Option::Some(n) => Json::UInt(*n as u64),
        Option::None => Json::Null,
    }
}

/// Appends one field to an object under construction.
fn push_field(fields: &mut Vec<(String, Json)>, name: &str, v: Json)
    ensures
        json_fields_view(final(fields)@) == json_fields_view(old(fields)@).push((name@, v@)),
{
    let ghost vv = v@;
    let ghost pre = fields@;
    fields.push((String::from_str(name), v));
    proof {
        assert(fields@.drop_last() =~= pre);
        assert(fields@.last().0@ == name@);
        assert(json_view(fields@.last().1) == vv);
    }
}

/// Wraps `body` as the one field of an externally tagged variant object.
fn tag_msg(tag: &str, body: Json) -> (r: Json)
    ensures
        r@ == tagged(tag@, body@),
{
    let ghost bv = body@;
    let mut top: Vec<(String, Json)> = Vec::new();
    proof {
        assert(json_fields_view(top@) =~= Seq::<(Seq<char>, JsonV)>::empty());
    }
    push_field(&mut top, tag, body);
    proof {
        assert(json_fields_view(top@) =~= seq![(tag@, bv)]);
    }
    Json::Obj(top)
}

impl ValidationError {
    /// This diagnostic as a JSON object.
    pub fn to_json(&self) -> (r: Json)
        ensures
            r@ == verr_jsonv(self@),
    {
        let mut fields: Vec<(String, Json)> = Vec::new();
        proof {
            assert(json_fields_view(fields@) =~= Seq::<(Seq<char>, JsonV)>::empty());
        }
        push_field(&mut fields, "line", Json::UInt(self.line as u64));
        push_field(&mut fields, "message", str_json(self.message.as_str()));
        push_field(&mut fields, "severity", str_json(self.severity.as_str()));
        push_field(&mut fields, "column", opt_num_json(&self.column));
        push_field(&mut fields, "file", opt_str_json(&self.file));
        push_field(&mut fields, "category", opt_str_json(&self.category));
        push_field(&mut fields, "help_text", opt_str_json(&self.help_text));
        proof {
            assert(json_fields_view(fields@) =~= seq![
                ("line"@, JsonV::UInt(self.line as u64)),
                ("message"@, JsonV::Str(self.message@)),
                ("severity"@, JsonV::Str(self.severity@)),
                ("column"@, opt_num_jsonv(self.column)),
                ("file"@, opt_str_jsonv(opt_str_view(self.file))),
                ("category"@, opt_str_jsonv(opt_str_view(self.category))),
                ("help_text"@, opt_str_jsonv(opt_str_view(self.help_text))),
            ]);
        }
        Json::Obj(fields)
    }
}

/// The diagnostics of a list, each as a JSON object.
fn verrs_json(list: &Vec<ValidationError>) -> (r: Vec<Json>)
    ensures
        json_seq_view(r@) == verrs_jsonv(verrs_view(list@)),
{
    let mut out: Vec<Json> = Vec::new();
    let n = list.len();
    let mut i: usize = 0;
    proof {
        assert(json_seq_view(out@) =~= Seq::<JsonV>::empty());
        assert(verrs_jsonv(verrs_view(list@.take(0))) =~= Seq::<JsonV>::empty());
    }
    while i < n
        invariant
            i <= n,
            n == list@.len(),
            json_seq_view(out@) == verrs_jsonv(verrs_view(list@.take(i as int))),
        decreases n - i,
    {
        let ghost pre = out@;
        out.push(list[i].to_json());
        proof {
            assert(out@.drop_last() =~= pre);
            assert(list@.take(i + 1).drop_last() =~= list@.take(i as int));
            assert(verrs_view(list@.take(i + 1)).drop_last() =~= verrs_view(
                list@.take(i as int),
            ));
            assert(verrs_view(list@.take(i + 1)).last() == list@[i as int]@);
        }
        i = i + 1;
    }
    proof {
        assert(list@.take(n as int) =~= list@);
    }
    out
}

/// The strings of a list, each as a JSON string node.
fn strs_json(list: &Vec<String>) -> (r: Vec<Json>)
    ensures
        json_seq_view(r@) == strs_jsonv(strings_view(list@)),
{
    let mut out: Vec<Json> = Vec::new();
    let n = list.len();
    let mut i: usize = 0;
    proof {
        assert(json_seq_view(out@) =~= Seq::<JsonV>::empty());
        assert(strs_jsonv(strings_view(list@.take(0))) =~= Seq::<JsonV>::empty());
    }
    while i < n
        invariant
            i <= n,
            n == list@.len(),
            json_seq_view(out@) == strs_jsonv(strings_view(list@.take(i as int))),
        decreases n - i,
    {
        let ghost pre = out@;
        out.push(str_json(list[i].as_str()));
        proof {
            assert(out@.drop_last() =~= pre);
            assert(list@.take(i + 1).drop_last() =~= list@.take(i as int));
            assert(strings_view(list@.take(i + 1)).drop_last() =~= strings_view(
                list@.take(i as int),
            ));
            assert(strings_view(list@.take(i + 1)).last() == list@[i as int]@);
        }
        i = i + 1;
    }
    proof {
        assert(list@.take(n as int) =~= list@);
    }
    out
}

/// Renders `doc` and the trailing newline byte.
fn finish_line(doc: Json) -> (r: Vec<u8>)
    ensures
        r@ == json_bytes(doc@) + seq![0x0au8],
{
    let ghost dv = doc@;
    let mut out = json_to_bytes(&doc);
    out.push(0x0a);
    proof {
        assert(out@ =~= json_bytes(dv) + seq![0x0au8]);
    }
    out
}

impl ServerResponse {
    /// The bytes of this response on the wire: its JSON object and a newline.
    pub fn as_bytes(&self) -> (r: Vec<u8>)
        ensures
            r@ == server_response_bytes(self@),
    {
        let doc = match self {
            ServerResponse::Okay => {
                let mut fields: Vec<(String, Json)> = Vec::new();
                proof {
                    assert(json_fields_view(fields@) =~= Seq::<(Seq<char>, JsonV)>::empty());
                }
                push_field(&mut fields, "status", str_json("Ok"));
                proof {
                    assert(json_fields_view(fields@) =~= seq![("status"@, JsonV::Str("Ok"@))]);
                }
                Json::Obj(fields)
            },
            ServerResponse::Error { msg } => {
                let mut fields: Vec<(String, Json)> = Vec::new();
                proof {
                    assert(json_fields_view(fields@) =~= Seq::<(Seq<char>, JsonV)>::empty());
                }
                push_field(&mut fields, "status", str_json("Error"));
                push_field(&mut fields, "msg", str_json(msg.as_str()));
                proof {
                    assert(json_fields_view(fields@) =~= seq![
                        ("status"@, JsonV::Str("Error"@)),
                        ("msg"@, JsonV::Str(msg@)),
                    ]);
                }
                Json::Obj(fields)
            },
        };
        finish_line(doc)
    }
}

impl ServerMessage {
    /// The bytes of this message on the wire: its JSON object and a newline.
    #[verifier::rlimit(60)]
    pub fn as_bytes(&self) -> (r: Vec<u8>)
        ensures
            r@ == server_msg_bytes(self@),
    {
        let doc = match self {
            ServerMessage::LayerChange { new } => {
                let mut b: Vec<(String, Json)> = Vec::new();
                proof {
                    assert(json_fields_view(b@) =~= Seq::<(Seq<char>, JsonV)>::empty());
                }
                push_field(&mut b, "new", str_json(new.as_str()));
                proof {
                    assert(json_fields_view(b@) =~= seq![("new"@, JsonV::Str(new@))]);
                }
                tag_msg("LayerChange", Json::Obj(b))
            },
            ServerMessage::LayerNames { names } => {
                let arr = strs_json(names);
                let ghost av = json_seq_view(arr@);
                let mut b: Vec<(String, Json)> = Vec::new();
                proof {
                    assert(json_fields_view(b@) =~= Seq::<(Seq<char>, JsonV)>::empty());
                }
                push_field(&mut b, "names", Json::Arr(arr));
                proof {
                    assert(json_fields_view(b@) =~= seq![("names"@, JsonV::Arr(av))]);
                }
                tag_msg("LayerNames", Json::Obj(b))
            },
            ServerMessage::CurrentLayerInfo { name, cfg_text } => {
                let mut b: Vec<(String, Json)> = Vec::new();
                proof {
                    assert(json_fields_view(b@) =~= Seq::<(Seq<char>, JsonV)>::empty());
                }
                push_field(&mut b, "name", str_json(name.as_str()));
                push_field(&mut b, "cfg_text", str_json(cfg_text.as_str()));
                proof {
                    assert(json_fields_view(b@) =~= seq![
                        ("name"@, JsonV::Str(name@)),
                        ("cfg_text"@, JsonV::Str(cfg_text@)),
                    ]);
                }
                tag_msg("CurrentLayerInfo", Json::Obj(b))
            },
            ServerMessage::ConfigFileReload { new } => {
                let mut b: Vec<(String, Json)> = Vec::new();
                proof {
                    assert(json_fields_view(b@) =~= Seq::<(Seq<char>, JsonV)>::empty());
                }
                push_field(&mut b, "new", str_json(new.as_str()));
                proof {
                    assert(json_fields_view(b@) =~= seq![("new"@, JsonV::Str(new@))]);
                }
                tag_msg("ConfigFileReload", Json::Obj(b))
            },
            ServerMessage::CurrentLayerName { name } => {
                let mut b: Vec<(String, Json)> = Vec::new();
                proof {
                    assert(json_fields_view(b@) =~= Seq::<(Seq<char>, JsonV)>::empty());
                }
                push_field(&mut b, "name", str_json(name.as_str()));
                proof {
                    assert(json_fields_view(b@) =~= seq![("name"@, JsonV::Str(name@))]);
                }
                tag_msg("CurrentLayerName", Json::Obj(b))
            },
            ServerMessage::MessagePush { message } => {
                let ghost mv = json_view(*message);
                let mut b: Vec<(String, Json)> = Vec::new();
                proof {
                    assert(json_fields_view(b@) =~= Seq::<(Seq<char>, JsonV)>::empty());
                }
                push_field(&mut b, "message", json_ref_copy(message));
                proof {
                    assert(json_fields_view(b@) =~= seq![("message"@, mv)]);
                }
                tag_msg("MessagePush", Json::Obj(b))
            },
            ServerMessage::Error { msg } => {
                let mut b: Vec<(String, Json)> = Vec::new();
                proof {
                    assert(json_fields_view(b@) =~= Seq::<(Seq<char>, JsonV)>::empty());
                }
                push_field(&mut b, "msg", str_json(msg.as_str()));
                proof {
                    assert(json_fields_view(b@) =~= seq![("msg"@, JsonV::Str(msg@))]);
                }
                tag_msg("Error", Json::Obj(b))
            },
            ServerMessage::ValidationResult {
                success,
                errors,
                warnings,
                error_count,
                warning_count,
                request_id,
            } => {
                let errs = verrs_json(errors);
                let ghost ev = json_seq_view(errs@);
                let warns = verrs_json(warnings);
                let ghost wv = json_seq_view(warns@);
                let mut b: Vec<(String, Json)> = Vec::new();
                proof {
                    assert(json_fields_view(b@) =~= Seq::<(Seq<char>, JsonV)>::empty());
                }
                push_field(&mut b, "success", Json::Bool(*success));
                push_field(&mut b, "errors", Json::Arr(errs));
                push_field(&mut b, "warnings", Json::Arr(warns));
                push_field(&mut b, "error_count", Json::UInt(*error_count as u64));
                push_field(&mut b, "warning_count", Json::UInt(*warning_count as u64));
                match request_id {
                    Option::Some(id) => {
                        push_field(&mut b, "request_id", str_json(id.as_str()));
                        proof {
                            assert(json_fields_view(b@) =~= seq![
                                ("success"@, JsonV::Bool(*success)),
                                ("errors"@, JsonV::Arr(ev)),
                                ("warnings"@, JsonV::Arr(wv)),
                                ("error_count"@, JsonV::UInt(*error_count as u64)),
                                ("warning_count"@, JsonV::UInt(*warning_count as u64)),
                            ].push(("request_id"@, JsonV::Str(id@))));
                        }
                    },
                    Option::None => {
                        proof {
                            assert(json_fields_view(b@) =~= seq![
                                ("success"@, JsonV::Bool(*success)),
                                ("errors"@, JsonV::Arr(ev)),
                                ("warnings"@, JsonV::Arr(wv)),
                                ("error_count"@, JsonV::UInt(*error_count as u64)),
                                ("warning_count"@, JsonV::UInt(*warning_count as u64)),
                            ]);
                        }
                    },
                }
                tag_msg("ValidationResult", Json::Obj(b))
            },
        };
        finish_line(doc)
    }
}

/// A structural copy of a JSON document.
pub fn json_ref_copy(j: &Json) -> (r: Json)
    ensures
        r@ == j@,
    decreases json_view(*j),
{
    match j {
        Json::Null => Json::Null,
        Json::Bool(b) => Json::Bool(*b),
        Json::UInt(n) => Json::UInt(*n),
        Json::Num(t) => Json::Num(t.clone()),
        Json::Str(s) => Json::Str(s.clone()),
        Json::Arr(elems) => {
            let ghost ev = json_seq_view(elems@);
            proof {
                lemma_json_seq_view_len(elems@);
            }
            let n = elems.len();
            let mut out: Vec<Json> = Vec::new();
            let mut i: usize = 0;
            proof {
                assert(json_seq_view(out@) =~= Seq::<JsonV>::empty());
                assert(ev.take(0) =~= Seq::<JsonV>::empty());
            }
            while i < n
                invariant
                    i <= n,
                    n == elems@.len(),
                    ev == json_seq_view(elems@),
                    ev.len() == n,
                    forall|k: int| 0 <= k < n ==> ev[k] == json_view(elems@[k]),
                    j == Json::Arr(*elems),
                    json_seq_view(out@) == ev.take(i as int),
                decreases n - i,
            {
                proof {
                    broadcast use vstd::seq::group_seq_axioms;

                    let ghost vv = json_view(*j);
                    match vv {
                        JsonV::Arr(e) => {
                            assert(e == ev);
                            assert(decreases_to!(vv => e));
                        },
                        _ => {
                            assert(false);
                        },
                    }
                    assert(decreases_to!(ev => ev[i as int]));
                    assert(json_view(elems@[i as int]) == ev[i as int]);
                }
                let ghost pre = out@;
                let c = json_ref_copy(&elems[i]);
                out.push(c);
                proof {
                    assert(out@.drop_last() =~= pre);
                    assert(ev.take(i + 1).drop_last() =~= ev.take(i as int));
                    assert(json_seq_view(out@) =~= ev.take(i + 1));
                }
                i = i + 1;
            }
            proof {
                assert(ev.take(n as int) =~= ev);
            }
            Json::Arr(out)
        },
        Json::Obj(fields) => {
            let ghost fv = json_fields_view(fields@);
            proof {
                lemma_json_fields_view_len(fields@);
            }
            let n = fields.len();
            let mut out: Vec<(String, Json)> = Vec::new();
            let mut i: usize = 0;
            proof {
                assert(json_fields_view(out@) =~= Seq::<(Seq<char>, JsonV)>::empty());
                assert(fv.take(0) =~= Seq::<(Seq<char>, JsonV)>::empty());
            }
            while i < n
                invariant
                    i <= n,
                    n == fields@.len(),
                    fv == json_fields_view(fields@),
                    fv.len() == n,
                    forall|k: int|
                        0 <= k < n ==> fv[k] == (fields@[k].0@, json_view(fields@[k].1)),
                    j == Json::Obj(*fields),
                    json_fields_view(out@) == fv.take(i as int),
                decreases n - i,
            {
                proof {
                    broadcast use vstd::seq::group_seq_axioms;

                    let ghost vv = json_view(*j);
                    match vv {
                        JsonV::Obj(f) => {
                            assert(f == fv);
                            assert(decreases_to!(vv => f));
                        },
                        _ => {
                            assert(false);
                        },
                    }
                    assert(decreases_to!(fv => fv[i as int]));
                    assert(decreases_to!(fv[i as int] => fv[i as int].1));
                    assert(json_view(fields@[i as int].1) == fv[i as int].1);
                }
                let ghost pre = out@;
                let c = json_ref_copy(&fields[i].1);
                let k = fields[i].0.clone();
                out.push((k, c));
                proof {
                    assert(out@.drop_last() =~= pre);
                    assert(fv.take(i + 1).drop_last() =~= fv.take(i as int));
                    assert(json_fields_view(out@) =~= fv.take(i + 1));
                }
                i = i + 1;
            }
            proof {
                assert(fv.take(n as int) =~= fv);
            }
            Json::Obj(out)
        },
    }
}

impl ClientMessage {
    /// The bytes of this message on the wire: its JSON object and a newline.
    #[verifier::rlimit(60)]
    pub fn as_bytes(&self) -> (r: Vec<u8>)
        ensures
            r@ == client_msg_bytes(self@),
    {
        let doc = match self {
            ClientMessage::ChangeLayer { new } => {
                let mut b: Vec<(String, Json)> = Vec::new();
                proof {
                    assert(json_fields_view(b@) =~= Seq::<(Seq<char>, JsonV)>::empty());
                }
                push_field(&mut b, "new", str_json(new.as_str()));
                proof {
                    assert(json_fields_view(b@) =~= seq![("new"@, JsonV::Str(new@))]);
                }
                tag_msg("ChangeLayer", Json::Obj(b))
            },
            ClientMessage::RequestLayerNames {} => {
                let b: Vec<(String, Json)> = Vec::new();
                proof {
                    assert(json_fields_view(b@) =~= Seq::<(Seq<char>, JsonV)>::empty());
                }
                tag_msg("RequestLayerNames", Json::Obj(b))
            },
            ClientMessage::RequestCurrentLayerInfo {} => {
                let b: Vec<(String, Json)> = Vec::new();
                proof {
                    assert(json_fields_view(b@) =~= Seq::<(Seq<char>, JsonV)>::empty());
                }
                tag_msg("RequestCurrentLayerInfo", Json::Obj(b))
            },
            ClientMessage::RequestCurrentLayerName {} => {
                let b: Vec<(String, Json)> = Vec::new();
                proof {
                    assert(json_fields_view(b@) =~= Seq::<(Seq<char>, JsonV)>::empty());
                }
                tag_msg("RequestCurrentLayerName", Json::Obj(b))
            },
            ClientMessage::ActOnFakeKey { name, action } => {
                let a = match action {
                    FakeKeyActionMessage::Press => str_json("Press"),
                    FakeKeyActionMessage::Release => str_json("Release"),
                    FakeKeyActionMessage::Tap => str_json("Tap"),
                    FakeKeyActionMessage::Toggle => str_json("Toggle"),
                };
                proof {
                    assert(a@ == JsonV::Str(action_name(*action)));
                }
                let mut b: Vec<(String, Json)> = Vec::new();
                proof {
                    assert(json_fields_view(b@) =~= Seq::<(Seq<char>, JsonV)>::empty());
                }
                push_field(&mut b, "name", str_json(name.as_str()));
                push_field(&mut b, "action", a);
                proof {
                    assert(json_fields_view(b@) =~= seq![
                        ("name"@, JsonV::Str(name@)),
                        ("action"@, JsonV::Str(action_name(*action))),
                    ]);
                }
                tag_msg("ActOnFakeKey", Json::Obj(b))
            },
            ClientMessage::SetMouse { x, y } => {
                let mut b: Vec<(String, Json)> = Vec::new();
                proof {
                    assert(json_fields_view(b@) =~= Seq::<(Seq<char>, JsonV)>::empty());
                }
                push_field(&mut b, "x", Json::UInt(*x as u64));
                push_field(&mut b, "y", Json::UInt(*y as u64));
                proof {
                    assert(json_fields_view(b@) =~= seq![
                        ("x"@, JsonV::UInt(*x as u64)),
                        ("y"@, JsonV::UInt(*y as u64)),
                    ]);
                }
                tag_msg("SetMouse", Json::Obj(b))
            },
            ClientMessage::Reload {} => {
                let b: Vec<(String, Json)> = Vec::new();
                proof {
                    assert(json_fields_view(b@) =~= Seq::<(Seq<char>, JsonV)>::empty());
                }
                tag_msg("Reload", Json::Obj(b))
            },
            ClientMessage::ReloadNext {} => {
                let b: Vec<(String, Json)> = Vec::new();
                proof {
                    assert(json_fields_view(b@) =~= Seq::<(Seq<char>, JsonV)>::empty());
                }
                tag_msg("ReloadNext", Json::Obj(b))
            },
            ClientMessage::ReloadPrev {} => {
                let b: Vec<(String, Json)> = Vec::new();
                proof {
                    assert(json_fields_view(b@) =~= Seq::<(Seq<char>, JsonV)>::empty());
                }
                tag_msg("ReloadPrev", Json::Obj(b))
            },
            ClientMessage::ReloadNum { index } => {
                let mut b: Vec<(String, Json)> = Vec::new();
                proof {
                    assert(json_fields_view(b@) =~= Seq::<(Seq<char>, JsonV)>::empty());
                }
                push_field(&mut b, "index", Json::UInt(*index as u64));
                proof {
                    assert(json_fields_view(b@) =~= seq![("index"@, JsonV::UInt(*index as u64))]);
                }
                tag_msg("ReloadNum", Json::Obj(b))
            },
            ClientMessage::ReloadFile { path } => {
                let mut b: Vec<(String, Json)> = Vec::new();
                proof {
                    assert(json_fields_view(b@) =~= Seq::<(Seq<char>, JsonV)>::empty());
                }
                push_field(&mut b, "path", str_json(path.as_str()));
                proof {
                    assert(json_fields_view(b@) =~= seq![("path"@, JsonV::Str(path@))]);
                }
                tag_msg("ReloadFile", Json::Obj(b))
            },
            ClientMessage::ValidateConfig { config_content, request_id } => {
                let mut b: Vec<(String, Json)> = Vec::new();
                proof {
                    assert(json_fields_view(b@) =~= Seq::<(Seq<char>, JsonV)>::empty());
                }
                push_field(&mut b, "config_content", str_json(config_content.as_str()));
                match request_id {
                    Option::Some(id) => {
                        push_field(&mut b, "request_id", str_json(id.as_str()));
                        proof {
                            assert(json_fields_view(b@) =~= seq![
                                ("config_content"@, JsonV::Str(config_content@)),
                            ].push(("request_id"@, JsonV::Str(id@))));
                        }
                    },
                    Option::None => {
                        proof {
                            assert(json_fields_view(b@) =~= seq![
                                ("config_content"@, JsonV::Str(config_content@)),
                            ]);
                        }
                    },
                }
                tag_msg("ValidateConfig", Json::Obj(b))
            },
            ClientMessage::SetSessionMode { quiet } => {
                let mut b: Vec<(String, Json)> = Vec::new();
                proof {
                    assert(json_fields_view(b@) =~= Seq::<(Seq<char>, JsonV)>::empty());
                }
                push_field(&mut b, "quiet", Json::Bool(*quiet));
                proof {
                    assert(json_fields_view(b@) =~= seq![("quiet"@, JsonV::Bool(*quiet))]);
                }
                tag_msg("SetSessionMode", Json::Obj(b))
            },
        };
        finish_line(doc)
    }
}


// ---------------------------------------------------------------------------
// Reading messages back out of JSON documents.
// ---------------------------------------------------------------------------

/// The first field of `fields` named `name`, from index `i` on.
pub open spec fn obj_get_from(
    fields: Seq<(Seq<char>, JsonV)>,
    name: Seq<char>,
    i: int,
) -> Option<JsonV>
    decreases fields.len() - i,
{
    if i < 0 || i >= fields.len() {
        Option::None
    } else if fields[i].0 == name {
        Option::Some(fields[i].1)
    } else {
        obj_get_from(fields, name, i + 1)
    }
}

/// The first field of `fields` named `name`.
pub open spec fn obj_get(fields: Seq<(Seq<char>, JsonV)>, name: Seq<char>) -> Option<JsonV> {
    obj_get_from(fields, name, 0)
}

/// A required string field of an object.
pub open spec fn body_str(body: JsonV, name: Seq<char>) -> Option<Seq<char>> {
    match body {
        JsonV::Obj(f) => match obj_get(f, name) {
            Option::Some(JsonV::Str(s)) => Option::Some(s),
            _ => Option::None,
        },
        _ => Option::None,
    }
}

/// An optional string field: absent and `null` both mean none; any other
/// value than a string makes the whole message invalid (the outer `None`).
pub open spec fn body_opt_str(body: JsonV, name: Seq<char>) -> Option<Option<Seq<char>>> {
    match body {
        JsonV::Obj(f) => match obj_get(f, name) {
            Option::Some(JsonV::Str(s)) => Option::Some(Option::Some(s)),
            Option::Some(JsonV::Null) => Option::Some(Option::None),
            Option::Some(_) => Option::None,
            Option::None => Option::Some(Option::None),
        },
        _ => Option::None,
    }
}

/// A required unsigned-integer field of an object.
pub open spec fn body_uint(body: JsonV, name: Seq<char>) -> Option<u64> {
    match body {
        JsonV::Obj(f) => match obj_get(f, name) {
            Option::Some(JsonV::UInt(n)) => Option::Some(n),
            _ => Option::None,
        },
        _ => Option::None,
    }
}

/// A required boolean field of an object.
pub open spec fn body_bool(body: JsonV, name: Seq<char>) -> Option<bool> {
    match body {
        JsonV::Obj(f) => match obj_get(f, name) {
            Option::Some(JsonV::Bool(b)) => Option::Some(b),
            _ => Option::None,
        },
        _ => Option::None,
    }
}

/// An optional unsigned-integer field bounded by `usize`.
pub open spec fn body_opt_usize(body: JsonV, name: Seq<char>) -> Option<Option<usize>> {
    match body {
        JsonV::Obj(f) => match obj_get(f, name) {
            Option::Some(JsonV::UInt(n)) => if n <= usize::MAX as u64 {
                Option::Some(Option::Some(n as usize))
            } else {
                Option::None
            },
            Option::Some(JsonV::Null) => Option::Some(Option::None),
            Option::Some(_) => Option::None,
            Option::None => Option::Some(Option::None),
        },
        _ => Option::None,
    }
}

/// The fake-key action named by a wire string.
pub open spec fn action_of(s: Seq<char>) -> Option<FakeKeyActionMessage> {
    if s == "Press"@ {
        Option::Some(FakeKeyActionMessage::Press)
    } else if s == "Release"@ {
        Option::Some(FakeKeyActionMessage::Release)
    } else if s == "Tap"@ {
        Option::Some(FakeKeyActionMessage::Tap)
    } else if s == "Toggle"@ {
        Option::Some(FakeKeyActionMessage::Toggle)
    } else {
        Option::None
    }
}

/// The client message a JSON document denotes, when it denotes one: an
/// object with exactly one key, the variant name, over an object of fields.
/// Unknown extra fields are ignored; the first field of a name wins.
pub open spec fn client_msg_of_jsonv(v: JsonV) -> Option<ClientMessageV> {
    match v {
        JsonV::Obj(top) => if top.len() != 1 {
            Option::None
        } else {
            let tag = top[0].0;
            let body = top[0].1;
            if tag == "ChangeLayer"@ {
                match body_str(body, "new"@) {
                    Option::Some(new) => Option::Some(ClientMessageV::ChangeLayer { new }),
                    Option::None => Option::None,
                }
            } else if tag == "RequestLayerNames"@ {
                if body is Obj {
                    Option::Some(ClientMessageV::RequestLayerNames)
                } else {
                    Option::None
                }
            } else if tag == "RequestCurrentLayerInfo"@ {
                if body is Obj {
                    Option::Some(ClientMessageV::RequestCurrentLayerInfo)
                } else {
                    Option::None
                }
            } else if tag == "RequestCurrentLayerName"@ {
                if body is Obj {
                    Option::Some(ClientMessageV::RequestCurrentLayerName)
                } else {
                    Option::None
                }
            } else if tag == "ActOnFakeKey"@ {
                match (body_str(body, "name"@), body_str(body, "action"@)) {
                    (Option::Some(name), Option::Some(a)) => match action_of(a) {
                        Option::Some(action) => Option::Some(
                            ClientMessageV::ActOnFakeKey { name, action },
                        ),
                        Option::None => Option::None,
                    },
                    _ => Option::None,
                }
            } else if tag == "SetMouse"@ {
                match (body_uint(body, "x"@), body_uint(body, "y"@)) {
                    (Option::Some(x), Option::Some(y)) => if x <= 0xffff && y <= 0xffff {
                        Option::Some(ClientMessageV::SetMouse { x: x as u16, y: y as u16 })
                    } else {
                        Option::None
                    },
                    _ => Option::None,
                }
            } else if tag == "Reload"@ {
                if body is Obj {
                    Option::Some(ClientMessageV::Reload)
                } else {
                    Option::None
                }
            } else if tag == "ReloadNext"@ {
                if body is Obj {
                    Option::Some(ClientMessageV::ReloadNext)
                } else {
                    Option::None
                }
            } else if tag == "ReloadPrev"@ {
                if body is Obj {
                    Option::Some(ClientMessageV::ReloadPrev)
                } else {
                    Option::None
                }
            } else if tag == "ReloadNum"@ {
                match body_uint(body, "index"@) {
                    Option::Some(n) => if n <= usize::MAX as u64 {
                        Option::Some(ClientMessageV::ReloadNum { index: n as usize })
                    } else {
                        Option::None
                    },
                    Option::None => Option::None,
                }
            } else if tag == "ReloadFile"@ {
                match body_str(body, "path"@) {
                    Option::Some(path) => Option::Some(ClientMessageV::ReloadFile { path }),
                    Option::None => Option::None,
                }
            } else if tag == "ValidateConfig"@ {
                match (body_str(body, "config_content"@), body_opt_str(body, "request_id"@)) {
                    (Option::Some(config_content), Option::Some(request_id)) => Option::Some(
                        ClientMessageV::ValidateConfig { config_content, request_id },
                    ),
                    _ => Option::None,
                }
            } else if tag == "SetSessionMode"@ {
                match body_bool(body, "quiet"@) {
                    Option::Some(quiet) => Option::Some(
                        ClientMessageV::SetSessionMode { quiet },
                    ),
                    Option::None => Option::None,
                }
            } else {
                Option::None
            }
        },
        _ => Option::None,
    }
}

/// The diagnostic a JSON object denotes, when it denotes one; the optional
/// fields may be absent or `null`, for compatibility with older producers.
pub open spec fn verr_of_jsonv(v: JsonV) -> Option<ValidationErrorV> {
    match (
        body_uint(v, "line"@),
        body_str(v, "message"@),
        body_str(v, "severity"@),
        body_opt_usize(v, "column"@),
        body_opt_str(v, "file"@),
        body_opt_str(v, "category"@),
        body_opt_str(v, "help_text"@),
    ) {
        (
            Option::Some(line),
            Option::Some(message),
            Option::Some(severity),
            Option::Some(column),
            Option::Some(file),
            Option::Some(category),
            Option::Some(help_text),
        ) => if line <= usize::MAX as u64 {
            Option::Some(
                ValidationErrorV {
                    line: line as usize,
                    message,
                    severity,
                    column,
                    file,
                    category,
                    help_text,
                },
            )
        } else {
            Option::None
        },
        _ => Option::None,
    }
}

/// The strings of an array of JSON string nodes, from `i` on.
pub open spec fn strs_of_jsonv(arr: Seq<JsonV>, i: int) -> Option<Seq<Seq<char>>>
    decreases arr.len() - i,
{
    if i < 0 || i > arr.len() {
        Option::None
    } else if i == arr.len() {
        Option::Some(Seq::empty())
    } else {
        match arr[i] {
            JsonV::Str(s) => match strs_of_jsonv(arr, i + 1) {
                Option::Some(rest) => Option::Some(seq![s] + rest),
                Option::None => Option::None,
            },
            _ => Option::None,
        }
    }
}

/// The diagnostics of an array of JSON objects, from `i` on.
pub open spec fn verrs_of_jsonv(arr: Seq<JsonV>, i: int) -> Option<Seq<ValidationErrorV>>
    decreases arr.len() - i,
{
    if i < 0 || i > arr.len() {
        Option::None
    } else if i == arr.len() {
        Option::Some(Seq::empty())
    } else {
        match verr_of_jsonv(arr[i]) {
            Option::Some(e) => match verrs_of_jsonv(arr, i + 1) {
                Option::Some(rest) => Option::Some(seq![e] + rest),
                Option::None => Option::None,
            },
            Option::None => Option::None,
        }
    }
}

/// The server message a JSON document denotes, when it denotes one.
pub open spec fn server_msg_of_jsonv(v: JsonV) -> Option<ServerMessageV> {
    match v {
        JsonV::Obj(top) => if top.len() != 1 {
            Option::None
        } else {
            let tag = top[0].0;
            let body = top[0].1;
            if tag == "LayerChange"@ {
                match body_str(body, "new"@) {
                    Option::Some(new) => Option::Some(ServerMessageV::LayerChange { new }),
                    Option::None => Option::None,
                }
            } else if tag == "LayerNames"@ {
                match body {
                    JsonV::Obj(f) => match obj_get(f, "names"@) {
                        Option::Some(JsonV::Arr(items)) => match strs_of_jsonv(items, 0) {
                            Option::Some(names) => Option::Some(
                                ServerMessageV::LayerNames { names },
                            ),
                            Option::None => Option::None,
                        },
                        _ => Option::None,
                    },
                    _ => Option::None,
                }
            } else if tag == "CurrentLayerInfo"@ {
                match (body_str(body, "name"@), body_str(body, "cfg_text"@)) {
                    (Option::Some(name), Option::Some(cfg_text)) => Option::Some(
                        ServerMessageV::CurrentLayerInfo { name, cfg_text },
                    ),
                    _ => Option::None,
                }
            } else if tag == "ConfigFileReload"@ {
                match body_str(body, "new"@) {
                    Option::Some(new) => Option::Some(ServerMessageV::ConfigFileReload { new }),
                    Option::None => Option::None,
                }
            } else if tag == "CurrentLayerName"@ {
                match body_str(body, "name"@) {
                    Option::Some(name) => Option::Some(ServerMessageV::CurrentLayerName { name }),
                    Option::None => Option::None,
                }
            } else if tag == "MessagePush"@ {
                match body {
                    JsonV::Obj(f) => match obj_get(f, "message"@) {
                        Option::Some(message) => Option::Some(
                            ServerMessageV::MessagePush { message },
                        ),
                        Option::None => Option::None,
                    },
                    _ => Option::None,
                }
            } else if tag == "Error"@ {
                match body_str(body, "msg"@) {
                    Option::Some(msg) => Option::Some(ServerMessageV::Error { msg }),
                    Option::None => Option::None,
                }
            } else if tag == "ValidationResult"@ {
                match body {
                    JsonV::Obj(f) => match (
                        obj_get(f, "errors"@),
                        obj_get(f, "warnings"@),
                        body_bool(body, "success"@),
                        body_uint(body, "error_count"@),
                        body_uint(body, "warning_count"@),
                        body_opt_str(body, "request_id"@),
                    ) {
                        (
                            Option::Some(JsonV::Arr(ea)),
                            Option::Some(JsonV::Arr(wa)),
                            Option::Some(success),
                            Option::Some(ec),
                            Option::Some(wc),
                            Option::Some(request_id),
                        ) => match (verrs_of_jsonv(ea, 0), verrs_of_jsonv(wa, 0)) {
                            (Option::Some(errors), Option::Some(warnings)) => if ec
                                <= usize::MAX as u64 && wc <= usize::MAX as u64 {
                                Option::Some(
                                    ServerMessageV::ValidationResult {
                                        success,
                                        errors,
                                        warnings,
                                        error_count: ec as usize,
                                        warning_count: wc as usize,
                                        request_id,
                                    },
                                )
                            } else {
                                Option::None
                            },
                            _ => Option::None,
                        },
                        _ => Option::None,
                    },
                    _ => Option::None,
                }
            } else {
                Option::None
            }
        },
        _ => Option::None,
    }
}

/// One client message parsed from the byte stream at `i`: leading
/// whitespace, one JSON document, and its reading as a message. A document
/// that is not a client message makes the stream malformed.
pub open spec fn sp_client_msg(s: Seq<u8>, i: int) -> Parsed<ClientMessageV> {
    match sp_doc(s, i) {
        Parsed::Val(v, p) => match client_msg_of_jsonv(v) {
            Option::Some(m) => Parsed::Val(m, p),
            Option::None => Parsed::Bad,
        },
        Parsed::More => Parsed::More,
        Parsed::Bad => Parsed::Bad,
    }
}

/// One server message parsed from the byte stream at `i`.
pub open spec fn sp_server_msg(s: Seq<u8>, i: int) -> Parsed<ServerMessageV> {
    match sp_doc(s, i) {
        Parsed::Val(v, p) => match server_msg_of_jsonv(v) {
            Option::Some(m) => Parsed::Val(m, p),
            Option::None => Parsed::Bad,
        },
        Parsed::More => Parsed::More,
        Parsed::Bad => Parsed::Bad,
    }
}

/// String equality by bytes; two `&str` are equal exactly when their
/// character sequences are.
pub(crate) fn str_is(a: &str, b: &str) -> (r: bool)
    ensures
        r == (a@ == b@),
{
    let ab = a.as_bytes();
    let bb = b.as_bytes();
    if ab.len() != bb.len() {
        proof {
            if a@ == b@ {
                assert(encode_utf8(a@) == encode_utf8(b@));
            }
        }
        return false;
    }
    let n = ab.len();
    let mut i: usize = 0;
    while i < n
        invariant
            i <= n,
            n == ab@.len() == bb@.len(),
            ab@ == encode_utf8(a@),
            bb@ == encode_utf8(b@),
            forall|k: int| 0 <= k < i ==> ab@[k] == bb@[k],
        decreases n - i,
    {
        if ab[i] != bb[i] {
            proof {
                if a@ == b@ {
                    assert(encode_utf8(a@) == encode_utf8(b@));
                }
            }
            return false;
        }
        i = i + 1;
    }
    proof {
        assert(ab@ =~= bb@);
        encode_utf8_decode_utf8(a@);
        encode_utf8_decode_utf8(b@);
        assert(a@ == b@);
    }
    true
}

/// Looks a field up by name: the first field so named, as `obj_get`.
fn get_field<'a>(fields: &'a Vec<(String, Json)>, name: &str) -> (r: Option<&'a Json>)
    ensures
        (match r {
            Option::Some(x) => obj_get(json_fields_view(fields@), name@) == Option::Some(
                json_view(*x),
            ),
            Option::None => obj_get(json_fields_view(fields@), name@) is None,
        }),
{
    let ghost fv = json_fields_view(fields@);
    proof {
        lemma_json_fields_view_len(fields@);
    }
    let n = fields.len();
    let mut i: usize = 0;
    while i < n
        invariant
            i <= n,
            n == fields@.len(),
            fv == json_fields_view(fields@),
            fv.len() == n,
            forall|k: int| 0 <= k < n ==> fv[k] == (fields@[k].0@, json_view(fields@[k].1)),
            obj_get_from(fv, name@, 0) == obj_get_from(fv, name@, i as int),
        decreases n - i,
    {
        if str_is(fields[i].0.as_str(), name) {
            return Option::Some(&fields[i].1);
        }
        i = i + 1;
    }
    Option::None
}


/// A required string field, as `body_str`.
fn read_str_field(body: &Json, name: &str) -> (r: Option<String>)
    ensures
        (match r {
            Option::Some(s) => body_str(body@, name@) == Option::Some(s@),
            Option::None => body_str(body@, name@) is None,
        }),
{
    match body {
        Json::Obj(f) => match get_field(f, name) {
            Option::Some(x) => match x {
                Json::Str(s) => Option::Some(s.clone()),
                _ => Option::None,
            },
            Option::None => Option::None,
        },
        _ => Option::None,
    }
}

/// An optional string field, as `body_opt_str`.
fn read_opt_str_field(body: &Json, name: &str) -> (r: Option<Option<String>>)
    ensures
        (match r {
            Option::Some(o) => body_opt_str(body@, name@) == Option::Some(opt_str_view(o)),
            Option::None => body_opt_str(body@, name@) is None,
        }),
{
    match body {
        Json::Obj(f) => match get_field(f, name) {
            Option::Some(x) => match x {
                Json::Str(s) => Option::Some(Option::Some(s.clone())),
                Json::Null => Option::Some(Option::None),
                _ => Option::None,
            },
            Option::None => Option::Some(Option::None),
        },
        _ => Option::None,
    }
}

/// A required unsigned-integer field, as `body_uint`.
fn read_uint_field(body: &Json, name: &str) -> (r: Option<u64>)
    ensures
        r == body_uint(body@, name@),
{
    match body {
        Json::Obj(f) => match get_field(f, name) {
            Option::Some(x) => match x {
                Json::UInt(n) => Option::Some(*n),
                _ => Option::None,
            },
            Option::None => Option::None,
        },
        _ => Option::None,
    }
}

/// A required boolean field, as `body_bool`.
fn read_bool_field(body: &Json, name: &str) -> (r: Option<bool>)
    ensures
        r == body_bool(body@, name@),
{
    match body {
        Json::Obj(f) => match get_field(f, name) {
            Option::Some(x) => match x {
                Json::Bool(b) => Option::Some(*b),
                _ => Option::None,
            },
            Option::None => Option::None,
        },
        _ => Option::None,
    }
}

/// An optional count field, as `body_opt_usize`.
fn read_opt_usize_field(body: &Json, name: &str) -> (r: Option<Option<usize>>)
    ensures
        r == body_opt_usize(body@, name@),
{
    match body {
        Json::Obj(f) => match get_field(f, name) {
            Option::Some(x) => match x {
                Json::UInt(n) => if *n <= usize::MAX as u64 {
                    Option::Some(Option::Some(*n as usize))
                } else {
                    Option::None
                },
                Json::Null => Option::Some(Option::None),
                _ => Option::None,
            },
            Option::None => Option::Some(Option::None),
        },
        _ => Option::None,
    }
}

/// True when the document is an object.
fn is_obj(j: &Json) -> (r: bool)
    ensures
        r == (j@ is Obj),
{
    match j {
        Json::Obj(_) => true,
        _ => false,
    }
}

/// The client message a parsed document denotes, or nothing.
#[verifier::rlimit(60)]
pub fn client_message_from_json(j: &Json) -> (r: Option<ClientMessage>)
    ensures
        (match r {
            Option::Some(m) => client_msg_of_jsonv(j@) == Option::Some(m@),
            Option::None => client_msg_of_jsonv(j@) is None,
        }),
{
    let top = match j {
        Json::Obj(top) => top,
        _ => {
            return Option::None;
        },
    };
    proof {
        lemma_json_fields_view_len(top@);
    }
    if top.len() != 1 {
        return Option::None;
    }
    let tag = &top[0].0;
    let body = &top[0].1;
    if str_is(tag.as_str(), "ChangeLayer") {
        match read_str_field(body, "new") {
            Option::Some(new) => Option::Some(ClientMessage::ChangeLayer { new }),
            Option::None => Option::None,
        }
    } else if str_is(tag.as_str(), "RequestLayerNames") {
        if is_obj(body) {
            Option::Some(ClientMessage::RequestLayerNames {})
        } else {
            Option::None
        }
    } else if str_is(tag.as_str(), "RequestCurrentLayerInfo") {
        if is_obj(body) {
            Option::Some(ClientMessage::RequestCurrentLayerInfo {})
        } else {
            Option::None
        }
    } else if str_is(tag.as_str(), "RequestCurrentLayerName") {
        if is_obj(body) {
            Option::Some(ClientMessage::RequestCurrentLayerName {})
        } else {
            Option::None
        }
    } else if str_is(tag.as_str(), "ActOnFakeKey") {
        let name = read_str_field(body, "name");
        let a = read_str_field(body, "action");
        match (name, a) {
            (Option::Some(name), Option::Some(a)) => {
                let action = if str_is(a.as_str(), "Press") {
                    Option::Some(FakeKeyActionMessage::Press)
                } else if str_is(a.as_str(), "Release") {
                    Option::Some(FakeKeyActionMessage::Release)
                } else if str_is(a.as_str(), "Tap") {
                    Option::Some(FakeKeyActionMessage::Tap)
                } else if str_is(a.as_str(), "Toggle") {
                    Option::Some(FakeKeyActionMessage::Toggle)
                } else {
                    Option::None
                };
                proof {
                    assert(action_of(a@) == (match action {
                        Option::Some(x) => Option::Some(x),
                        Option::None => Option::<FakeKeyActionMessage>::None,
                    }));
                }
                match action {
                    Option::Some(action) => Option::Some(
                        ClientMessage::ActOnFakeKey { name, action },
                    ),
                    Option::None => Option::None,
                }
            },
            _ => Option::None,
        }
    } else if str_is(tag.as_str(), "SetMouse") {
        let x = read_uint_field(body, "x");
        let y = read_uint_field(body, "y");
        match (x, y) {
            (Option::Some(x), Option::Some(y)) => if x <= 0xffff && y <= 0xffff {
                Option::Some(ClientMessage::SetMouse { x: x as u16, y: y as u16 })
            } else {
                Option::None
            },
            _ => Option::None,
        }
    } else if str_is(tag.as_str(), "Reload") {
        if is_obj(body) {
            Option::Some(ClientMessage::Reload {})
        } else {
            Option::None
        }
    } else if str_is(tag.as_str(), "ReloadNext") {
        if is_obj(body) {
            Option::Some(ClientMessage::ReloadNext {})
        } else {
            Option::None
        }
    } else if str_is(tag.as_str(), "ReloadPrev") {
        if is_obj(body) {
            Option::Some(ClientMessage::ReloadPrev {})
        } else {
            Option::None
        }
    } else if str_is(tag.as_str(), "ReloadNum") {
        match read_uint_field(body, "index") {
            Option::Some(n) => if n <= usize::MAX as u64 {
                Option::Some(ClientMessage::ReloadNum { index: n as usize })
            } else {
                Option::None
            },
            Option::None => Option::None,
        }
    } else if str_is(tag.as_str(), "ReloadFile") {
        match read_str_field(body, "path") {
            Option::Some(path) => Option::Some(ClientMessage::ReloadFile { path }),
            Option::None => Option::None,
        }
    } else if str_is(tag.as_str(), "ValidateConfig") {
        let c = read_str_field(body, "config_content");
        let rid = read_opt_str_field(body, "request_id");
        match (c, rid) {
            (Option::Some(config_content), Option::Some(request_id)) => Option::Some(
                ClientMessage::ValidateConfig { config_content, request_id },
            ),
            _ => Option::None,
        }
    } else if str_is(tag.as_str(), "SetSessionMode") {
        match read_bool_field(body, "quiet") {
            Option::Some(quiet) => Option::Some(ClientMessage::SetSessionMode { quiet }),
            Option::None => Option::None,
        }
    } else {
        Option::None
    }
}

/// The diagnostic a JSON object denotes, or nothing.
pub fn validation_error_from_json(j: &Json) -> (r: Option<ValidationError>)
    ensures
        (match r {
            Option::Some(e) => verr_of_jsonv(j@) == Option::Some(e@),
            Option::None => verr_of_jsonv(j@) is None,
        }),
{
    let line = read_uint_field(j, "line");
    let message = read_str_field(j, "message");
    let severity = read_str_field(j, "severity");
    let column = read_opt_usize_field(j, "column");
    let file = read_opt_str_field(j, "file");
    let category = read_opt_str_field(j, "category");
    let help_text = read_opt_str_field(j, "help_text");
    match (line, message, severity, column, file, category, help_text) {
        (
            Option::Some(line),
            Option::Some(message),
            Option::Some(severity),
            Option::Some(column),
            Option::Some(file),
            Option::Some(category),
            Option::Some(help_text),
        ) => if line <= usize::MAX as u64 {
            Option::Some(
                ValidationError {
                    line: line as usize,
                    message,
                    severity,
                    column,
                    file,
                    category,
                    help_text,
                },
            )
        } else {
            Option::None
        },
        _ => Option::None,
    }
}

/// The strings of an array of JSON string nodes, or nothing.
fn strings_from_json(items: &Vec<Json>) -> (r: Option<Vec<String>>)
    ensures
        (match r {
            Option::Some(v) => strs_of_jsonv(json_seq_view(items@), 0) == Option::Some(
                strings_view(v@),
            ),
            Option::None => strs_of_jsonv(json_seq_view(items@), 0) is None,
        }),
{
    let ghost iv = json_seq_view(items@);
    proof {
        lemma_json_seq_view_len(items@);
    }
    let n = items.len();
    let mut out: Vec<String> = Vec::new();
    let mut i: usize = 0;
    proof {
        assert(strings_view(out@) =~= Seq::<Seq<char>>::empty());
    }
    while i < n
        invariant
            i <= n,
            n == items@.len(),
            iv == json_seq_view(items@),
            iv.len() == n,
            forall|k: int| 0 <= k < n ==> iv[k] == json_view(items@[k]),
            out@.len() == i,
            (match strs_of_jsonv(iv, 0) {
                Option::Some(all) => strs_of_jsonv(iv, i as int) is Some,
                Option::None => true,
            }),
            (forall|rest: Seq<Seq<char>>|
                strs_of_jsonv(iv, i as int) == Option::Some(rest) ==> strs_of_jsonv(iv, 0)
                    == Option::Some(strings_view(out@) + rest)),
        decreases n - i,
    {
        match &items[i] {
            Json::Str(st) => {
                let ghost pre = out@;
                out.push(st.clone());
                proof {
                    assert(out@.drop_last() =~= pre);
                    assert(strings_view(out@) =~= strings_view(pre).push(st@));
                    assert(forall|rest: Seq<Seq<char>>|
                        strs_of_jsonv(iv, i + 1) == Option::Some(rest) ==> strs_of_jsonv(
                            iv,
                            i as int,
                        ) == Option::Some(seq![st@] + rest));
                    assert(forall|rest: Seq<Seq<char>>|
                        strs_of_jsonv(iv, i + 1) == Option::Some(rest) ==> strings_view(pre) + (
                        seq![st@] + rest) =~= strings_view(out@) + rest);
                }
                i = i + 1;
            },
            _ => {
                proof {
                    assert(strs_of_jsonv(iv, i as int) is None);
                    lemma_strs_of_prefix_none(iv, i as int);
                }
                return Option::None;
            },
        }
    }
    proof {
        assert(strs_of_jsonv(iv, n as int) == Option::Some(Seq::<Seq<char>>::empty()));
        assert(strings_view(out@) + Seq::<Seq<char>>::empty() =~= strings_view(out@));
    }
    Option::Some(out)
}

/// When parsing fails at `i`, it fails from the start as well.
proof fn lemma_strs_of_prefix_none(arr: Seq<JsonV>, i: int)
    requires
        0 <= i <= arr.len(),
        strs_of_jsonv(arr, i) is None,
    ensures
        strs_of_jsonv(arr, 0) is None,
    decreases i,
{
    if i > 0 {
        assert(strs_of_jsonv(arr, i - 1) is None);
        lemma_strs_of_prefix_none(arr, i - 1);
    }
}

/// When parsing diagnostics fails at `i`, it fails from the start as well.
proof fn lemma_verrs_of_prefix_none(arr: Seq<JsonV>, i: int)
    requires
        0 <= i <= arr.len(),
        verrs_of_jsonv(arr, i) is None,
    ensures
        verrs_of_jsonv(arr, 0) is None,
    decreases i,
{
    if i > 0 {
        assert(verrs_of_jsonv(arr, i - 1) is None);
        lemma_verrs_of_prefix_none(arr, i - 1);
    }
}

/// The diagnostics of an array of JSON objects, or nothing.
fn verrs_from_json(items: &Vec<Json>) -> (r: Option<Vec<ValidationError>>)
    ensures
        (match r {
            Option::Some(v) => verrs_of_jsonv(json_seq_view(items@), 0) == Option::Some(
                verrs_view(v@),
            ),
            Option::None => verrs_of_jsonv(json_seq_view(items@), 0) is None,
        }),
{
    let ghost iv = json_seq_view(items@);
    proof {
        lemma_json_seq_view_len(items@);
    }
    let n = items.len();
    let mut out: Vec<ValidationError> = Vec::new();
    let mut i: usize = 0;
    proof {
        assert(verrs_view(out@) =~= Seq::<ValidationErrorV>::empty());
    }
    while i < n
        invariant
            i <= n,
            n == items@.len(),
            iv == json_seq_view(items@),
            iv.len() == n,
            forall|k: int| 0 <= k < n ==> iv[k] == json_view(items@[k]),
            out@.len() == i,
            (forall|rest: Seq<ValidationErrorV>|
                verrs_of_jsonv(iv, i as int) == Option::Some(rest) ==> verrs_of_jsonv(iv, 0)
                    == Option::Some(verrs_view(out@) + rest)),
            (verrs_of_jsonv(iv, i as int) is None ==> verrs_of_jsonv(iv, 0) is None),
        decreases n - i,
    {
        match validation_error_from_json(&items[i]) {
            Option::Some(e) => {
                let ghost ev = e@;
                let ghost pre = out@;
                out.push(e);
                proof {
                    assert(out@.drop_last() =~= pre);
                    assert(verrs_view(out@) =~= verrs_view(pre).push(ev));
                    assert(forall|rest: Seq<ValidationErrorV>|
                        verrs_of_jsonv(iv, i + 1) == Option::Some(rest) ==> verrs_of_jsonv(
                            iv,
                            i as int,
                        ) == Option::Some(seq![ev] + rest));
                    assert(forall|rest: Seq<ValidationErrorV>|
                        verrs_of_jsonv(iv, i + 1) == Option::Some(rest) ==> verrs_view(pre) + (
                        seq![ev] + rest) =~= verrs_view(out@) + rest);
                }
                i = i + 1;
            },
            Option::None => {
                proof {
                    assert(verrs_of_jsonv(iv, i as int) is None);
                }
                return Option::None;
            },
        }
    }
    proof {
        assert(verrs_of_jsonv(iv, n as int) == Option::Some(Seq::<ValidationErrorV>::empty()));
        assert(verrs_view(out@) + Seq::<ValidationErrorV>::empty() =~= verrs_view(out@));
    }
    Option::Some(out)
}

/// The server message a parsed document denotes, or nothing.
#[verifier::rlimit(60)]
pub fn server_message_from_json(j: &Json) -> (r: Option<ServerMessage>)
    ensures
        (match r {
            Option::Some(m) => server_msg_of_jsonv(j@) == Option::Some(m@),
            Option::None => server_msg_of_jsonv(j@) is None,
        }),
{
    let top = match j {
        Json::Obj(top) => top,
        _ => {
            return Option::None;
        },
    };
    proof {
        lemma_json_fields_view_len(top@);
    }
    if top.len() != 1 {
        return Option::None;
    }
    let tag = &top[0].0;
    let body = &top[0].1;
    if str_is(tag.as_str(), "LayerChange") {
        match read_str_field(body, "new") {
            Option::Some(new) => Option::Some(ServerMessage::LayerChange { new }),
            Option::None => Option::None,
        }
    } else if str_is(tag.as_str(), "LayerNames") {
        match body {
            Json::Obj(f) => match get_field(f, "names") {
                Option::Some(x) => match x {
                    Json::Arr(items) => match strings_from_json(items) {
                        Option::Some(names) => Option::Some(ServerMessage::LayerNames { names }),
                        Option::None => Option::None,
                    },
                    _ => Option::None,
                },
                Option::None => Option::None,
            },
            _ => Option::None,
        }
    } else if str_is(tag.as_str(), "CurrentLayerInfo") {
        let name = read_str_field(body, "name");
        let cfg_text = read_str_field(body, "cfg_text");
        match (name, cfg_text) {
            (Option::Some(name), Option::Some(cfg_text)) => Option::Some(
                ServerMessage::CurrentLayerInfo { name, cfg_text },
            ),
            _ => Option::None,
        }
    } else if str_is(tag.as_str(), "ConfigFileReload") {
        match read_str_field(body, "new") {
            Option::Some(new) => Option::Some(ServerMessage::ConfigFileReload { new }),
            Option::None => Option::None,
        }
    } else if str_is(tag.as_str(), "CurrentLayerName") {
        match read_str_field(body, "name") {
            Option::Some(name) => Option::Some(ServerMessage::CurrentLayerName { name }),
            Option::None => Option::None,
        }
    } else if str_is(tag.as_str(), "MessagePush") {
        match body {
            Json::Obj(f) => match get_field(f, "message") {
                Option::Some(x) => Option::Some(
                    ServerMessage::MessagePush { message: json_ref_copy(x) },
                ),
                Option::None => Option::None,
            },
            _ => Option::None,
        }
    } else if str_is(tag.as_str(), "Error") {
        match read_str_field(body, "msg") {
            Option::Some(msg) => Option::Some(ServerMessage::Error { msg }),
            Option::None => Option::None,
        }
    } else if str_is(tag.as_str(), "ValidationResult") {
        match body {
            Json::Obj(f) => {
                let ea = match get_field(f, "errors") {
                    Option::Some(x) => match x {
                        Json::Arr(items) => Option::Some(items),
                        _ => {
                            return Option::None;
                        },
                    },
                    Option::None => {
                        return Option::None;
                    },
                };
                let wa = match get_field(f, "warnings") {
                    Option::Some(x) => match x {
                        Json::Arr(items) => Option::Some(items),
                        _ => {
                            return Option::None;
                        },
                    },
                    Option::None => {
                        return Option::None;
                    },
                };
                let success = read_bool_field(body, "success");
                let ec = read_uint_field(body, "error_count");
                let wc = read_uint_field(body, "warning_count");
                let rid = read_opt_str_field(body, "request_id");
                match (ea, wa, success, ec, wc, rid) {
                    (
                        Option::Some(ea),
                        Option::Some(wa),
                        Option::Some(success),
                        Option::Some(ec),
                        Option::Some(wc),
                        Option::Some(request_id),
                    ) => {
                        let errors = match verrs_from_json(ea) {
                            Option::Some(v) => v,
                            Option::None => {
                                return Option::None;
                            },
                        };
                        let warnings = match verrs_from_json(wa) {
                            Option::Some(v) => v,
                            Option::None => {
                                return Option::None;
                            },
                        };
                        if ec <= usize::MAX as u64 && wc <= usize::MAX as u64 {
                            Option::Some(
                                ServerMessage::ValidationResult {
                                    success,
                                    errors,
                                    warnings,
                                    error_count: ec as usize,
                                    warning_count: wc as usize,
                                    request_id,
                                },
                            )
                        } else {
                            Option::None
                        }
                    },
                    _ => Option::None,
                }
            },
            _ => Option::None,
        }
    } else {
        Option::None
    }
}

/// Parses one client message from the stream at `start`.
pub fn parse_client_message(s: &[u8], start: usize) -> (r: Step<ClientMessage>)
    requires
        start <= s@.len(),
    ensures
        step_matches(r, sp_client_msg(s@, start as int)),
        step_in_range(r, start as int, s@.len() as int),
{
    match parse_json_doc(s, start) {
        Step::NeedMore => Step::NeedMore,
        Step::Malformed => Step::Malformed,
        Step::Done(doc, p) => match client_message_from_json(&doc) {
            Option::Some(m) => Step::Done(m, p),
            Option::None => Step::Malformed,
        },
    }
}

/// Parses one server message from the stream at `start`.
pub fn parse_server_message(s: &[u8], start: usize) -> (r: Step<ServerMessage>)
    requires
        start <= s@.len(),
    ensures
        step_matches(r, sp_server_msg(s@, start as int)),
        step_in_range(r, start as int, s@.len() as int),
{
    match parse_json_doc(s, start) {
        Step::NeedMore => Step::NeedMore,
        Step::Malformed => Step::Malformed,
        Step::Done(doc, p) => match server_message_from_json(&doc) {
            Option::Some(m) => Step::Done(m, p),
            Option::None => Step::Malformed,
        },
    }
}


/// A rendered client message always reads back as itself: the JSON document
/// `client_msg_jsonv` produces denotes exactly the message it came from.
#[verifier::rlimit(100)]
pub proof fn lemma_client_msg_round_trip(m: ClientMessageV)
    ensures
        client_msg_of_jsonv(client_msg_jsonv(m)) == Option::Some(m),
{
    broadcast use vstd::string::group_string_axioms;

    reveal_strlit("ChangeLayer");
    reveal_strlit("RequestLayerNames");
    reveal_strlit("RequestCurrentLayerInfo");
    reveal_strlit("RequestCurrentLayerName");
    reveal_strlit("ActOnFakeKey");
    reveal_strlit("SetMouse");
    reveal_strlit("Reload");
    reveal_strlit("ReloadNext");
    reveal_strlit("ReloadPrev");
    reveal_strlit("ReloadNum");
    reveal_strlit("ReloadFile");
    reveal_strlit("ValidateConfig");
    reveal_strlit("SetSessionMode");
    reveal_strlit("new");
    reveal_strlit("name");
    reveal_strlit("action");
    reveal_strlit("x");
    reveal_strlit("y");
    reveal_strlit("index");
    reveal_strlit("path");
    reveal_strlit("config_content");
    reveal_strlit("request_id");
    reveal_strlit("quiet");
    reveal_strlit("Press");
    reveal_strlit("Release");
    reveal_strlit("Tap");
    reveal_strlit("Toggle");
    // The variant and field names are pairwise distinct: most by length,
    // the equal-length pairs by one differing character.
    assert("ChangeLayer"@.len() == 11);
    assert("RequestLayerNames"@.len() == 17);
    assert("RequestCurrentLayerInfo"@.len() == 23);
    assert("RequestCurrentLayerName"@.len() == 23);
    assert("ActOnFakeKey"@.len() == 12);
    assert("SetMouse"@.len() == 8);
    assert("Reload"@.len() == 6);
    assert("ReloadNext"@.len() == 10);
    assert("ReloadPrev"@.len() == 10);
    assert("ReloadNum"@.len() == 9);
    assert("ReloadFile"@.len() == 10);
    assert("ValidateConfig"@.len() == 14);
    assert("SetSessionMode"@.len() == 14);
    assert("RequestCurrentLayerInfo"@[19] == 'I');
    assert("RequestCurrentLayerName"@[19] == 'N');
    assert("ReloadNext"@[6] == 'N');
    assert("ReloadPrev"@[6] == 'P');
    assert("ReloadFile"@[6] == 'F');
    assert("ValidateConfig"@[0] == 'V');
    assert("SetSessionMode"@[0] == 'S');
    assert("new"@.len() == 3);
    assert("name"@.len() == 4);
    assert("action"@.len() == 6);
    assert("x"@.len() == 1);
    assert("y"@.len() == 1);
    assert("x"@[0] == 'x');
    assert("y"@[0] == 'y');
    assert("index"@.len() == 5);
    assert("path"@.len() == 4);
    assert("config_content"@.len() == 14);
    assert("request_id"@.len() == 10);
    assert("quiet"@.len() == 5);
    assert("Press"@.len() == 5);
    assert("Release"@.len() == 7);
    assert("Tap"@.len() == 3);
    assert("Toggle"@.len() == 6);
    match m {
        ClientMessageV::ActOnFakeKey { name, action } => {
            match action {
                FakeKeyActionMessage::Press => {
                    assert(action_of(action_name(action)) == Option::Some(action));
                },
                FakeKeyActionMessage::Release => {
                    assert(action_of(action_name(action)) == Option::Some(action));
                },
                FakeKeyActionMessage::Tap => {
                    assert(action_of(action_name(action)) == Option::Some(action));
                },
                FakeKeyActionMessage::Toggle => {
                    assert(action_of(action_name(action)) == Option::Some(action));
                },
            }
            let body = JsonV::Obj(
                seq![("name"@, JsonV::Str(name)), ("action"@, JsonV::Str(action_name(action)))],
            );
            assert(client_msg_jsonv(m) == tagged("ActOnFakeKey"@, body));
            assert(body_str(body, "name"@) == Option::Some(name));
            assert(obj_get_from(
                seq![("name"@, JsonV::Str(name)), ("action"@, JsonV::Str(action_name(action)))],
                "action"@,
                1,
            ) == Option::Some(JsonV::Str(action_name(action))));
            assert(body_str(body, "action"@) == Option::Some(action_name(action)));
            assert(client_msg_of_jsonv(client_msg_jsonv(m)) == Option::Some(m));
        },
        ClientMessageV::ChangeLayer { new } => {
            assert(client_msg_of_jsonv(client_msg_jsonv(m)) == Option::Some(m));
        },
        ClientMessageV::RequestLayerNames => {
            assert(client_msg_of_jsonv(client_msg_jsonv(m)) == Option::Some(m));
        },
        ClientMessageV::RequestCurrentLayerInfo => {
            assert(client_msg_of_jsonv(client_msg_jsonv(m)) == Option::Some(m));
        },
        ClientMessageV::RequestCurrentLayerName => {
            assert(client_msg_of_jsonv(client_msg_jsonv(m)) == Option::Some(m));
        },
        ClientMessageV::SetMouse { x, y } => {
            let body = JsonV::Obj(
                seq![("x"@, JsonV::UInt(x as u64)), ("y"@, JsonV::UInt(y as u64))],
            );
            assert(client_msg_jsonv(m) == tagged("SetMouse"@, body));
            assert(body_uint(body, "x"@) == Option::Some(x as u64));
            assert(obj_get_from(
                seq![("x"@, JsonV::UInt(x as u64)), ("y"@, JsonV::UInt(y as u64))],
                "y"@,
                1,
            ) == Option::Some(JsonV::UInt(y as u64)));
            assert(body_uint(body, "y"@) == Option::Some(y as u64));
            assert(client_msg_of_jsonv(client_msg_jsonv(m)) == Option::Some(m));
        },
        ClientMessageV::Reload => {
            assert(client_msg_of_jsonv(client_msg_jsonv(m)) == Option::Some(m));
        },
        ClientMessageV::ReloadNext => {
            assert(client_msg_of_jsonv(client_msg_jsonv(m)) == Option::Some(m));
        },
        ClientMessageV::ReloadPrev => {
            assert(client_msg_of_jsonv(client_msg_jsonv(m)) == Option::Some(m));
        },
        ClientMessageV::ReloadNum { index } => {
            assert(client_msg_of_jsonv(client_msg_jsonv(m)) == Option::Some(m));
        },
        ClientMessageV::ReloadFile { path } => {
            assert(client_msg_of_jsonv(client_msg_jsonv(m)) == Option::Some(m));
        },
        ClientMessageV::ValidateConfig { config_content, request_id } => {
            match request_id {
                Option::Some(id) => {
                    let body = JsonV::Obj(
                        seq![
                            ("config_content"@, JsonV::Str(config_content)),
                            ("request_id"@, JsonV::Str(id)),
                        ],
                    );
                    assert(seq![("config_content"@, JsonV::Str(config_content))].push(
                        ("request_id"@, JsonV::Str(id)),
                    ) =~= seq![
                        ("config_content"@, JsonV::Str(config_content)),
                        ("request_id"@, JsonV::Str(id)),
                    ]);
                    assert(client_msg_jsonv(m) == tagged("ValidateConfig"@, body));
                    assert(body_str(body, "config_content"@) == Option::Some(config_content));
                    assert(obj_get_from(
                        seq![
                            ("config_content"@, JsonV::Str(config_content)),
                            ("request_id"@, JsonV::Str(id)),
                        ],
                        "request_id"@,
                        1,
                    ) == Option::Some(JsonV::Str(id)));
                    assert(body_opt_str(body, "request_id"@) == Option::Some(
                        Option::Some(id),
                    ));
                },
                Option::None => {
                    let body = JsonV::Obj(seq![("config_content"@, JsonV::Str(config_content))]);
                    assert(client_msg_jsonv(m) == tagged("ValidateConfig"@, body));
                    assert(body_str(body, "config_content"@) == Option::Some(config_content));
                    assert(obj_get_from(
                        seq![("config_content"@, JsonV::Str(config_content))],
                        "request_id"@,
                        1,
                    ) is None);
                    assert(body_opt_str(body, "request_id"@) == Option::Some(
                        Option::<Seq<char>>::None,
                    ));
                },
            }
            assert(client_msg_of_jsonv(client_msg_jsonv(m)) == Option::Some(m));
        },
        ClientMessageV::SetSessionMode { quiet } => {
            assert(client_msg_of_jsonv(client_msg_jsonv(m)) == Option::Some(m));
        },
    }
}


/// A missing name skips one field.
proof fn lemma_obj_get_skip(fields: Seq<(Seq<char>, JsonV)>, name: Seq<char>, i: int)
    requires
        0 <= i < fields.len(),
        fields[i].0 != name,
    ensures
        obj_get_from(fields, name, i) == obj_get_from(fields, name, i + 1),
{
}

/// A matching name is found where it stands.
proof fn lemma_obj_get_hit(fields: Seq<(Seq<char>, JsonV)>, name: Seq<char>, i: int)
    requires
        0 <= i < fields.len(),
        fields[i].0 == name,
    ensures
        obj_get_from(fields, name, i) == Option::Some(fields[i].1),
{
}

/// A rendered diagnostic always reads back as itself.
#[verifier::rlimit(100)]
pub proof fn lemma_verr_round_trip(e: ValidationErrorV)
    ensures
        verr_of_jsonv(verr_jsonv(e)) == Option::Some(e),
{
    broadcast use vstd::string::group_string_axioms;

    reveal_strlit("line");
    reveal_strlit("message");
    reveal_strlit("severity");
    reveal_strlit("column");
    reveal_strlit("file");
    reveal_strlit("category");
    reveal_strlit("help_text");
    assert("line"@.len() == 4);
    assert("message"@.len() == 7);
    assert("severity"@.len() == 8);
    assert("column"@.len() == 6);
    assert("file"@.len() == 4);
    assert("category"@.len() == 8);
    assert("help_text"@.len() == 9);
    assert("line"@[0] == 'l');
    assert("file"@[0] == 'f');
    assert("severity"@[0] == 's');
    assert("category"@[0] == 'c');
    let f = seq![
        ("line"@, JsonV::UInt(e.line as u64)),
        ("message"@, JsonV::Str(e.message)),
        ("severity"@, JsonV::Str(e.severity)),
        ("column"@, opt_num_jsonv(e.column)),
        ("file"@, opt_str_jsonv(e.file)),
        ("category"@, opt_str_jsonv(e.category)),
        ("help_text"@, opt_str_jsonv(e.help_text)),
    ];
    assert(verr_jsonv(e) == JsonV::Obj(f));
    lemma_obj_get_hit(f, "line"@, 0);
    lemma_obj_get_skip(f, "message"@, 0);
    lemma_obj_get_hit(f, "message"@, 1);
    lemma_obj_get_skip(f, "severity"@, 0);
    lemma_obj_get_skip(f, "severity"@, 1);
    lemma_obj_get_hit(f, "severity"@, 2);
    lemma_obj_get_skip(f, "column"@, 0);
    lemma_obj_get_skip(f, "column"@, 1);
    lemma_obj_get_skip(f, "column"@, 2);
    lemma_obj_get_hit(f, "column"@, 3);
    lemma_obj_get_skip(f, "file"@, 0);
    lemma_obj_get_skip(f, "file"@, 1);
    lemma_obj_get_skip(f, "file"@, 2);
    lemma_obj_get_skip(f, "file"@, 3);
    lemma_obj_get_hit(f, "file"@, 4);
    lemma_obj_get_skip(f, "category"@, 0);
    lemma_obj_get_skip(f, "category"@, 1);
    lemma_obj_get_skip(f, "category"@, 2);
    lemma_obj_get_skip(f, "category"@, 3);
    lemma_obj_get_skip(f, "category"@, 4);
    lemma_obj_get_hit(f, "category"@, 5);
    lemma_obj_get_skip(f, "help_text"@, 0);
    lemma_obj_get_skip(f, "help_text"@, 1);
    lemma_obj_get_skip(f, "help_text"@, 2);
    lemma_obj_get_skip(f, "help_text"@, 3);
    lemma_obj_get_skip(f, "help_text"@, 4);
    lemma_obj_get_skip(f, "help_text"@, 5);
    lemma_obj_get_hit(f, "help_text"@, 6);
    assert(verr_of_jsonv(verr_jsonv(e)) == Option::Some(e));
}


/// A rendered list of strings always reads back as itself, from `i` on.
proof fn lemma_strs_round_trip(list: Seq<Seq<char>>, i: int)
    requires
        0 <= i <= list.len(),
    ensures
        strs_of_jsonv(strs_jsonv(list), i) == Option::Some(list.skip(i)),
    decreases list.len() - i,
{
    lemma_strs_jsonv(list);
    if i == list.len() {
        assert(list.skip(i) =~= Seq::<Seq<char>>::empty());
    } else {
        lemma_strs_round_trip(list, i + 1);
        assert(seq![list[i]] + list.skip(i + 1) =~= list.skip(i));
    }
}

/// A rendered list of diagnostics always reads back as itself, from `i` on.
proof fn lemma_verrs_round_trip(list: Seq<ValidationErrorV>, i: int)
    requires
        0 <= i <= list.len(),
    ensures
        verrs_of_jsonv(verrs_jsonv(list), i) == Option::Some(list.skip(i)),
    decreases list.len() - i,
{
    lemma_verrs_jsonv(list);
    if i == list.len() {
        assert(list.skip(i) =~= Seq::<ValidationErrorV>::empty());
    } else {
        lemma_verr_round_trip(list[i]);
        lemma_verrs_round_trip(list, i + 1);
        assert(seq![list[i]] + list.skip(i + 1) =~= list.skip(i));
    }
}

/// A rendered server message always reads back as itself: the JSON document
/// `server_msg_jsonv` produces denotes exactly the message it came from.
#[verifier::rlimit(100)]
pub proof fn lemma_server_msg_round_trip(m: ServerMessageV)
    ensures
        server_msg_of_jsonv(server_msg_jsonv(m)) == Option::Some(m),
{
    broadcast use vstd::string::group_string_axioms;

    reveal_strlit("LayerChange");
    reveal_strlit("LayerNames");
    reveal_strlit("CurrentLayerInfo");
    reveal_strlit("ConfigFileReload");
    reveal_strlit("CurrentLayerName");
    reveal_strlit("MessagePush");
    reveal_strlit("Error");
    reveal_strlit("ValidationResult");
    reveal_strlit("new");
    reveal_strlit("names");
    reveal_strlit("name");
    reveal_strlit("cfg_text");
    reveal_strlit("message");
    reveal_strlit("msg");
    reveal_strlit("success");
    reveal_strlit("errors");
    reveal_strlit("warnings");
    reveal_strlit("error_count");
    reveal_strlit("warning_count");
    reveal_strlit("request_id");
    assert("LayerChange"@.len() == 11);
    assert("LayerNames"@.len() == 10);
    assert("CurrentLayerInfo"@.len() == 16);
    assert("ConfigFileReload"@.len() == 16);
    assert("CurrentLayerName"@.len() == 16);
    assert("MessagePush"@.len() == 11);
    assert("Error"@.len() == 5);
    assert("ValidationResult"@.len() == 16);
    assert("LayerChange"@[0] == 'L');
    assert("MessagePush"@[0] == 'M');
    assert("CurrentLayerInfo"@[1] == 'u');
    assert("ConfigFileReload"@[1] == 'o');
    assert("CurrentLayerName"@[1] == 'u');
    assert("CurrentLayerInfo"@[12] == 'I');
    assert("CurrentLayerName"@[12] == 'N');
    assert("ValidationResult"@[0] == 'V');
    assert("CurrentLayerInfo"@[0] == 'C');
    assert("ConfigFileReload"@[0] == 'C');
    assert("CurrentLayerName"@[0] == 'C');
    assert("new"@.len() == 3);
    assert("names"@.len() == 5);
    assert("name"@.len() == 4);
    assert("cfg_text"@.len() == 8);
    assert("message"@.len() == 7);
    assert("msg"@.len() == 3);
    assert("success"@.len() == 7);
    assert("errors"@.len() == 6);
    assert("warnings"@.len() == 8);
    assert("error_count"@.len() == 11);
    assert("warning_count"@.len() == 13);
    assert("request_id"@.len() == 10);
    match m {
        ServerMessageV::LayerChange { new } => {
            assert(server_msg_of_jsonv(server_msg_jsonv(m)) == Option::Some(m));
        },
        ServerMessageV::LayerNames { names } => {
            let f = seq![("names"@, JsonV::Arr(strs_jsonv(names)))];
            assert(server_msg_jsonv(m) == tagged("LayerNames"@, JsonV::Obj(f)));
            lemma_obj_get_hit(f, "names"@, 0);
            lemma_strs_round_trip(names, 0);
            assert(names.skip(0) =~= names);
            assert(server_msg_of_jsonv(server_msg_jsonv(m)) == Option::Some(m));
        },
        ServerMessageV::CurrentLayerInfo { name, cfg_text } => {
            let f = seq![("name"@, JsonV::Str(name)), ("cfg_text"@, JsonV::Str(cfg_text))];
            assert(server_msg_jsonv(m) == tagged("CurrentLayerInfo"@, JsonV::Obj(f)));
            lemma_obj_get_hit(f, "name"@, 0);
            lemma_obj_get_skip(f, "cfg_text"@, 0);
            lemma_obj_get_hit(f, "cfg_text"@, 1);
            assert(server_msg_of_jsonv(server_msg_jsonv(m)) == Option::Some(m));
        },
        ServerMessageV::ConfigFileReload { new } => {
            assert(server_msg_of_jsonv(server_msg_jsonv(m)) == Option::Some(m));
        },
        ServerMessageV::CurrentLayerName { name } => {
            assert(server_msg_of_jsonv(server_msg_jsonv(m)) == Option::Some(m));
        },
        ServerMessageV::MessagePush { message } => {
            let f = seq![("message"@, message)];
            assert(server_msg_jsonv(m) == tagged("MessagePush"@, JsonV::Obj(f)));
            lemma_obj_get_hit(f, "message"@, 0);
            assert(server_msg_of_jsonv(server_msg_jsonv(m)) == Option::Some(m));
        },
        ServerMessageV::Error { msg } => {
            assert(server_msg_of_jsonv(server_msg_jsonv(m)) == Option::Some(m));
        },
        ServerMessageV::ValidationResult {
            success,
            errors,
            warnings,
            error_count,
            warning_count,
            request_id,
        } => {
            let base = seq![
                ("success"@, JsonV::Bool(success)),
                ("errors"@, JsonV::Arr(verrs_jsonv(errors))),
                ("warnings"@, JsonV::Arr(verrs_jsonv(warnings))),
                ("error_count"@, JsonV::UInt(error_count as u64)),
                ("warning_count"@, JsonV::UInt(warning_count as u64)),
            ];
            lemma_verrs_round_trip(errors, 0);
            lemma_verrs_round_trip(warnings, 0);
            assert(errors.skip(0) =~= errors);
            assert(warnings.skip(0) =~= warnings);
            match request_id {
                Option::Some(id) => {
                    let f = base.push(("request_id"@, JsonV::Str(id)));
                    assert(f =~= seq![
                        ("success"@, JsonV::Bool(success)),
                        ("errors"@, JsonV::Arr(verrs_jsonv(errors))),
                        ("warnings"@, JsonV::Arr(verrs_jsonv(warnings))),
                        ("error_count"@, JsonV::UInt(error_count as u64)),
                        ("warning_count"@, JsonV::UInt(warning_count as u64)),
                        ("request_id"@, JsonV::Str(id)),
                    ]);
                    assert(server_msg_jsonv(m) == tagged("ValidationResult"@, JsonV::Obj(f)));
            lemma_obj_get_skip(f, "errors"@, 0);
            lemma_obj_get_hit(f, "errors"@, 1);
            lemma_obj_get_skip(f, "warnings"@, 0);
            lemma_obj_get_skip(f, "warnings"@, 1);
            lemma_obj_get_hit(f, "warnings"@, 2);
            lemma_obj_get_hit(f, "success"@, 0);
            lemma_obj_get_skip(f, "error_count"@, 0);
            lemma_obj_get_skip(f, "error_count"@, 1);
            lemma_obj_get_skip(f, "error_count"@, 2);
            lemma_obj_get_hit(f, "error_count"@, 3);
            lemma_obj_get_skip(f, "warning_count"@, 0);
            lemma_obj_get_skip(f, "warning_count"@, 1);
            lemma_obj_get_skip(f, "warning_count"@, 2);
            lemma_obj_get_skip(f, "warning_count"@, 3);
            lemma_obj_get_hit(f, "warning_count"@, 4);
                    lemma_obj_get_skip(f, "request_id"@, 0);
                    lemma_obj_get_skip(f, "request_id"@, 1);
                    lemma_obj_get_skip(f, "request_id"@, 2);
                    lemma_obj_get_skip(f, "request_id"@, 3);
                    lemma_obj_get_skip(f, "request_id"@, 4);
                    lemma_obj_get_hit(f, "request_id"@, 5);
                    assert(server_msg_of_jsonv(server_msg_jsonv(m)) == Option::Some(m));
                },
                Option::None => {
                    let f = base;
                    assert(server_msg_jsonv(m) == tagged("ValidationResult"@, JsonV::Obj(f)));
            lemma_obj_get_skip(f, "errors"@, 0);
            lemma_obj_get_hit(f, "errors"@, 1);
            lemma_obj_get_skip(f, "warnings"@, 0);
            lemma_obj_get_skip(f, "warnings"@, 1);
            lemma_obj_get_hit(f, "warnings"@, 2);
            lemma_obj_get_hit(f, "success"@, 0);
            lemma_obj_get_skip(f, "error_count"@, 0);
            lemma_obj_get_skip(f, "error_count"@, 1);
            lemma_obj_get_skip(f, "error_count"@, 2);
            lemma_obj_get_hit(f, "error_count"@, 3);
            lemma_obj_get_skip(f, "warning_count"@, 0);
            lemma_obj_get_skip(f, "warning_count"@, 1);
            lemma_obj_get_skip(f, "warning_count"@, 2);
            lemma_obj_get_skip(f, "warning_count"@, 3);
            lemma_obj_get_hit(f, "warning_count"@, 4);
                    lemma_obj_get_skip(f, "request_id"@, 0);
                    lemma_obj_get_skip(f, "request_id"@, 1);
                    lemma_obj_get_skip(f, "request_id"@, 2);
                    lemma_obj_get_skip(f, "request_id"@, 3);
                    lemma_obj_get_skip(f, "request_id"@, 4);
                    assert(obj_get_from(f, "request_id"@, 5) is None);
                    assert(server_msg_of_jsonv(server_msg_jsonv(m)) == Option::Some(m));
                },
            }
        },
    }
}

} // verus!
