//! Per-connection session logic of the control-plane server.
//!
//! Each connection runs a reader that turns bytes into client messages and
//! feeds them to `session_step`, which decides everything that does not need
//! the socket or the engine: which replies to send, in what order, which
//! engine operation to perform under the engine lock, and whether to wake
//! the engine's processing loop afterwards. A freshly connected session is
//! not quiet; the first message of a non-quiet session is preceded by
//! exactly one unsolicited `LayerChange` push.

use vstd::prelude::*;

verus! {

use crate::protocol::{
    ClientMessage,
    ClientMessageV,
    FakeKeyActionMessage,
    ServerMessage,
    ServerMessageV,
    ServerResponse,
    ServerResponseV,
    ValidationError,
    ValidationErrorV,
    opt_str_view,
    strings_view,
    lemma_strings_view,
    verrs_view,
    str_is,
};
use crate::validator::{cfg_errors_of, cfg_warnings_of, validate_config_content};
use vstd::utf8::encode_utf8;

/// Maximum accepted `ValidateConfig` payload, in bytes.
pub const MAX_VALIDATION_CONFIG_BYTES: usize = 1000000;

/// What the dispatcher reads of the shared engine state, under its lock.
pub struct EngineSnapshot {
    /// Every layer's name, in table order.
    pub layer_names: Vec<String>,
    /// The index of the active layer.
    pub current_layer: usize,
    /// The configuration text of the active layer.
    pub current_cfg_text: String,
    /// The virtual-key names; a name's position is its row index.
    pub virtual_key_names: Vec<String>,
}

/// The snapshot's model.
pub struct EngineSnapshotV {
    pub layer_names: Seq<Seq<char>>,
    pub current_layer: usize,
    pub current_cfg_text: Seq<char>,
    pub virtual_key_names: Seq<Seq<char>>,
}

impl View for EngineSnapshot {
    type V = EngineSnapshotV;

    open spec fn view(&self) -> EngineSnapshotV {
        EngineSnapshotV {
            layer_names: strings_view(self.layer_names@),
            current_layer: self.current_layer,
            current_cfg_text: self.current_cfg_text@,
            virtual_key_names: strings_view(self.virtual_key_names@),
        }
    }
}

impl EngineSnapshot {
    /// The active layer index names a layer.
    pub open spec fn wf(&self) -> bool {
        (self.current_layer as int) < self@.layer_names.len()
    }
}

/// The name of the active layer.
pub open spec fn cur_layer_name(snap: EngineSnapshotV) -> Seq<char> {
    snap.layer_names[snap.current_layer as int]
}

/// Per-connection protocol state.
#[derive(Debug, Clone, Copy, PartialEq, Eq, Structural)]
pub struct SessionState {
    /// Suppresses unsolicited `LayerChange` pushes.
    pub quiet: bool,
    /// The one unsolicited push has been sent.
    pub sent_initial_layer_change: bool,
}

/// The state of a session that has just connected: not quiet, nothing sent.
pub open spec fn fresh_session() -> SessionState {
    SessionState { quiet: false, sent_initial_layer_change: false }
}

impl SessionState {
    /// A freshly accepted connection's session.
    pub fn new() -> (r: SessionState)
        ensures
            r == fresh_session(),
    {
        SessionState { quiet: false, sent_initial_layer_change: false }
    }
}

/// What a session does to its state on one message.
pub open spec fn step_session(s: SessionState, m: ClientMessageV) -> SessionState {
    match m {
        ClientMessageV::SetSessionMode { quiet } => SessionState {
            quiet,
            sent_initial_layer_change: s.sent_initial_layer_change || !quiet,
        },
        _ => SessionState {
            quiet: s.quiet,
            sent_initial_layer_change: s.sent_initial_layer_change || !s.quiet,
        },
    }
}

/// How many unsolicited `LayerChange` pushes one message produces.
pub open spec fn push_count(s: SessionState, m: ClientMessageV) -> int {
    match m {
        ClientMessageV::SetSessionMode { quiet } => if !quiet && !s.sent_initial_layer_change {
            1int
        } else {
            0int
        },
        _ => if !s.quiet && !s.sent_initial_layer_change {
            1int
        } else {
            0int
        },
    }
}

/// The unsolicited `LayerChange` pushes one message produces.
pub open spec fn initial_pushes(s: SessionState, m: ClientMessageV, cur: Seq<char>) -> Seq<
    ServerMessageV,
> {
    if push_count(s, m) == 1 {
        seq![ServerMessageV::LayerChange { new: cur }]
    } else {
        Seq::empty()
    }
}

/// An engine operation the server performs under the engine lock.
#[derive(Debug, PartialEq)]
pub enum EngineOp {
    ChangeLayer(String),
    FakeKey(usize, FakeKeyActionMessage),
    SetMouse(u16, u16),
    Reload,
    ReloadNext,
    ReloadPrev,
    ReloadNum(usize),
    ReloadFile(String),
}

/// The model of an engine operation.
pub enum EngineOpV {
    ChangeLayer(Seq<char>),
    FakeKey(usize, FakeKeyActionMessage),
    SetMouse(u16, u16),
    Reload,
    ReloadNext,
    ReloadPrev,
    ReloadNum(usize),
    ReloadFile(Seq<char>),
}

impl View for EngineOp {
    type V = EngineOpV;

    open spec fn view(&self) -> EngineOpV {
        match self {
            EngineOp::ChangeLayer(s) => EngineOpV::ChangeLayer(s@),
            EngineOp::FakeKey(i, a) => EngineOpV::FakeKey(*i, *a),
            EngineOp::SetMouse(x, y) => EngineOpV::SetMouse(*x, *y),
            EngineOp::Reload => EngineOpV::Reload,
            EngineOp::ReloadNext => EngineOpV::ReloadNext,
            EngineOp::ReloadPrev => EngineOpV::ReloadPrev,
            EngineOp::ReloadNum(i) => EngineOpV::ReloadNum(*i),
            EngineOp::ReloadFile(s) => EngineOpV::ReloadFile(s@),
        }
    }
}

pub open spec fn opt_op_view(o: Option<EngineOp>) -> Option<EngineOpV> {
    match o {
        Option::Some(op) => Option::Some(op@),
        Option::None => Option::None,
    }
}

/// The model of a reply list.
pub open spec fn msgs_view(v: Seq<ServerMessage>) -> Seq<ServerMessageV>
    decreases v,
{
    if v.len() == 0 {
        Seq::empty()
    } else {
        msgs_view(v.drop_last()).push(v.last()@)
    }
}

pub proof fn lemma_msgs_view(v: Seq<ServerMessage>)
    ensures
        msgs_view(v).len() == v.len(),
        forall|i: int| 0 <= i < v.len() ==> msgs_view(v)[i] == v[i]@,
    decreases v,
{
    if v.len() > 0 {
        lemma_msgs_view(v.drop_last());
    }
}

/// The position of a virtual key's row, by name.
pub open spec fn key_index(names: Seq<Seq<char>>, name: Seq<char>, i: int) -> Option<usize>
    decreases names.len() - i,
{
    if i < 0 || i >= names.len() {
        Option::None
    } else if names[i] == name {
        Option::Some(i as usize)
    } else {
        key_index(names, name, i + 1)
    }
}

/// The synthetic result replied to an oversized `ValidateConfig` payload.
pub open spec fn oversize_result(rid: Option<Seq<char>>) -> ServerMessageV {
    ServerMessageV::ValidationResult {
        success: false,
        errors: seq![
            ValidationErrorV {
                line: 0,
                message: "config_content too large: at most 1000000 bytes are accepted"@,
                severity: "error"@,
                column: Option::None,
                file: Option::Some("configuration"@),
                category: Option::Some("semantic"@),
                help_text: Option::Some(
                    "Reduce configuration size or split into multiple files"@,
                ),
            },
        ],
        warnings: Seq::empty(),
        error_count: 1,
        warning_count: 0,
        request_id: rid,
    }
}

/// The reply to a `ValidateConfig` payload: the synthetic overflow result
/// for content over the cap, the validator's result otherwise.
pub open spec fn validation_reply(content: Seq<char>, rid: Option<Seq<char>>) -> ServerMessageV {
    if encode_utf8(content).len() > MAX_VALIDATION_CONFIG_BYTES {
        oversize_result(rid)
    } else {
        ServerMessageV::ValidationResult {
            success: cfg_errors_of(content).len() == 0,
            errors: cfg_errors_of(content),
            warnings: cfg_warnings_of(content),
            error_count: cfg_errors_of(content).len() as usize,
            warning_count: cfg_warnings_of(content).len() as usize,
            request_id: rid,
        }
    }
}

/// The replies a dispatched message produces, after any unsolicited push.
pub open spec fn dispatch_replies(m: ClientMessageV, snap: EngineSnapshotV) -> Seq<
    ServerMessageV,
> {
    match m {
        ClientMessageV::RequestLayerNames => seq![
            ServerMessageV::LayerNames { names: snap.layer_names },
        ],
        ClientMessageV::RequestCurrentLayerInfo => seq![
            ServerMessageV::CurrentLayerInfo {
                name: cur_layer_name(snap),
                cfg_text: snap.current_cfg_text,
            },
        ],
        ClientMessageV::RequestCurrentLayerName => seq![
            ServerMessageV::CurrentLayerName { name: cur_layer_name(snap) },
        ],
        ClientMessageV::ActOnFakeKey { name, action } => {
            if key_index(snap.virtual_key_names, name, 0) is None {
                seq![ServerMessageV::Error { msg: "unknown virtual/fake key: "@ + name }]
            } else {
                Seq::empty()
            }
        },
        ClientMessageV::ValidateConfig { config_content, request_id } => seq![
            validation_reply(config_content, request_id),
        ],
        _ => Seq::empty(),
    }
}

/// The engine operation a dispatched message asks for.
pub open spec fn dispatch_op(m: ClientMessageV, snap: EngineSnapshotV) -> Option<EngineOpV> {
    match m {
        ClientMessageV::ChangeLayer { new } => Option::Some(EngineOpV::ChangeLayer(new)),
        ClientMessageV::ActOnFakeKey { name, action } => match key_index(
            snap.virtual_key_names,
            name,
            0,
        ) {
            Option::Some(i) => Option::Some(EngineOpV::FakeKey(i, action)),
            Option::None => Option::None,
        },
        ClientMessageV::SetMouse { x, y } => Option::Some(EngineOpV::SetMouse(x, y)),
        ClientMessageV::Reload => Option::Some(EngineOpV::Reload),
        ClientMessageV::ReloadNext => Option::Some(EngineOpV::ReloadNext),
        ClientMessageV::ReloadPrev => Option::Some(EngineOpV::ReloadPrev),
        ClientMessageV::ReloadNum { index } => Option::Some(EngineOpV::ReloadNum(index)),
        ClientMessageV::ReloadFile { path } => Option::Some(EngineOpV::ReloadFile(path)),
        _ => Option::None,
    }
}

/// Whether the reload handler's outcome is reported back with a
/// `ServerResponse`.
pub open spec fn wants_reload_reply(m: ClientMessageV) -> bool {
    ||| m is Reload
    ||| m is ReloadNext
    ||| m is ReloadPrev
    ||| m is ReloadNum
    ||| m is ReloadFile
}

/// Whether a wake-up event is pushed to the engine loop afterwards:
/// unconditionally, after every command other than `SetSessionMode`, so the
/// processing loop re-evaluates state promptly rather than waiting for the
/// next real input event.
pub open spec fn wants_wakeup(m: ClientMessageV) -> bool {
    !(m is SetSessionMode)
}

/// Everything one message asks the connection's thread to do, in order:
/// send the replies, perform the operation under the engine lock (and for a
/// reload, report its outcome), then wake the engine loop.
pub struct StepOutput {
    pub replies: Vec<ServerMessage>,
    pub op: Option<EngineOp>,
    pub needs_reload_reply: bool,
    pub wakeup: bool,
}


/// A fresh copy of a list of names.
fn clone_strings(v: &Vec<String>) -> (r: Vec<String>)
    ensures
        strings_view(r@) == strings_view(v@),
{
    let n = v.len();
    let mut out: Vec<String> = Vec::new();
    let mut i: usize = 0;
    proof {
        assert(strings_view(out@) =~= strings_view(v@.take(0)));
    }
    while i < n
        invariant
            i <= n,
            n == v@.len(),
            strings_view(out@) == strings_view(v@.take(i as int)),
        decreases n - i,
    {
        let ghost pre = out@;
        out.push(v[i].clone());
        proof {
            assert(out@.drop_last() =~= pre);
            assert(v@.take(i + 1).drop_last() =~= v@.take(i as int));
            assert(strings_view(out@) =~= strings_view(v@.take(i + 1)));
        }
        i = i + 1;
    }
    proof {
        assert(v@.take(n as int) =~= v@);
    }
    out
}

/// Finds a virtual key's row by name.
fn find_key(names: &Vec<String>, name: &str) -> (r: Option<usize>)
    ensures
        r == key_index(strings_view(names@), name@, 0),
{
    let ghost nv = strings_view(names@);
    proof {
        lemma_strings_view(names@);
    }
    let n = names.len();
    let mut i: usize = 0;
    while i < n
        invariant
            i <= n,
            n == names@.len(),
            nv == strings_view(names@),
            nv.len() == n,
            forall|k: int| 0 <= k < n ==> nv[k] == names@[k]@,
            key_index(nv, name@, 0) == key_index(nv, name@, i as int),
        decreases n - i,
    {
        if str_is(names[i].as_str(), name) {
            return Option::Some(i);
        }
        i = i + 1;
    }
    Option::None
}

/// The synthetic reply to an oversized validation payload.
fn oversize_message(request_id: Option<String>) -> (r: ServerMessage)
    ensures
        r@ == oversize_result(opt_str_view(request_id)),
{
    let mut errors: Vec<ValidationError> = Vec::new();
    proof {
        assert(verrs_view(errors@) =~= Seq::<ValidationErrorV>::empty());
    }
    let ghost pre = errors@;
    errors.push(
        ValidationError {
            line: 0,
            message: String::from_str(
                "config_content too large: at most 1000000 bytes are accepted",
            ),
            severity: String::from_str("error"),
            column: Option::None,
            file: Option::Some(String::from_str("configuration")),
            category: Option::Some(String::from_str("semantic")),
            help_text: Option::Some(
                String::from_str("Reduce configuration size or split into multiple files"),
            ),
        },
    );
    proof {
        assert(errors@.drop_last() =~= pre);
        assert(verrs_view(errors@) =~= seq![
            ValidationErrorV {
                line: 0,
                message: "config_content too large: at most 1000000 bytes are accepted"@,
                severity: "error"@,
                column: Option::None,
                file: Option::Some("configuration"@),
                category: Option::Some("semantic"@),
                help_text: Option::Some(
                    "Reduce configuration size or split into multiple files"@,
                ),
            },
        ]);
    }
    let warnings: Vec<ValidationError> = Vec::new();
    proof {
        assert(verrs_view(warnings@) =~= Seq::<ValidationErrorV>::empty());
    }
    ServerMessage::ValidationResult {
        success: false,
        errors,
        warnings,
        error_count: 1,
        warning_count: 0,
        request_id,
    }
}

/// Decides everything one client message asks for. The replies come back in
/// sending order: the unsolicited `LayerChange` push first where one is
/// owed, then the command's own reply; the engine operation, if any, is
/// performed under the engine lock after the replies are sent.
#[verifier::rlimit(100)]
pub fn session_step(sess: &mut SessionState, msg: ClientMessage, snap: &EngineSnapshot) -> (r:
    StepOutput)
    requires
        snap.wf(),
    ensures
        *final(sess) == step_session(*old(sess), msg@),
        msgs_view(r.replies@) == initial_pushes(*old(sess), msg@, cur_layer_name(snap@))
            + dispatch_replies(msg@, snap@),
        opt_op_view(r.op) == dispatch_op(msg@, snap@),
        r.needs_reload_reply == wants_reload_reply(msg@),
        r.wakeup == wants_wakeup(msg@),
{
    let ghost m = msg@;
    let ghost cur = cur_layer_name(snap@);
    proof {
        lemma_strings_view(snap.layer_names@);
    }
    let mut replies: Vec<ServerMessage> = Vec::new();
    proof {
        assert(msgs_view(replies@) =~= Seq::<ServerMessageV>::empty());
    }
    let push_owed = match &msg {
        ClientMessage::SetSessionMode { quiet } => !*quiet && !sess.sent_initial_layer_change,
        _ => !sess.quiet && !sess.sent_initial_layer_change,
    };
    if push_owed {
        let name = snap.layer_names[snap.current_layer].clone();
        let ghost pre = replies@;
        replies.push(ServerMessage::LayerChange { new: name });
        proof {
            assert(replies@.drop_last() =~= pre);
            assert(msgs_view(replies@) =~= seq![ServerMessageV::LayerChange { new: cur }]);
        }
    }
    proof {
        assert(msgs_view(replies@) =~= initial_pushes(*old(sess), m, cur));
    }
    let ghost pushes = msgs_view(replies@);
    match msg {
        ClientMessage::SetSessionMode { quiet } => {
            sess.sent_initial_layer_change = sess.sent_initial_layer_change || !quiet;
            sess.quiet = quiet;
            proof {
                assert(msgs_view(replies@) =~= pushes + dispatch_replies(m, snap@));
            }
            StepOutput { replies, op: Option::None, needs_reload_reply: false, wakeup: false }
        },
        _ => {
            sess.sent_initial_layer_change = sess.sent_initial_layer_change || !sess.quiet;
            match msg {
                ClientMessage::ChangeLayer { new } => {
                    proof {
                        assert(msgs_view(replies@) =~= pushes + dispatch_replies(m, snap@));
                    }
                    StepOutput {
                        replies,
                        op: Option::Some(EngineOp::ChangeLayer(new)),
                        needs_reload_reply: false,
                        wakeup: true,
                    }
                },
                ClientMessage::RequestLayerNames {} => {
                    let names = clone_strings(&snap.layer_names);
                    let ghost pre = replies@;
                    replies.push(ServerMessage::LayerNames { names });
                    proof {
                        assert(replies@.drop_last() =~= pre);
                        assert(msgs_view(replies@) =~= pushes + dispatch_replies(m, snap@));
                    }
                    StepOutput {
                        replies,
                        op: Option::None,
                        needs_reload_reply: false,
                        wakeup: true,
                    }
                },
                ClientMessage::RequestCurrentLayerInfo {} => {
                    let name = snap.layer_names[snap.current_layer].clone();
                    let cfg_text = snap.current_cfg_text.clone();
                    let ghost pre = replies@;
                    replies.push(ServerMessage::CurrentLayerInfo { name, cfg_text });
                    proof {
                        assert(replies@.drop_last() =~= pre);
                        assert(msgs_view(replies@) =~= pushes + dispatch_replies(m, snap@));
                    }
                    StepOutput {
                        replies,
                        op: Option::None,
                        needs_reload_reply: false,
                        wakeup: true,
                    }
                },
                ClientMessage::RequestCurrentLayerName {} => {
                    let name = snap.layer_names[snap.current_layer].clone();
                    let ghost pre = replies@;
                    replies.push(ServerMessage::CurrentLayerName { name });
                    proof {
                        assert(replies@.drop_last() =~= pre);
                        assert(msgs_view(replies@) =~= pushes + dispatch_replies(m, snap@));
                    }
                    StepOutput {
                        replies,
                        op: Option::None,
                        needs_reload_reply: false,
                        wakeup: true,
                    }
                },
                ClientMessage::ActOnFakeKey { name, action } => {
                    match find_key(&snap.virtual_key_names, name.as_str()) {
                        Option::Some(i) => {
                            proof {
                                assert(msgs_view(replies@) =~= pushes + dispatch_replies(
                                    m,
                                    snap@,
                                ));
                            }
                            StepOutput {
                                replies,
                                op: Option::Some(EngineOp::FakeKey(i, action)),
                                needs_reload_reply: false,
                                wakeup: true,
                            }
                        },
                        Option::None => {
                            let msg_text = String::from_str("unknown virtual/fake key: ").concat(
                                name.as_str(),
                            );
                            let ghost pre = replies@;
                            replies.push(ServerMessage::Error { msg: msg_text });
                            proof {
                                assert(replies@.drop_last() =~= pre);
                                assert(msgs_view(replies@) =~= pushes + dispatch_replies(
                                    m,
                                    snap@,
                                ));
                            }
                            StepOutput {
                                replies,
                                op: Option::None,
                                needs_reload_reply: false,
                                wakeup: true,
                            }
                        },
                    }
                },
                ClientMessage::SetMouse { x, y } => {
                    proof {
                        assert(msgs_view(replies@) =~= pushes + dispatch_replies(m, snap@));
                    }
                    StepOutput {
                        replies,
                        op: Option::Some(EngineOp::SetMouse(x, y)),
                        needs_reload_reply: false,
                        wakeup: true,
                    }
                },
                ClientMessage::Reload {} => {
                    proof {
                        assert(msgs_view(replies@) =~= pushes + dispatch_replies(m, snap@));
                    }
                    StepOutput {
                        replies,
                        op: Option::Some(EngineOp::Reload),
                        needs_reload_reply: true,
                        wakeup: true,
                    }
                },
                ClientMessage::ReloadNext {} => {
                    proof {
                        assert(msgs_view(replies@) =~= pushes + dispatch_replies(m, snap@));
                    }
                    StepOutput {
                        replies,
                        op: Option::Some(EngineOp::ReloadNext),
                        needs_reload_reply: true,
                        wakeup: true,
                    }
                },
                ClientMessage::ReloadPrev {} => {
                    proof {
                        assert(msgs_view(replies@) =~= pushes + dispatch_replies(m, snap@));
                    }
                    StepOutput {
                        replies,
                        op: Option::Some(EngineOp::ReloadPrev),
                        needs_reload_reply: true,
                        wakeup: true,
                    }
                },
                ClientMessage::ReloadNum { index } => {
                    proof {
                        assert(msgs_view(replies@) =~= pushes + dispatch_replies(m, snap@));
                    }
                    StepOutput {
                        replies,
                        op: Option::Some(EngineOp::ReloadNum(index)),
                        needs_reload_reply: true,
                        wakeup: true,
                    }
                },
                ClientMessage::ReloadFile { path } => {
                    proof {
                        assert(msgs_view(replies@) =~= pushes + dispatch_replies(m, snap@));
                    }
                    StepOutput {
                        replies,
                        op: Option::Some(EngineOp::ReloadFile(path)),
                        needs_reload_reply: true,
                        wakeup: true,
                    }
                },
                ClientMessage::ValidateConfig { config_content, request_id } => {
                    let cs_bytes = config_content.as_str().as_bytes();
                    let cs_len = cs_bytes.len();
                    proof {
                        broadcast use vstd::slice::group_slice_axioms;

                        assert(cs_bytes@ == encode_utf8(config_content@));
                        assert(cs_len as int == encode_utf8(config_content@).len());
                    }
                    if cs_len > MAX_VALIDATION_CONFIG_BYTES {
                        let ghost rid = opt_str_view(request_id);
                        let reply = oversize_message(request_id);
                        let ghost rv = reply@;
                        let ghost pre = replies@;
                        replies.push(reply);
                        proof {
                            assert(replies@.drop_last() =~= pre);
                            assert(msgs_view(replies@) == msgs_view(pre).push(rv));
                            assert(pushes + dispatch_replies(m, snap@) =~= pushes.push(rv));
                        }
                        StepOutput {
                            replies,
                            op: Option::None,
                            needs_reload_reply: false,
                            wakeup: true,
                        }
                    } else {
                        let ghost cc = config_content@;
                        let ghost rid = opt_str_view(request_id);
                        let reply = validate_config_content(config_content.as_str(), request_id);
                        let ghost rv = reply@;
                        let ghost pre = replies@;
                        replies.push(reply);
                        proof {
                            assert(rv == validation_reply(cc, rid));
                            assert(replies@.drop_last() =~= pre);
                            assert(msgs_view(replies@) == msgs_view(pre).push(rv));
                            assert(pushes + dispatch_replies(m, snap@) =~= pushes.push(rv));
                        }
                        StepOutput {
                            replies,
                            op: Option::None,
                            needs_reload_reply: false,
                            wakeup: true,
                        }
                    }
                },
                ClientMessage::SetSessionMode { .. } => {
                    proof {
                        assert(false);
                    }
                    StepOutput {
                        replies,
                        op: Option::None,
                        needs_reload_reply: false,
                        wakeup: false,
                    }
                },
            }
        },
    }
}

/// The unified reply to a reload command: the handler's outcome, verbatim.
pub fn reload_response(outcome: Result<(), String>) -> (r: ServerResponse)
    ensures
        (match outcome {
            Result::Ok(_) => r@ is Okay,
            Result::Err(msg) => r@ == (ServerResponseV::Error { msg: msg@ }),
        }),
{
    match outcome {
        Result::Ok(_) => ServerResponse::Okay,
        Result::Err(msg) => ServerResponse::Error { msg },
    }
}

// ---------------------------------------------------------------------------
// The connection registry: which peers currently hold a connection. The
// server keeps a duplicate stream handle per address; this registry decides
// membership, so that a write failure or malformed input drops exactly the
// one connection.
// ---------------------------------------------------------------------------

/// Membership in a pushed sequence: the old members and the new element.
proof fn lemma_push_contains(s: Seq<Seq<char>>, x: Seq<char>)
    ensures
        forall|b: Seq<char>| #[trigger] s.push(x).contains(b) <==> (s.contains(b) || b == x),
{
    assert forall|b: Seq<char>| #[trigger] s.push(x).contains(b) implies (s.contains(b) || b
        == x) by {
        let j = choose|j: int| 0 <= j < s.push(x).len() && s.push(x)[j] == b;
        if j < s.len() {
            assert(s[j] == b);
        }
    }
    assert forall|b: Seq<char>| (s.contains(b) || b == x) implies #[trigger] s.push(x).contains(
        b,
    ) by {
        if s.contains(b) {
            let j = choose|j: int| 0 <= j < s.len() && s[j] == b;
            assert(s.push(x)[j] == b);
        } else {
            assert(s.push(x)[s.len() as int] == x);
        }
    }
}

pub struct ConnectionRegistry {
    addrs: Vec<String>,
}

impl ConnectionRegistry {
    /// The registered addresses, in registration order.
    pub closed spec fn view(&self) -> Seq<Seq<char>> {
        strings_view(self.addrs@)
    }

    /// Whether an address is registered.
    pub open spec fn has(&self, a: Seq<char>) -> bool {
        self.view().contains(a)
    }

    /// An empty registry.
    pub fn new() -> (r: ConnectionRegistry)
        ensures
            r.view() == Seq::<Seq<char>>::empty(),
    {
        let r = ConnectionRegistry { addrs: Vec::new() };
        proof {
            assert(r.view() =~= Seq::<Seq<char>>::empty());
        }
        r
    }

    /// Whether an address is registered.
    pub fn contains(&self, addr: &str) -> (r: bool)
        ensures
            r == self.has(addr@),
    {
        let ghost nv = self.view();
        proof {
            lemma_strings_view(self.addrs@);
        }
        let n = self.addrs.len();
        let mut i: usize = 0;
        while i < n
            invariant
                i <= n,
                n == self.addrs@.len(),
                nv == self.view(),
                nv.len() == n,
                forall|k: int| 0 <= k < n ==> nv[k] == self.addrs@[k]@,
                forall|k: int| 0 <= k < i ==> nv[k] != addr@,
            decreases n - i,
        {
            if str_is(self.addrs[i].as_str(), addr) {
                proof {
                    assert(nv[i as int] == addr@);
                    assert(nv.contains(addr@));
                }
                return true;
            }
            i = i + 1;
        }
        proof {
            assert(forall|k: int| 0 <= k < nv.len() ==> nv[k] != addr@);
        }
        false
    }

    /// Registers an address; one entry per address, whichever came first.
    pub fn insert(&mut self, addr: String)
        ensures
            final(self).view() == (if old(self).has(addr@) {
                old(self).view()
            } else {
                old(self).view().push(addr@)
            }),
            final(self).has(addr@),
    {
        if self.contains(addr.as_str()) {
            return ;
        }
        let ghost pre = self.addrs@;
        let ghost prev = strings_view(pre);
        self.addrs.push(addr);
        proof {
            assert(self.addrs@.drop_last() =~= pre);
            assert(self.view() =~= prev.push(self.addrs@.last()@));
            assert(self.view()[self.view().len() - 1] == self.addrs@.last()@);
            assert(self.view().contains(self.addrs@.last()@));
        }
    }

    /// Drops an address; other entries stay.
    pub fn remove(&mut self, addr: &str)
        ensures
            !final(self).has(addr@),
            forall|b: Seq<char>| b != addr@ ==> final(self).has(b) == old(self).has(b),
            final(self).view().len() <= old(self).view().len(),
    {
        let ghost full = self.view();
        proof {
            lemma_strings_view(self.addrs@);
        }
        let n = self.addrs.len();
        let mut out: Vec<String> = Vec::new();
        let mut i: usize = 0;
        proof {
            assert(strings_view(out@) =~= Seq::<Seq<char>>::empty());
        }
        while i < n
            invariant
                i <= n,
                n == self.addrs@.len(),
                full == self.view(),
                full.len() == n,
                forall|k: int| 0 <= k < n ==> full[k] == self.addrs@[k]@,
                strings_view(out@).len() <= i,
                forall|b: Seq<char>|
                    #[trigger] strings_view(out@).contains(b) ==> full.contains(b) && b != addr@,
                forall|k: int|
                    0 <= k < i && full[k] != addr@ ==> strings_view(out@).contains(#[trigger] full[k]),
            decreases n - i,
        {
            let keep = !str_is(self.addrs[i].as_str(), addr);
            if keep {
                let ghost pre = out@;
                let ghost prev = strings_view(pre);
                out.push(self.addrs[i].clone());
                proof {
                    assert(out@.drop_last() =~= pre);
                    assert(strings_view(out@) =~= prev.push(full[i as int]));
                    lemma_push_contains(prev, full[i as int]);
                }
            }
            i = i + 1;
        }
        self.addrs = out;
        proof {
            assert forall|b: Seq<char>|
                b != addr@ && full.contains(b) implies #[trigger] self.has(b) by {
                let j = choose|j: int| 0 <= j < full.len() && full[j] == b;
                assert(strings_view(self.addrs@).contains(full[j]));
            }
        }
    }
}

/// Reports undecodable input: exactly one structured error reply, and the
/// connection is no longer registered.
pub fn handle_malformed(reg: &mut ConnectionRegistry, addr: &str, detail: String) -> (r:
    ServerResponse)
    ensures
        r@ == (ServerResponseV::Error { msg: "Failed to deserialize command: "@ + detail@ }),
        !final(reg).has(addr@),
        forall|b: Seq<char>| b != addr@ ==> final(reg).has(b) == old(reg).has(b),
{
    let msg = String::from_str("Failed to deserialize command: ").concat(detail.as_str());
    reg.remove(addr);
    ServerResponse::Error { msg }
}

// ---------------------------------------------------------------------------
// Session-mode laws.
// ---------------------------------------------------------------------------

/// The unsolicited `LayerChange` pushes a whole session produces, message
/// by message.
pub open spec fn total_pushes(s: SessionState, msgs: Seq<ClientMessageV>) -> int
    decreases msgs.len(),
{
    if msgs.len() == 0 {
        0
    } else {
        push_count(s, msgs[0]) + total_pushes(step_session(s, msgs[0]), msgs.drop_first())
    }
}

/// Once the unsolicited push has been sent, no message produces another.
pub proof fn lemma_no_push_after_first(s: SessionState, msgs: Seq<ClientMessageV>)
    requires
        s.sent_initial_layer_change,
    ensures
        total_pushes(s, msgs) == 0,
    decreases msgs.len(),
{
    if msgs.len() > 0 {
        lemma_no_push_after_first(step_session(s, msgs[0]), msgs.drop_first());
    }
}

/// A quiet session that never changes its mode is never pushed to.
pub proof fn lemma_quiet_session_suppressed(s: SessionState, msgs: Seq<ClientMessageV>)
    requires
        s.quiet,
        forall|i: int| 0 <= i < msgs.len() ==> !(msgs[i] is SetSessionMode),
    ensures
        total_pushes(s, msgs) == 0,
    decreases msgs.len(),
{
    if msgs.len() > 0 {
        assert(msgs[0] == msgs[0]);
        lemma_quiet_session_suppressed(step_session(s, msgs[0]), msgs.drop_first());
        assert(forall|i: int|
            0 <= i < msgs.drop_first().len() ==> msgs.drop_first()[i] == msgs[i + 1]);
    }
}

/// A connection that never sets a session mode receives exactly one
/// unsolicited `LayerChange`, and it comes with the first command.
pub proof fn lemma_default_session_pushes_once(msgs: Seq<ClientMessageV>)
    requires
        msgs.len() > 0,
        forall|i: int| 0 <= i < msgs.len() ==> !(msgs[i] is SetSessionMode),
    ensures
        total_pushes(fresh_session(), msgs) == 1,
        push_count(fresh_session(), msgs[0]) == 1,
{
    let s1 = step_session(fresh_session(), msgs[0]);
    assert(s1.sent_initial_layer_change);
    lemma_no_push_after_first(s1, msgs.drop_first());
}

/// Setting quiet mode before anything else suppresses the push entirely,
/// as long as no later message changes the mode again.
pub proof fn lemma_quiet_first_suppresses(msgs: Seq<ClientMessageV>)
    requires
        msgs.len() > 0,
        msgs[0] == (ClientMessageV::SetSessionMode { quiet: true }),
        forall|i: int| 1 <= i < msgs.len() ==> !(msgs[i] is SetSessionMode),
    ensures
        total_pushes(fresh_session(), msgs) == 0,
{
    let s1 = step_session(fresh_session(), msgs[0]);
    assert(s1.quiet);
    assert(push_count(fresh_session(), msgs[0]) == 0);
    assert(forall|i: int|
        0 <= i < msgs.drop_first().len() ==> msgs.drop_first()[i] == msgs[i + 1]);
    lemma_quiet_session_suppressed(s1, msgs.drop_first());
}

/// No dispatched reply is ever a `LayerChange`: the one unsolicited push
/// is the only `LayerChange` a connection is sent, so counting pushes
/// counts exactly the `LayerChange` messages a client receives.
pub proof fn lemma_dispatch_never_pushes_layer_change(m: ClientMessageV, snap: EngineSnapshotV)
    ensures
        forall|i: int|
            0 <= i < dispatch_replies(m, snap).len() ==> !(#[trigger] dispatch_replies(m, snap)[i]
                is LayerChange),
{
}

/// An oversized validation payload always yields a failed result with one
/// error, no warnings, and the request id echoed unchanged.
pub proof fn lemma_oversize_validation(content: Seq<char>, rid: Option<Seq<char>>)
    requires
        encode_utf8(content).len() > MAX_VALIDATION_CONFIG_BYTES,
    ensures
        validation_reply(content, rid) matches ServerMessageV::ValidationResult {
            success,
            errors,
            warnings,
            error_count,
            warning_count,
            request_id,
        } && !success && error_count == 1 && warning_count == 0 && errors.len() == 1
            && warnings.len() == 0 && request_id == rid,
{
}

/// A fake-key action on an unknown name asks for no engine operation at all
/// and replies with an error that names the key.
pub proof fn lemma_unknown_fake_key(
    name: Seq<char>,
    action: FakeKeyActionMessage,
    snap: EngineSnapshotV,
)
    requires
        key_index(snap.virtual_key_names, name, 0) is None,
    ensures
        dispatch_op(ClientMessageV::ActOnFakeKey { name, action }, snap) is None,
        dispatch_replies(ClientMessageV::ActOnFakeKey { name, action }, snap) == seq![
            ServerMessageV::Error { msg: "unknown virtual/fake key: "@ + name },
        ],
{
}

} // verus!
