//! Session, registry, watcher, and discovery behavior.

use kanata_control::discover::{keep_existing, scan_import_candidates};
use kanata_control::json::json_to_bytes;
use kanata_control::sexpr::{simple_sexpr_to_json_array, SimpleSExpr};
use kanata_control::watch::event_matches_watched;
use kanata_control::protocol::{ClientMessage, FakeKeyActionMessage, ServerMessage, ServerResponse};
use kanata_control::session::{
    handle_malformed, reload_response, session_step, ConnectionRegistry, EngineOp, EngineSnapshot,
    SessionState,
};
use kanata_control::watch::{watch_plan, PathFacts, ReloadFlags, WatchSubscription, WatcherState};

fn snapshot() -> EngineSnapshot {
    EngineSnapshot {
        layer_names: vec!["default".to_string(), "extra".to_string()],
        current_layer: 1,
        current_cfg_text: "(deflayer extra esc)".to_string(),
        virtual_key_names: vec!["vk1".to_string(), "vk2".to_string()],
    }
}

#[test]
fn test_first_command_gets_one_layer_change_push() {
    let snap = snapshot();
    let mut sess = SessionState::new();
    let out = session_step(&mut sess, ClientMessage::RequestLayerNames {}, &snap);
    assert_eq!(out.replies.len(), 2);
    assert!(matches!(&out.replies[0], ServerMessage::LayerChange { new } if new == "extra"));
    assert!(matches!(&out.replies[1], ServerMessage::LayerNames { names }
        if names == &vec!["default".to_string(), "extra".to_string()]));
    assert!(out.wakeup);

    // The push happens exactly once: the next command gets only its reply.
    let out2 = session_step(&mut sess, ClientMessage::RequestCurrentLayerName {}, &snap);
    assert_eq!(out2.replies.len(), 1);
    assert!(matches!(&out2.replies[0], ServerMessage::CurrentLayerName { name } if name == "extra"));
}

#[test]
fn test_quiet_mode_suppresses_push() {
    let snap = snapshot();
    let mut sess = SessionState::new();
    let out = session_step(
        &mut sess,
        ClientMessage::SetSessionMode { quiet: true },
        &snap,
    );
    assert!(out.replies.is_empty());
    assert!(!out.wakeup);
    let out2 = session_step(&mut sess, ClientMessage::RequestCurrentLayerName {}, &snap);
    assert_eq!(out2.replies.len(), 1);
    assert!(matches!(&out2.replies[0], ServerMessage::CurrentLayerName { .. }));
}

#[test]
fn test_set_session_mode_loud_pushes_at_once() {
    let snap = snapshot();
    let mut sess = SessionState::new();
    let out = session_step(
        &mut sess,
        ClientMessage::SetSessionMode { quiet: false },
        &snap,
    );
    assert_eq!(out.replies.len(), 1);
    assert!(matches!(&out.replies[0], ServerMessage::LayerChange { new } if new == "extra"));
    assert!(out.op.is_none());
    assert!(!out.wakeup);
}

#[test]
fn test_unknown_fake_key_replies_error_and_touches_nothing() {
    let snap = snapshot();
    let mut sess = SessionState::new();
    session_step(
        &mut sess,
        ClientMessage::SetSessionMode { quiet: true },
        &snap,
    );
    let out = session_step(
        &mut sess,
        ClientMessage::ActOnFakeKey {
            name: "ghost".to_string(),
            action: FakeKeyActionMessage::Press,
        },
        &snap,
    );
    assert!(out.op.is_none(), "no engine operation may happen");
    assert_eq!(out.replies.len(), 1);
    assert!(matches!(&out.replies[0], ServerMessage::Error { msg }
        if msg == "unknown virtual/fake key: ghost"));
    assert!(out.wakeup, "the engine loop is woken after every command");
}

#[test]
fn test_known_fake_key_resolves_to_row_index() {
    let snap = snapshot();
    let mut sess = SessionState::new();
    session_step(
        &mut sess,
        ClientMessage::SetSessionMode { quiet: true },
        &snap,
    );
    let out = session_step(
        &mut sess,
        ClientMessage::ActOnFakeKey {
            name: "vk2".to_string(),
            action: FakeKeyActionMessage::Toggle,
        },
        &snap,
    );
    assert!(matches!(
        out.op,
        Some(EngineOp::FakeKey(1, FakeKeyActionMessage::Toggle))
    ));
    assert!(out.replies.is_empty());
    assert!(out.wakeup);
}

#[test]
fn test_oversized_validation_payload() {
    let snap = snapshot();
    let mut sess = SessionState::new();
    session_step(
        &mut sess,
        ClientMessage::SetSessionMode { quiet: true },
        &snap,
    );
    let big = "a".repeat(1_000_001);
    let out = session_step(
        &mut sess,
        ClientMessage::ValidateConfig {
            config_content: big,
            request_id: Some("r9".to_string()),
        },
        &snap,
    );
    assert_eq!(out.replies.len(), 1);
    match &out.replies[0] {
        ServerMessage::ValidationResult {
            success,
            error_count,
            warning_count,
            request_id,
            ..
        } => {
            assert!(!success);
            assert_eq!(*error_count, 1);
            assert_eq!(*warning_count, 0);
            assert_eq!(request_id.as_deref(), Some("r9"));
        }
        other => panic!("Expected ValidationResult, got {:?}", other),
    }
    assert!(out.wakeup, "the engine loop is woken after every command");

    // `None` request ids are echoed unchanged too.
    let big2 = "a".repeat(1_000_001);
    let out2 = session_step(
        &mut sess,
        ClientMessage::ValidateConfig {
            config_content: big2,
            request_id: None,
        },
        &snap,
    );
    match &out2.replies[0] {
        ServerMessage::ValidationResult { request_id, .. } => assert_eq!(*request_id, None),
        other => panic!("Expected ValidationResult, got {:?}", other),
    }
}

#[test]
fn test_reload_commands_want_responses() {
    let snap = snapshot();
    let mut sess = SessionState::new();
    session_step(
        &mut sess,
        ClientMessage::SetSessionMode { quiet: true },
        &snap,
    );
    let out = session_step(&mut sess, ClientMessage::ReloadNum { index: 2 }, &snap);
    assert!(matches!(out.op, Some(EngineOp::ReloadNum(2))));
    assert!(out.needs_reload_reply);
    assert!(out.wakeup);

    assert_eq!(reload_response(Ok(())), ServerResponse::Okay);
    assert_eq!(
        reload_response(Err("no such layer".to_string())),
        ServerResponse::Error {
            msg: "no such layer".to_string()
        }
    );
}

#[test]
fn test_malformed_input_drops_connection() {
    let mut reg = ConnectionRegistry::new();
    reg.insert("1.2.3.4:1000".to_string());
    reg.insert("5.6.7.8:2000".to_string());
    assert!(reg.contains("1.2.3.4:1000"));

    let reply = handle_malformed(&mut reg, "1.2.3.4:1000", "bad token".to_string());
    assert!(matches!(reply, ServerResponse::Error { msg }
        if msg == "Failed to deserialize command: bad token"));
    assert!(!reg.contains("1.2.3.4:1000"));
    assert!(reg.contains("5.6.7.8:2000"));
}

#[test]
fn test_registry_keeps_one_entry_per_address() {
    let mut reg = ConnectionRegistry::new();
    reg.insert("a:1".to_string());
    reg.insert("a:1".to_string());
    reg.remove("a:1");
    assert!(!reg.contains("a:1"));
}

#[test]
fn test_watch_plan_is_the_exact_union() {
    let cfg = vec!["/etc/cfg.kbd".to_string()];
    let inc = vec!["/etc/sub.kbd".to_string(), "/etc/more.kbd".to_string()];
    let plan = watch_plan(&cfg, &inc);
    assert_eq!(
        plan,
        vec![
            "/etc/cfg.kbd".to_string(),
            "/etc/sub.kbd".to_string(),
            "/etc/more.kbd".to_string()
        ]
    );
}

#[test]
fn test_restart_drops_before_install() {
    let mut w = WatcherState::new();
    w.install(Some(WatchSubscription {
        paths: vec!["/a/cfg.kbd".to_string()],
    }));
    assert!(w.live.is_some());
    w.request_restart();
    assert!(w.restart_requested);

    // A restart tears the old subscription down first...
    w.drop_subscription();
    assert!(w.live.is_none(), "no two native watchers may coexist");
    // ...then installs the replacement, bound to the latest set.
    w.install(Some(WatchSubscription {
        paths: vec!["/a/cfg.kbd".to_string(), "/a/sub.kbd".to_string()],
    }));
    assert!(!w.restart_requested);
    assert_eq!(
        w.live.as_ref().map(|s| s.paths.clone()),
        Some(vec!["/a/cfg.kbd".to_string(), "/a/sub.kbd".to_string()])
    );

    // A failed recreation leaves the watcher explicitly absent.
    w.drop_subscription();
    w.install(None);
    assert!(w.live.is_none());
    assert!(!w.restart_requested);
}

#[test]
fn test_reload_flag_is_idempotent() {
    let mut f = ReloadFlags {
        live_reload_requested: false,
    };
    f.request_live_reload();
    assert!(f.live_reload_requested);
    f.request_live_reload();
    assert!(f.live_reload_requested);
}

#[test]
fn test_discovery_resolves_relative_paths() {
    let directive = format!("({}ude \"sub.kbd\")\n", "incl");
    let found = scan_import_candidates("/a/cfg.kbd", &directive);
    assert_eq!(found, vec!["/a/sub.kbd".to_string()]);

    let kept = keep_existing(found.clone(), &vec![true]);
    assert_eq!(kept, vec!["/a/sub.kbd".to_string()]);
    let dropped = keep_existing(found, &vec![false]);
    assert!(dropped.is_empty());
}

#[test]
fn test_discovery_skips_other_lines() {
    let content = format!(
        "(defsrc esc)\n  ({}ude \"/abs/other.kbd\")  \nplain words\n",
        "incl"
    );
    let found = scan_import_candidates("/a/cfg.kbd", &content);
    assert_eq!(found, vec!["/abs/other.kbd".to_string()]);
}

#[test]
fn test_discovery_needs_a_quoted_path() {
    let content = format!("({}ude sub.kbd)\n", "incl");
    let found = scan_import_candidates("/a/cfg.kbd", &content);
    assert!(found.is_empty());
}

#[test]
fn test_event_matching_five_strategies() {
    let watched = vec![PathFacts {
        path: "/a/cfg.kbd".to_string(),
        canonical: Some("/real/a/cfg.kbd".to_string()),
        is_dir: false,
    }];
    let cwd = Some("/work".to_string());

    // Exact path.
    let exact = PathFacts {
        path: "/a/cfg.kbd".to_string(),
        canonical: None,
        is_dir: false,
    };
    assert!(event_matches_watched(&exact, &watched, &cwd));

    // Canonical form.
    let canonical = PathFacts {
        path: "/other/link.kbd".to_string(),
        canonical: Some("/real/a/cfg.kbd".to_string()),
        is_dir: false,
    };
    assert!(event_matches_watched(&canonical, &watched, &cwd));

    // Absolute under the working directory.
    let rel_watched = vec![PathFacts {
        path: "cfg.kbd".to_string(),
        canonical: None,
        is_dir: false,
    }];
    let rel_event = PathFacts {
        path: "/work/cfg.kbd".to_string(),
        canonical: None,
        is_dir: false,
    };
    assert!(event_matches_watched(&rel_event, &rel_watched, &cwd));

    // Paths are compared literally: an unnormalized spelling of the same
    // file does not match by itself.
    let renamed = PathFacts {
        path: "/a/./../a/cfg.kbd".to_string(),
        canonical: None,
        is_dir: false,
    };
    assert!(!event_matches_watched(&renamed, &watched, &None));
    // A stale canonical form does not defeat the literal path comparison.
    let sibling = PathFacts {
        path: "/a/cfg.kbd".to_string(),
        canonical: Some("/elsewhere/cfg.kbd".to_string()),
        is_dir: false,
    };
    assert!(event_matches_watched(&sibling, &watched, &None));

    // A directory-level event on the watched file's parent.
    let parent_dir = PathFacts {
        path: "/a".to_string(),
        canonical: None,
        is_dir: true,
    };
    assert!(event_matches_watched(&parent_dir, &watched, &None));

    // A stranger matches nothing.
    let stranger = PathFacts {
        path: "/b/other.kbd".to_string(),
        canonical: Some("/real/b/other.kbd".to_string()),
        is_dir: false,
    };
    assert!(!event_matches_watched(&stranger, &watched, &None));
}

#[test]
fn test_sexpr_to_json_array() {
    let exprs = vec![
        SimpleSExpr::Atom("layer".to_string()),
        SimpleSExpr::List(vec![
            SimpleSExpr::Atom("a".to_string()),
            SimpleSExpr::Atom("b".to_string()),
        ]),
    ];
    let doc = simple_sexpr_to_json_array(&exprs);
    let text = String::from_utf8(json_to_bytes(&doc)).unwrap();
    assert_eq!(text, r#"["layer",["a","b"]]"#);
}
