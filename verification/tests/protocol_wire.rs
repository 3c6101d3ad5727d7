//! Wire-format tests: exact JSON rendering and stream parsing.

use kanata_control::json::{parse_json_doc, Json, Step};
use kanata_control::protocol::{
    parse_client_message, parse_server_message, validation_error_from_json, ClientMessage,
    FakeKeyActionMessage, ServerMessage, ServerResponse, ValidationError,
};

fn bytes_str(b: Vec<u8>) -> String {
    String::from_utf8(b).expect("wire bytes are UTF-8")
}

#[test]
fn test_server_response_json_format() {
    assert_eq!(
        bytes_str(ServerResponse::Okay.as_bytes()).trim_end(),
        r#"{"status":"Ok"}"#
    );
    assert_eq!(
        bytes_str(
            ServerResponse::Error {
                msg: "test".to_string()
            }
            .as_bytes()
        )
        .trim_end(),
        r#"{"status":"Error","msg":"test"}"#
    );
}

#[test]
fn test_as_bytes_includes_newline() {
    let response = ServerResponse::Okay;
    let bytes = response.as_bytes();
    assert!(bytes.ends_with(b"\n"), "Response should end with newline");

    let error_response = ServerResponse::Error {
        msg: "test".to_string(),
    };
    let error_bytes = error_response.as_bytes();
    assert!(
        error_bytes.ends_with(b"\n"),
        "Error response should end with newline"
    );
}

#[test]
fn test_validate_config_message_serialization() {
    let validate_msg = ClientMessage::ValidateConfig {
        config_content: "(defsrc esc) (deflayer default esc)".to_string(),
        request_id: Some("req-456".to_string()),
    };

    let json = bytes_str(validate_msg.as_bytes());
    assert!(json.contains("ValidateConfig"));
    assert!(json.contains("config_content"));

    let deserialized = match parse_client_message(json.as_bytes(), 0) {
        Step::Done(m, _) => m,
        _ => panic!("Expected a parsed message"),
    };
    match deserialized {
        ClientMessage::ValidateConfig {
            config_content,
            request_id,
        } => {
            assert_eq!(config_content, "(defsrc esc) (deflayer default esc)");
            assert_eq!(request_id, Some("req-456".to_string()));
        }
        _ => panic!("Expected ValidateConfig message"),
    }
}

#[test]
fn test_validation_result_message_serialization() {
    let validation_msg = ServerMessage::ValidationResult {
        success: false,
        errors: vec![ValidationError {
            line: 42,
            message: "Test error".to_string(),
            severity: "error".to_string(),
            column: Some(15),
            file: Some("config.kbd".to_string()),
            category: None,
            help_text: None,
        }],
        warnings: vec![ValidationError {
            line: 10,
            message: "Test warning".to_string(),
            severity: "warning".to_string(),
            column: None,
            file: None,
            category: None,
            help_text: None,
        }],
        error_count: 1,
        warning_count: 1,
        request_id: Some("test-123".to_string()),
    };

    let json = bytes_str(validation_msg.as_bytes());
    assert!(json.contains("ValidationResult"));
    assert!(json.contains("success"));
    assert!(json.contains("errors"));
    assert!(json.contains("warnings"));
    assert!(json.contains("Test error"));
    assert!(json.contains("Test warning"));
    assert!(json.contains("config.kbd"));

    let deserialized = match parse_server_message(json.as_bytes(), 0) {
        Step::Done(m, _) => m,
        _ => panic!("Expected a parsed message"),
    };
    match deserialized {
        ServerMessage::ValidationResult {
            success,
            errors,
            warnings,
            error_count,
            warning_count,
            request_id,
        } => {
            assert!(!success);
            assert_eq!(errors.len(), 1);
            assert_eq!(warnings.len(), 1);
            assert_eq!(error_count, 1);
            assert_eq!(warning_count, 1);
            assert_eq!(request_id, Some("test-123".to_string()));
            assert_eq!(errors[0].line, 42);
            assert_eq!(errors[0].message, "Test error");
            assert_eq!(errors[0].column, Some(15));
            assert_eq!(errors[0].file, Some("config.kbd".to_string()));
            assert_eq!(warnings[0].line, 10);
            assert_eq!(warnings[0].message, "Test warning");
            assert_eq!(warnings[0].column, None);
            assert_eq!(warnings[0].file, None);
        }
        _ => panic!("Expected ValidationResult message"),
    }
}

#[test]
fn test_set_session_mode_message_serialization() {
    let session_msg = ClientMessage::SetSessionMode { quiet: true };

    let json = bytes_str(session_msg.as_bytes());
    assert!(json.contains("SetSessionMode"));
    assert!(json.contains("quiet"));
    assert!(json.contains("true"));

    let deserialized = match parse_client_message(json.as_bytes(), 0) {
        Step::Done(m, _) => m,
        _ => panic!("Expected a parsed message"),
    };
    match deserialized {
        ClientMessage::SetSessionMode { quiet } => {
            assert!(quiet);
        }
        _ => panic!("Expected SetSessionMode message"),
    }
}

#[test]
fn test_backward_compatibility_validation_error() {
    let old_format_json = r#"{
            "line": 5,
            "message": "Syntax error",
            "severity": "error"
        }"#;

    let doc = match parse_json_doc(old_format_json.as_bytes(), 0) {
        Step::Done(d, _) => d,
        _ => panic!("document should parse"),
    };
    let validation_error = validation_error_from_json(&doc).expect("old format still reads");
    assert_eq!(validation_error.line, 5);
    assert_eq!(validation_error.message, "Syntax error");
    assert_eq!(validation_error.severity, "error");
    assert_eq!(validation_error.column, None);
    assert_eq!(validation_error.file, None);
}

#[test]
fn test_string_escapes_round_trip() {
    let msg = ServerMessage::Error {
        msg: "a \"quoted\" name\nwith\tcontrol \\ bytes".to_string(),
    };
    let bytes = msg.as_bytes();
    let text = bytes_str(bytes.clone());
    assert!(text.contains(r#"\"quoted\""#));
    assert!(text.contains(r#"\n"#));
    assert!(text.contains(r#"\t"#));
    assert!(text.contains(r#"\\"#));
    match parse_server_message(&bytes, 0) {
        Step::Done(ServerMessage::Error { msg }, _) => {
            assert_eq!(msg, "a \"quoted\" name\nwith\tcontrol \\ bytes");
        }
        _ => panic!("escaped message should parse back"),
    }
}

#[test]
fn test_unicode_escape_parsing() {
    // A basic-plane escape and a surrogate pair.
    let text = "{\"ChangeLayer\":{\"new\":\"A\\u00e9\\uD83D\\uDE00\"}}";
    match parse_client_message(text.as_bytes(), 0) {
        Step::Done(ClientMessage::ChangeLayer { new }, _) => {
            assert_eq!(new, "A\u{e9}\u{1F600}");
        }
        _ => panic!("unicode escapes should parse"),
    }
}

#[test]
fn test_stream_parses_back_to_back_values() {
    let text = "{\"Reload\":{}} {\"ReloadNum\":{\"index\":3}}";
    let bytes = text.as_bytes();
    let (first, next) = match parse_client_message(bytes, 0) {
        Step::Done(m, p) => (m, p),
        _ => panic!("first value should parse"),
    };
    assert!(matches!(first, ClientMessage::Reload {}));
    match parse_client_message(bytes, next) {
        Step::Done(ClientMessage::ReloadNum { index }, _) => assert_eq!(index, 3),
        _ => panic!("second value should parse"),
    }
}

#[test]
fn test_stream_incomplete_and_malformed() {
    assert!(matches!(
        parse_client_message(b"{\"Reload\":{", 0),
        Step::NeedMore
    ));
    assert!(matches!(
        parse_client_message(b"{\"Reload\":]", 0),
        Step::Malformed
    ));
    assert!(matches!(
        parse_client_message(b"{\"NoSuchCommand\":{}}", 0),
        Step::Malformed
    ));
    assert!(matches!(parse_client_message(b"   ", 0), Step::NeedMore));
}

#[test]
fn test_number_parsing_limits() {
    match parse_json_doc(b"{\"a\":18446744073709551615} ", 0) {
        Step::Done(Json::Obj(fields), _) => match &fields[0].1 {
            Json::UInt(n) => assert_eq!(*n, u64::MAX),
            _ => panic!("expected a number"),
        },
        _ => panic!("document should parse"),
    }
    // Numbers beyond the protocol's unsigned integers are carried as text.
    for (text, lit) in [
        ("{\"a\":18446744073709551616} ", "18446744073709551616"),
        ("{\"a\":-1} ", "-1"),
        ("{\"a\":1.5} ", "1.5"),
        ("{\"a\":-2.5e-3} ", "-2.5e-3"),
        ("{\"a\":0E8} ", "0E8"),
    ] {
        match parse_json_doc(text.as_bytes(), 0) {
            Step::Done(Json::Obj(fields), _) => match &fields[0].1 {
                Json::Num(t) => assert_eq!(t, lit),
                other => panic!("expected a literal number, got {:?}", other),
            },
            _ => panic!("document should parse: {text}"),
        }
    }
    assert!(matches!(parse_json_doc(b"{\"a\":01} ", 0), Step::Malformed));
    assert!(matches!(parse_json_doc(b"{\"a\":1.} ", 0), Step::Malformed));
    assert!(matches!(parse_json_doc(b"{\"a\":1e} ", 0), Step::Malformed));
    assert!(matches!(parse_json_doc(b"{\"a\":-} ", 0), Step::Malformed));
}

#[test]
fn test_numbers_in_ignored_fields_are_tolerated() {
    // An extra field carrying a fractional number does not break the message.
    match parse_client_message(b"{\"Reload\":{\"extra\":-1.25e2}}", 0) {
        Step::Done(m, _) => assert!(matches!(m, ClientMessage::Reload {})),
        _ => panic!("a fractional number in an ignored field is fine"),
    }
    // A protocol field that needs an unsigned integer still rejects it.
    assert!(matches!(
        parse_client_message(b"{\"SetMouse\":{\"x\":-5,\"y\":0}}", 0),
        Step::Malformed
    ));
    // A literal number survives rendering verbatim.
    let doc = Json::Obj(vec![("k".to_string(), Json::Num("-1.25e2".to_string()))]);
    let text = String::from_utf8(kanata_control::json::json_to_bytes(&doc)).unwrap();
    assert_eq!(text, "{\"k\":-1.25e2}");
}

#[test]
fn test_set_mouse_bounds() {
    match parse_client_message(b"{\"SetMouse\":{\"x\":100,\"y\":200}}", 0) {
        Step::Done(ClientMessage::SetMouse { x, y }, _) => {
            assert_eq!(x, 100);
            assert_eq!(y, 200);
        }
        _ => panic!("SetMouse should parse"),
    }
    assert!(matches!(
        parse_client_message(b"{\"SetMouse\":{\"x\":70000,\"y\":0}}", 0),
        Step::Malformed
    ));
}

#[test]
fn test_act_on_fake_key_parsing() {
    match parse_client_message(b"{\"ActOnFakeKey\":{\"name\":\"mykey\",\"action\":\"Tap\"}}", 0) {
        Step::Done(ClientMessage::ActOnFakeKey { name, action }, _) => {
            assert_eq!(name, "mykey");
            assert_eq!(action, FakeKeyActionMessage::Tap);
        }
        _ => panic!("ActOnFakeKey should parse"),
    }
    assert!(matches!(
        parse_client_message(
            b"{\"ActOnFakeKey\":{\"name\":\"mykey\",\"action\":\"Smash\"}}",
            0
        ),
        Step::Malformed
    ));
}

#[test]
fn test_request_id_omitted_when_absent() {
    let msg = ClientMessage::ValidateConfig {
        config_content: "x".to_string(),
        request_id: None,
    };
    let text = bytes_str(msg.as_bytes());
    assert!(!text.contains("request_id"));
}

#[test]
fn test_every_client_message_round_trips() {
    let samples = vec![
        ClientMessage::ChangeLayer {
            new: "gaming".to_string(),
        },
        ClientMessage::RequestLayerNames {},
        ClientMessage::RequestCurrentLayerInfo {},
        ClientMessage::RequestCurrentLayerName {},
        ClientMessage::ActOnFakeKey {
            name: "vk".to_string(),
            action: FakeKeyActionMessage::Release,
        },
        ClientMessage::SetMouse { x: 65535, y: 0 },
        ClientMessage::Reload {},
        ClientMessage::ReloadNext {},
        ClientMessage::ReloadPrev {},
        ClientMessage::ReloadNum { index: 7 },
        ClientMessage::ReloadFile {
            path: "/tmp/alt.kbd".to_string(),
        },
        ClientMessage::ValidateConfig {
            config_content: "(defsrc esc)".to_string(),
            request_id: None,
        },
        ClientMessage::SetSessionMode { quiet: false },
    ];
    for msg in samples {
        let bytes = msg.as_bytes();
        match parse_client_message(&bytes, 0) {
            Step::Done(back, _) => assert_eq!(back, msg),
            _ => panic!("message should round trip: {:?}", msg),
        }
    }
}

#[test]
fn test_every_server_message_round_trips() {
    let samples = vec![
        ServerMessage::LayerChange {
            new: "base".to_string(),
        },
        ServerMessage::LayerNames {
            names: vec!["base".to_string(), "nav".to_string()],
        },
        ServerMessage::CurrentLayerInfo {
            name: "base".to_string(),
            cfg_text: "(deflayer base esc)".to_string(),
        },
        ServerMessage::ConfigFileReload {
            new: "/etc/cfg.kbd".to_string(),
        },
        ServerMessage::CurrentLayerName {
            name: "base".to_string(),
        },
        ServerMessage::MessagePush {
            message: Json::Arr(vec![Json::Str("hello".to_string()), Json::UInt(3)]),
        },
        ServerMessage::Error {
            msg: "boom".to_string(),
        },
        ServerMessage::ValidationResult {
            success: true,
            errors: vec![],
            warnings: vec![],
            error_count: 0,
            warning_count: 0,
            request_id: None,
        },
    ];
    for msg in samples {
        let bytes = msg.as_bytes();
        match parse_server_message(&bytes, 0) {
            Step::Done(back, _) => assert_eq!(back, msg),
            _ => panic!("message should round trip: {:?}", msg),
        }
    }
}
