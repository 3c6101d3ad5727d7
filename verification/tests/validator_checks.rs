//! Configuration-validator tests: the outcome shape, and the validator's
//! documented rules case by case.

use kanata_control::protocol::ServerMessage;
use kanata_control::validator::{validate_config_content, validate_config_str};

#[test]
fn test_validate_config_content_valid() {
    let valid_config = r#"
(defsrc
  esc  1    2    3    4
)

(deflayer default
  esc  1    2    3    4
)
"#;

    match validate_config_content(valid_config, None) {
        ServerMessage::ValidationResult {
            success,
            errors,
            warnings,
            error_count,
            warning_count,
            request_id,
        } => {
            assert!(success, "Valid config should be successful");
            assert!(errors.is_empty(), "Valid config should have no errors");
            assert!(warnings.is_empty(), "Valid config should have no warnings");
            assert_eq!(error_count, 0, "Error count should be zero");
            assert_eq!(warning_count, 0, "Warning count should be zero");
            assert_eq!(request_id, None, "Request ID should be None when not provided");
        }
        other => panic!("Expected ValidationResult, got {:?}", other),
    }
}

#[test]
fn test_validate_config_content_invalid() {
    let invalid_config = "\n(defsrc\n  esc  1    2    3    4\n  \n(deflayer default\n  esc  1    2    3    4\n";

    match validate_config_content(invalid_config, Some("req-1".to_string())) {
        ServerMessage::ValidationResult {
            success,
            errors,
            error_count,
            warning_count,
            request_id,
            ..
        } => {
            assert!(!success, "Invalid config should fail validation");
            assert!(!errors.is_empty(), "Invalid config should have errors");
            assert_eq!(
                error_count,
                errors.len(),
                "Error count should match errors length"
            );
            assert_eq!(warning_count, 0, "Warning count should be zero for this test");
            assert_eq!(
                request_id,
                Some("req-1".to_string()),
                "Request ID should be echoed back"
            );

            let error = &errors[0];
            assert_eq!(error.severity, "error");
            assert!(!error.message.is_empty());
            assert!(error.line > 0, "Error should have a valid line number");
            assert!(error.file.is_some(), "Error should include file information");
        }
        other => panic!("Expected ValidationResult, got {:?}", other),
    }
}

#[test]
fn test_validate_config_content_empty() {
    let empty_config = "";

    match validate_config_content(empty_config, None) {
        ServerMessage::ValidationResult {
            success,
            errors,
            error_count,
            ..
        } => {
            assert!(!success, "Empty config should fail validation");
            assert!(!errors.is_empty(), "Empty config should have errors");
            assert_eq!(
                error_count,
                errors.len(),
                "Error count should match errors length"
            );

            let error = &errors[0];
            assert_eq!(error.severity, "error");
            assert!(error.line > 0, "Error should have a valid line number");
        }
        other => panic!("Expected ValidationResult, got {:?}", other),
    }
}

#[test]
fn test_validate_config_content_enhanced_error_info() {
    let invalid_config = "(defsrc esc) (deflayer";

    match validate_config_content(invalid_config, None) {
        ServerMessage::ValidationResult {
            success,
            errors,
            error_count,
            warning_count,
            ..
        } => {
            assert!(!success);
            assert!(!errors.is_empty());
            assert_eq!(error_count, errors.len());
            assert_eq!(warning_count, 0);

            let error = &errors[0];
            assert_eq!(error.severity, "error");
            assert!(error.line >= 1);
            assert!(error.file.is_some());
            assert!(!error.message.is_empty());
        }
        other => panic!("Expected ValidationResult, got {:?}", other),
    }
}

#[test]
fn test_validate_config_content_size_limit() {
    let invalid_config = "(".repeat(1000);

    match validate_config_content(&invalid_config, Some("size-test".to_string())) {
        ServerMessage::ValidationResult {
            success,
            errors,
            request_id,
            ..
        } => {
            assert!(!success, "Invalid config should fail");
            assert!(!errors.is_empty(), "Should have parsing errors");
            assert_eq!(request_id, Some("size-test".to_string()));
        }
        other => panic!("Expected ValidationResult, got {:?}", other),
    }
}

#[test]
fn test_minimal_config_is_valid() {
    match validate_config_content("(defsrc esc)(deflayer default esc)", None) {
        ServerMessage::ValidationResult {
            success,
            errors,
            warnings,
            ..
        } => {
            assert!(success);
            assert!(errors.is_empty());
            assert!(warnings.is_empty());
        }
        other => panic!("Expected ValidationResult, got {:?}", other),
    }
}

#[test]
fn test_missing_defsrc_is_an_error() {
    let (errors, warnings) = validate_config_str("(deflayer default esc)");
    assert_eq!(errors.len(), 1);
    assert_eq!(errors[0].message, "missing defsrc block");
    assert_eq!(errors[0].line, 1);
    assert_eq!(errors[0].category.as_deref(), Some("semantic"));
    assert!(warnings.is_empty());
}

#[test]
fn test_unbalanced_close_position() {
    let (errors, _) = validate_config_str("(defsrc esc)\n(deflayer default esc)\n)");
    assert_eq!(errors.len(), 1);
    assert_eq!(errors[0].message, "unmatched closing parenthesis");
    assert_eq!(errors[0].line, 3);
    assert_eq!(errors[0].column, Some(1));
    assert_eq!(errors[0].category.as_deref(), Some("syntax"));
}

#[test]
fn test_deflayer_key_count_mismatch() {
    let (errors, warnings) = validate_config_str("(defsrc esc 1)\n(deflayer default esc)");
    assert_eq!(errors.len(), 1);
    assert_eq!(errors[0].message, "deflayer key count differs from defsrc");
    assert_eq!(errors[0].line, 2);
    assert!(warnings.is_empty());
}

#[test]
fn test_unknown_block_is_a_warning() {
    let (errors, warnings) =
        validate_config_str("(defsrc esc)\n(deflayer default esc)\n(defwidget w)");
    assert!(errors.is_empty());
    assert_eq!(warnings.len(), 1);
    assert_eq!(warnings[0].severity, "warning");
    assert_eq!(warnings[0].message, "unrecognized configuration block");
    assert_eq!(warnings[0].line, 3);
}

#[test]
fn test_comments_are_skipped() {
    let cfg = ";; a banner\n(defsrc esc) ;; trailing words\n(deflayer default esc)\n";
    let (errors, warnings) = validate_config_str(cfg);
    assert!(errors.is_empty());
    assert!(warnings.is_empty());
}

#[test]
fn test_multiple_defsrc_rejected() {
    let (errors, _) = validate_config_str("(defsrc esc)(defsrc esc)(deflayer default esc)");
    assert_eq!(errors.len(), 1);
    assert_eq!(errors[0].message, "more than one defsrc block");
}

#[test]
fn test_unterminated_string_rejected() {
    let (errors, _) = validate_config_str("(defsrc esc)\n(deflayer default \"esc)");
    assert_eq!(errors.len(), 1);
    assert_eq!(errors[0].message, "unterminated string");
    assert_eq!(errors[0].line, 2);
}
