use ghostty_config::error::AppError;
use ghostty_config::validate::{validation_message, validation_ok};

#[test]
fn test_error_messages_carry_their_prefix() {
    assert_eq!(AppError::Cli("boom".to_string()).message(), "CLI error: boom");
    assert_eq!(AppError::Config("bad".to_string()).message(), "Config error: bad");
    assert_eq!(AppError::Io("gone".to_string()).message(), "IO error: gone");
    assert_eq!(AppError::Internal("oops".to_string()).message(), "oops");
}

#[test]
fn test_validation_message_blank_output_reads_as_valid() {
    assert_eq!(validation_message(""), "Configuration is valid!");
    assert_eq!(validation_message("  \n"), "Configuration is valid!");
}

#[test]
fn test_validation_message_passes_findings_through() {
    assert_eq!(validation_message("line 3: unknown key"), "line 3: unknown key");
}

#[test]
fn test_validation_ok_classification() {
    assert!(validation_ok("Configuration is valid!"));
    assert!(validation_ok("All Valid."));
    assert!(validation_ok("   "));
    assert!(!validation_ok("line 3: unknown key"));
}
