use chrome_devtools_cli::error::{CliError, ErrorCode};
use chrome_devtools_cli::format::OutputFormat;
use chrome_devtools_cli::result::CommandResult;

#[test]
fn test_error_code_values() {
    assert_eq!(ErrorCode::Unspecified.code(), 10);
    assert_eq!(ErrorCode::ChromeEndpointResolution.code(), 1);
    assert_eq!(ErrorCode::ChromeConnection.code(), 2);
    assert_eq!(ErrorCode::TargetNotFound.code(), 3);
    assert_eq!(ErrorCode::CommandExecution.code(), 4);
    assert_eq!(ErrorCode::FileIo.code(), 5);
    assert_eq!(ErrorCode::Daemon.code(), 6);
    assert_eq!(ErrorCode::InvalidInput.code(), 7);
    assert_eq!(ErrorCode::JavaScriptError.code(), 8);
    assert_eq!(ErrorCode::WebSocketDisconnected.code(), 9);
}

#[test]
fn test_cli_error_display() {
    let err = CliError::new(ErrorCode::TargetNotFound, "No page at index 5");
    let display = err.to_display_string();
    assert!(display.contains("[E3]"));
    assert!(display.contains("No page at index 5"));
    assert_eq!(display, "[E3] No page at index 5");
}

#[test]
fn test_cli_error_with_source() {
    let source = anyhow::Error::msg("connection refused");
    let err = CliError::with_source(ErrorCode::ChromeConnection, "Failed to connect", &source.to_string());
    let display = err.to_display_string();
    assert!(display.contains("[E2]"));
    assert!(display.contains("Failed to connect"));
    assert!(display.contains("connection refused"));
    assert_eq!(display, "[E2] Failed to connect\nCause: connection refused");
}

#[test]
fn test_from_anyhow() {
    let anyhow_err = anyhow::Error::msg("something went wrong");
    let cli_err = CliError::from_message(&format!("{anyhow_err:#}"));
    assert_eq!(cli_err.code(), ErrorCode::Unspecified);
    assert!(cli_err.to_display_string().contains("something went wrong"));
}

#[test]
fn test_cli_error_to_anyhow() {
    let cli_err = CliError::new(ErrorCode::FileIo, "File not found");
    assert_eq!(cli_err.code(), ErrorCode::FileIo);
    assert_eq!(cli_err.code_str(), "5");
    assert_eq!(cli_err.message(), "File not found");
}

#[test]
fn test_cli_result_type() {
    let ok_result: Result<i32, CliError> = Ok(42);
    assert_eq!(ok_result.unwrap(), 42);
    let err_result: Result<i32, CliError> = Err(CliError::new(ErrorCode::InvalidInput, "bad input"));
    assert!(err_result.is_err());
}

#[test]
fn output_format_from_flags() {
    assert_eq!(OutputFormat::from_flags(false, false), OutputFormat::Text);
    assert_eq!(OutputFormat::from_flags(true, false), OutputFormat::Json);
    assert_eq!(OutputFormat::from_flags(true, true), OutputFormat::Toon);
    assert_eq!(OutputFormat::from_flags(false, true), OutputFormat::Toon);
    assert!(OutputFormat::Text.is_text() && !OutputFormat::Text.is_json());
    assert!(OutputFormat::Json.is_json() && !OutputFormat::Json.is_toon());
    assert!(OutputFormat::Toon.is_toon() && !OutputFormat::Toon.is_text());
    assert_eq!(OutputFormat::default(), OutputFormat::Text);
}

#[test]
fn test_command_result_no_navigation() {
    let result = CommandResult::output("hello");
    assert_eq!(result.output, "hello");
    assert!(result.navigated_to.is_none());
    assert!(result.target_id.is_none());
    assert!(result.error_code.is_none());
}

#[test]
fn test_command_result_navigation_changed() {
    let result = CommandResult::output("hello").with_navigated_to_if_changed(
        "https://example.com/new".to_string(),
        "https://example.com/old".to_string(),
    );
    assert_eq!(result.navigated_to, Some("https://example.com/new".to_string()));
}

#[test]
fn test_command_result_navigation_unchanged() {
    let result = CommandResult::output("hello").with_navigated_to_if_changed(
        "https://example.com/same".to_string(),
        "https://example.com/same".to_string(),
    );
    assert!(result.navigated_to.is_none());
}

#[test]
fn test_command_result_target_id() {
    let result = CommandResult::output("hello").with_target_id("abc123");
    assert_eq!(result.target_id, Some("abc123".to_string()));
}

#[test]
fn test_command_result_error_code() {
    let result = CommandResult::output("hello").with_error_code(5);
    assert_eq!(result.error_code, Some(5));
}

#[test]
fn test_command_result_chaining() {
    let result = CommandResult::output("hello")
        .with_navigated_to("https://example.com")
        .with_target_id("tab-1")
        .with_error_code(42);
    assert_eq!(result.output, "hello");
    assert_eq!(result.navigated_to, Some("https://example.com".to_string()));
    assert_eq!(result.target_id, Some("tab-1".to_string()));
    assert_eq!(result.error_code, Some(42));
}
