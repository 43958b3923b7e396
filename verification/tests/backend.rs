use quickcommand::backend::{chat_url, normalize_host, ollama_status_error};
use quickcommand::error::QuickcommandError;
use quickcommand::exec::execution_result;

#[test]
fn hosts_lose_trailing_slashes() {
    assert_eq!(normalize_host("http://localhost:11434//"), "http://localhost:11434");
    assert_eq!(normalize_host("http://localhost:11434"), "http://localhost:11434");
    assert_eq!(chat_url("http://h"), "http://h/api/chat");
}

#[test]
fn failed_status_becomes_api_error() {
    let error = ollama_status_error("404 Not Found", "missing");
    assert_eq!(
        error,
        QuickcommandError::OllamaApi("status=404 Not Found body=missing".into())
    );
    assert_eq!(
        error.message(),
        "Ollama request failed: status=404 Not Found body=missing"
    );
}

#[test]
fn error_messages() {
    assert_eq!(
        QuickcommandError::MissingTask.message(),
        "A task is required. Run `qc \"<task>\"`."
    );
    assert_eq!(QuickcommandError::Io("disk".into()).message(), "disk");
    assert_eq!(
        QuickcommandError::UnsupportedProvider("x".into()).message(),
        "Unsupported provider: x"
    );
}

#[test]
fn exit_codes() {
    assert_eq!(execution_result(Some(3)).exit_code, 3);
    assert_eq!(execution_result(None).exit_code, 1);
}
