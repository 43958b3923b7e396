//! The error type of the library.
use vstd::prelude::*;

verus! {

/// What can go wrong. Errors that come from the file system, the TOML codec or
/// the HTTP client carry the text of the underlying error.
#[derive(Debug, Clone, PartialEq, Eq)]
pub enum QuickcommandError {
    MissingTask,
    UnsupportedProvider(String),
    InvalidModelReply(String),
    ClarificationLimitReached,
    UserDeclined,
    OllamaApi(String),
    TomlDeserialize(String),
    TomlSerialize(String),
    Io(String),
    Http(String),
}

pub type Result<T> = core::result::Result<T, QuickcommandError>;

/// The text shown for an error.
pub open spec fn error_message(e: QuickcommandError) -> Seq<char> {
    match e {
        QuickcommandError::MissingTask => "A task is required. Run `qc \"<task>\"`."@,
        QuickcommandError::UnsupportedProvider(p) => "Unsupported provider: "@ + p@,
        QuickcommandError::InvalidModelReply(m) => "Invalid model reply: "@ + m@,
        QuickcommandError::ClarificationLimitReached => "Too many clarification rounds."@,
        QuickcommandError::UserDeclined => "Execution was cancelled by the user."@,
        QuickcommandError::OllamaApi(m) => "Ollama request failed: "@ + m@,
        QuickcommandError::TomlDeserialize(m) => "Failed to parse TOML: "@ + m@,
        QuickcommandError::TomlSerialize(m) => "Failed to serialize TOML: "@ + m@,
        QuickcommandError::Io(m) => m@,
        QuickcommandError::Http(m) => m@,
    }
}

impl QuickcommandError {
    /// The text shown for this error.
    pub fn message(&self) -> (r: String)
        ensures
            r@ == error_message(*self),
    {
        match self {
            QuickcommandError::MissingTask => String::from_str(
                "A task is required. Run `qc \"<task>\"`.",
            ),
            QuickcommandError::UnsupportedProvider(p) => {
                String::from_str("Unsupported provider: ").concat(p.as_str())
            },
            QuickcommandError::InvalidModelReply(m) => {
                String::from_str("Invalid model reply: ").concat(m.as_str())
            },
            QuickcommandError::ClarificationLimitReached => String::from_str(
                "Too many clarification rounds.",
            ),
            QuickcommandError::UserDeclined => String::from_str(
                "Execution was cancelled by the user.",
            ),
            QuickcommandError::OllamaApi(m) => {
                String::from_str("Ollama request failed: ").concat(m.as_str())
            },
            QuickcommandError::TomlDeserialize(m) => {
                String::from_str("Failed to parse TOML: ").concat(m.as_str())
            },
            QuickcommandError::TomlSerialize(m) => {
                String::from_str("Failed to serialize TOML: ").concat(m.as_str())
            },
            QuickcommandError::Io(m) => m.clone(),
            QuickcommandError::Http(m) => m.clone(),
        }
    }
}

} // verus!
