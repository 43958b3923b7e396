//! The requests sent to the model and the replies it gives.
use vstd::prelude::*;

use crate::error::{QuickcommandError, Result};
use crate::text::str_eq;

verus! {

#[derive(Debug, Clone, PartialEq, Eq)]
pub struct ClarificationTurn {
    pub question: String,
    pub answer: String,
}

#[derive(Debug, Clone, PartialEq, Eq)]
pub struct GenerationRequest {
    pub task: String,
    pub clarification_history: Vec<ClarificationTurn>,
}

#[derive(Debug, Clone, PartialEq, Eq)]
pub struct CommandReply {
    pub summary: String,
    pub command: String,
}

#[derive(Debug, Clone, PartialEq, Eq)]
pub struct ClarificationReply {
    pub question: String,
    pub options: Vec<String>,
    pub recommended_index: Option<usize>,
}

#[derive(Debug, Clone, PartialEq, Eq)]
pub enum ModelReply {
    Command(CommandReply),
    Clarification(ClarificationReply),
}

/// The fields of a reply as the model's JSON gives them.
#[derive(Debug, Clone, PartialEq, Eq)]
pub struct RawReply {
    pub response_type: String,
    pub summary: Option<String>,
    pub command: Option<String>,
    pub question: Option<String>,
    pub options: Option<Vec<String>>,
    pub recommended_index: Option<usize>,
}

/// `e` is an `InvalidModelReply` error with message `m`.
pub open spec fn is_invalid_reply(r: Result<ModelReply>, m: Seq<char>) -> bool {
    r matches Err(QuickcommandError::InvalidModelReply(msg)) && msg@ == m
}

/// What a reply whose JSON decoded to `raw` means: a `command` reply needs a
/// command (the summary defaults to `Generated command.`); a `clarification`
/// reply needs a question and at least one option; any other type is refused.
pub open spec fn reply_meaning(raw: RawReply, r: Result<ModelReply>) -> bool {
    if raw.response_type@ == "command"@ {
        match raw.command {
            None => is_invalid_reply(r, "missing `command` field"@),
            Some(c) => r matches Ok(ModelReply::Command(reply)) && reply.command == c && match raw.summary {
                Some(s) => reply.summary == s,
                None => reply.summary@ == "Generated command."@,
            },
        }
    } else if raw.response_type@ == "clarification"@ {
        match (raw.question, raw.options) {
            (None, _) => is_invalid_reply(r, "missing `question` field"@),
            (Some(_), None) => is_invalid_reply(r, "missing `options` field"@),
            (Some(q), Some(o)) => if o.len() == 0 {
                is_invalid_reply(r, "`options` must contain at least one item"@)
            } else {
                r == Ok::<ModelReply, QuickcommandError>(
                    ModelReply::Clarification(
                        ClarificationReply {
                            question: q,
                            options: o,
                            recommended_index: raw.recommended_index,
                        },
                    ),
                )
            },
        }
    } else {
        is_invalid_reply(r, "unknown response_type: "@ + raw.response_type@)
    }
}

/// Turns the decoded JSON of a model reply into a reply. `decoded` is what
/// decoding the JSON gave: the fields, or the decoder's error message, which
/// becomes an `InvalidModelReply` error.
pub fn parse_model_reply(decoded: core::result::Result<RawReply, String>) -> (r: Result<ModelReply>)
    ensures
        match decoded {
            Ok(raw) => reply_meaning(raw, r),
            Err(m) => is_invalid_reply(r, m@),
        },
{
    let raw = match decoded {
        Ok(raw) => raw,
        Err(m) => return Err(QuickcommandError::InvalidModelReply(m)),
    };
    if str_eq(raw.response_type.as_str(), "command") {
        let summary = match raw.summary {
            Some(s) => s,
            None => String::from_str("Generated command."),
        };
        match raw.command {
            Some(command) => Ok(ModelReply::Command(CommandReply { summary, command })),
            None => Err(QuickcommandError::InvalidModelReply(String::from_str("missing `command` field"))),
        }
    } else if str_eq(raw.response_type.as_str(), "clarification") {
        let question = match raw.question {
            Some(q) => q,
            None => {
                return Err(
                    QuickcommandError::InvalidModelReply(String::from_str("missing `question` field")),
                )
            },
        };
        let options = match raw.options {
            Some(o) => o,
            None => {
                return Err(
                    QuickcommandError::InvalidModelReply(String::from_str("missing `options` field")),
                )
            },
        };
        if options.len() == 0 {
            return Err(
                QuickcommandError::InvalidModelReply(
                    String::from_str("`options` must contain at least one item"),
                ),
            );
        }
        Ok(
            ModelReply::Clarification(
                ClarificationReply { question, options, recommended_index: raw.recommended_index },
            ),
        )
    } else {
        Err(
            QuickcommandError::InvalidModelReply(
                String::from_str("unknown response_type: ").concat(raw.response_type.as_str()),
            ),
        )
    }
}

/// A clarification that the model's reply becomes carries the decoded
/// question, options and recommended index unchanged; a command carries the
/// decoded command unchanged, and the decoded summary where there is one.
pub proof fn lemma_reply_keeps_decoded_fields(raw: RawReply, r: Result<ModelReply>)
    requires
        reply_meaning(raw, r),
    ensures
        r matches Ok(ModelReply::Clarification(c)) ==> raw.response_type@ == "clarification"@
            && raw.question == Some(c.question) && raw.options == Some(c.options)
            && c.recommended_index == raw.recommended_index && c.options@.len() > 0,
        r matches Ok(ModelReply::Command(c)) ==> raw.response_type@ == "command"@ && raw.command
            == Some(c.command) && (raw.summary is Some ==> raw.summary == Some(c.summary)),
{
    if raw.response_type@ == "command"@ {
        assert(!(r matches Ok(ModelReply::Clarification(_))));
    }
}

} // verus!
