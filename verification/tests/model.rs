use quickcommand::error::QuickcommandError;
use serde_json::Value;
use quickcommand::model::{
    parse_model_reply, ClarificationReply, CommandReply, ModelReply, RawReply,
};

/// Decodes a reply's JSON into its fields for these tests: each field must
/// have its JSON type where it is present and not null.
fn decode(content: &str) -> Result<RawReply, String> {
    let value: Value = serde_json::from_str(content).map_err(|e| e.to_string())?;
    let object = value.as_object().ok_or("expected an object")?;
    let text = |key: &str| -> Result<Option<String>, String> {
        match object.get(key) {
            None | Some(Value::Null) => Ok(None),
            Some(v) => v
                .as_str()
                .map(|s| Some(s.to_string()))
                .ok_or(format!("`{key}` must be a string")),
        }
    };
    let response_type = text("response_type")?.ok_or("missing field `response_type`")?;
    let options = match object.get("options") {
        None | Some(Value::Null) => None,
        Some(v) => Some(
            v.as_array()
                .ok_or("`options` must be an array")?
                .iter()
                .map(|o| o.as_str().map(str::to_string).ok_or("options must be strings"))
                .collect::<Result<Vec<_>, _>>()?,
        ),
    };
    let recommended_index = match object.get("recommended_index") {
        None | Some(Value::Null) => None,
        Some(v) => Some(v.as_u64().ok_or("`recommended_index` must be an integer")? as usize),
    };
    Ok(RawReply {
        response_type,
        summary: text("summary")?,
        command: text("command")?,
        question: text("question")?,
        options,
        recommended_index,
    })
}

#[test]
fn parses_command_reply() {
    let reply = parse_model_reply(decode(
        r#"{"response_type":"command","summary":"Print the current directory.","command":"pwd"}"#,
    ))
    .expect("command reply should parse");

    assert_eq!(
        reply,
        ModelReply::Command(CommandReply {
            summary: "Print the current directory.".into(),
            command: "pwd".into(),
        })
    );
}

#[test]
fn parses_clarification_reply() {
    let reply = parse_model_reply(decode(
        r#"{"response_type":"clarification","question":"Which port should I check?","options":["3000","8080"],"recommended_index":0}"#,
    ))
    .expect("clarification reply should parse");

    assert_eq!(
        reply,
        ModelReply::Clarification(ClarificationReply {
            question: "Which port should I check?".into(),
            options: vec!["3000".into(), "8080".into()],
            recommended_index: Some(0),
        })
    );
}

#[test]
fn command_reply_without_summary_uses_fallback() {
    let reply = parse_model_reply(decode(r#"{"response_type":"command","command":"pwd"}"#))
        .expect("command reply without summary should still parse");

    assert_eq!(
        reply,
        ModelReply::Command(CommandReply {
            summary: "Generated command.".into(),
            command: "pwd".into(),
        })
    );
}

fn raw(response_type: &str) -> RawReply {
    RawReply {
        response_type: response_type.into(),
        summary: None,
        command: None,
        question: None,
        options: None,
        recommended_index: None,
    }
}

#[test]
fn command_fields_make_a_command_reply() {
    let mut r = raw("command");
    r.summary = Some("Print the current directory.".into());
    r.command = Some("pwd".into());
    assert_eq!(
        parse_model_reply(Ok(r)),
        Ok(ModelReply::Command(CommandReply {
            summary: "Print the current directory.".into(),
            command: "pwd".into(),
        }))
    );
}

#[test]
fn missing_summary_uses_fallback() {
    let mut r = raw("command");
    r.command = Some("pwd".into());
    assert_eq!(
        parse_model_reply(Ok(r)),
        Ok(ModelReply::Command(CommandReply {
            summary: "Generated command.".into(),
            command: "pwd".into(),
        }))
    );
}

#[test]
fn clarification_fields_make_a_question() {
    let mut r = raw("clarification");
    r.question = Some("Which port should I check?".into());
    r.options = Some(vec!["3000".into(), "8080".into()]);
    r.recommended_index = Some(0);
    assert_eq!(
        parse_model_reply(Ok(r)),
        Ok(ModelReply::Clarification(ClarificationReply {
            question: "Which port should I check?".into(),
            options: vec!["3000".into(), "8080".into()],
            recommended_index: Some(0),
        }))
    );
}

#[test]
fn malformed_replies_are_refused() {
    let invalid = |m: &str| Err(QuickcommandError::InvalidModelReply(m.into()));
    let mut r = raw("command");
    r.summary = Some("only a summary".into());
    assert_eq!(parse_model_reply(Ok(r)), invalid("missing `command` field"));
    assert_eq!(
        parse_model_reply(Ok(raw("clarification"))),
        invalid("missing `question` field")
    );
    let mut r = raw("clarification");
    r.question = Some("q".into());
    assert_eq!(parse_model_reply(Ok(r.clone())), invalid("missing `options` field"));
    r.options = Some(vec![]);
    assert_eq!(
        parse_model_reply(Ok(r)),
        invalid("`options` must contain at least one item")
    );
    assert_eq!(
        parse_model_reply(Ok(raw("shell"))),
        invalid("unknown response_type: shell")
    );
    assert_eq!(
        parse_model_reply(Err("expected value at line 1 column 1".into())),
        invalid("expected value at line 1 column 1")
    );
}
