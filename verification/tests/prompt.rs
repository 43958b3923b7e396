use quickcommand::model::{ClarificationTurn, GenerationRequest};
use quickcommand::prompt::{build_system_prompt, build_user_prompt, RuntimeContext};

#[test]
fn system_prompt_names_the_environment() {
    let context = RuntimeContext {
        os: "macos".into(),
        shell: "/bin/zsh".into(),
        cwd: "/tmp".into(),
        home: None,
    };
    let prompt = build_system_prompt(&context);
    assert!(prompt.starts_with("You are `quickcommand` (`qc`), a local-first CLI assistant"));
    assert!(prompt.ends_with(
        "- Target this environment:\n  - OS: macos\n  - Shell: /bin/zsh\n  - Working directory: /tmp\n  - Home directory: (unknown)"
    ));
    let context = RuntimeContext {
        home: Some("/Users/test".into()),
        ..context
    };
    assert!(build_system_prompt(&context).ends_with("  - Home directory: /Users/test"));
}

#[test]
fn user_prompt_lists_clarifications() {
    let request = GenerationRequest {
        task: "find the port owner".into(),
        clarification_history: vec![],
    };
    assert_eq!(
        build_user_prompt(&request),
        "User task:\nfind the port owner\n\nIf you still need one critical detail, return `clarification`. Otherwise return `command`."
    );
    let request = GenerationRequest {
        task: "t".into(),
        clarification_history: vec![
            ClarificationTurn { question: "q1".into(), answer: "a1".into() },
            ClarificationTurn { question: "q2".into(), answer: "a2".into() },
        ],
    };
    assert_eq!(
        build_user_prompt(&request),
        "User task:\nt\n\nResolved clarifications:\n- Question: q1\n- Answer: a1\n- Question: q2\n- Answer: a2\n\nIf you still need one critical detail, return `clarification`. Otherwise return `command`."
    );
}

#[test]
fn runtime_context_defaults_the_shell() {
    let context = RuntimeContext::from_environment("linux", None, "/w", None);
    assert_eq!(context.shell, "/bin/sh");
    assert_eq!(context.home, None);
    let context = RuntimeContext::from_environment("linux", Some("/bin/zsh"), "/w", Some("/h"));
    assert_eq!(context.shell, "/bin/zsh");
    assert_eq!(context.home.as_deref(), Some("/h"));
}
