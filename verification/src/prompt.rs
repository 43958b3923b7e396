//! The prompts sent to the model.
use vstd::prelude::*;

use crate::model::{ClarificationTurn, GenerationRequest};

verus! {

/// Where the generated command will run.
#[derive(Debug, Clone, PartialEq, Eq)]
pub struct RuntimeContext {
    pub os: String,
    pub shell: String,
    pub cwd: String,
    pub home: Option<String>,
}

/// The system prompt up to the operating system.
pub const SYSTEM_PROMPT_HEAD: &'static str = "You are `quickcommand` (`qc`), a local-first CLI assistant that converts natural language tasks into a single paste-ready shell command or multi-line shell snippet.\n\nYou must return JSON that matches the provided schema exactly.\n\nRules:\n- Output only one of two response types: `command` or `clarification`.\n- Prefer the minimum sufficient command.\n- Avoid destructive or forceful commands unless clearly required.\n- Do not use tool calls.\n- Do not explain shell output you have not observed.\n- Return a complete command the user can paste directly.\n- Keep the summary short.\n- Match the user's language.\n- Target this environment:\n  - OS: ";

impl RuntimeContext {
    /// The context for the operating system `os`, the `SHELL` variable
    /// (`/bin/sh` where it is unset), the working directory and the home directory.
    pub fn from_environment(os: &str, shell: Option<&str>, cwd: &str, home: Option<&str>) -> (r: Self)
        ensures
            r.os@ == os@,
            r.shell@ == match shell {
                Some(s) => s@,
                None => "/bin/sh"@,
            },
            r.cwd@ == cwd@,
            match home {
                Some(h) => r.home matches Some(rh) && rh@ == h@,
                None => r.home is None,
            },
    {
        RuntimeContext {
            os: String::from_str(os),
            shell: match shell {
                Some(s) => String::from_str(s),
                None => String::from_str("/bin/sh"),
            },
            cwd: String::from_str(cwd),
            home: match home {
                Some(h) => Some(String::from_str(h)),
                None => None,
            },
        }
    }
}

/// The system prompt: the assistant's rules, then the operating system,
/// shell, working directory and home directory (`(unknown)` where unset).
pub open spec fn system_prompt(context: RuntimeContext) -> Seq<char> {
    SYSTEM_PROMPT_HEAD@ + context.os@ + "\n  - Shell: "@ + context.shell@ + "\n  - Working directory: "@
        + context.cwd@ + "\n  - Home directory: "@ + match context.home {
        Some(h) => h@,
        None => "(unknown)"@,
    }
}

pub fn build_system_prompt(context: &RuntimeContext) -> (r: String)
    ensures
        r@ == system_prompt(*context),
{
    let mut r = String::from_str(SYSTEM_PROMPT_HEAD);
    r.append(context.os.as_str());
    r.append("\n  - Shell: ");
    r.append(context.shell.as_str());
    r.append("\n  - Working directory: ");
    r.append(context.cwd.as_str());
    r.append("\n  - Home directory: ");
    match &context.home {
        Some(h) => r.append(h.as_str()),
        None => r.append("(unknown)"),
    }
    r
}

/// The lines for one answered clarification.
pub open spec fn turn_text(turn: ClarificationTurn) -> Seq<char> {
    "- Question: "@ + turn.question@ + "\n- Answer: "@ + turn.answer@ + "\n"@
}

/// The lines for the answered clarifications, in order.
pub open spec fn history_text(history: Seq<ClarificationTurn>) -> Seq<char>
    decreases history.len(),
{
    if history.len() == 0 {
        seq![]
    } else {
        history_text(history.drop_last()) + turn_text(history.last())
    }
}

/// The user prompt: the task, the answered clarifications where there are
/// any, and the instruction to ask for one more detail or give the command.
pub open spec fn user_prompt(request: GenerationRequest) -> Seq<char> {
    "User task:\n"@ + request.task@ + "\n"@ + if request.clarification_history@.len() == 0 {
        Seq::<char>::empty()
    } else {
        "\nResolved clarifications:\n"@ + history_text(request.clarification_history@)
    } + "\nIf you still need one critical detail, return `clarification`. Otherwise return `command`."@
}

pub fn build_user_prompt(request: &GenerationRequest) -> (r: String)
    ensures
        r@ == user_prompt(*request),
{
    let mut r = String::from_str("User task:\n");
    r.append(request.task.as_str());
    r.append("\n");
    let ghost before = r@;
    if request.clarification_history.len() > 0 {
        r.append("\nResolved clarifications:\n");
        let ghost start = r@;
        let mut i: usize = 0;
        while i < request.clarification_history.len()
            invariant
                i <= request.clarification_history@.len(),
                r@ == start + history_text(request.clarification_history@.take(i as int)),
            decreases request.clarification_history@.len() - i,
        {
            let turn = &request.clarification_history[i];
            r.append("- Question: ");
            r.append(turn.question.as_str());
            r.append("\n- Answer: ");
            r.append(turn.answer.as_str());
            r.append("\n");
            assert(request.clarification_history@.take(i + 1).drop_last()
                =~= request.clarification_history@.take(i as int));
            i = i + 1;
        }
        assert(request.clarification_history@.take(i as int) =~= request.clarification_history@);
    }
    r.append("\nIf you still need one critical detail, return `clarification`. Otherwise return `command`.");
    r
}

} // verus!
