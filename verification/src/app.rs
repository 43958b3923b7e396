//! The task flow: from a task to a command that is shown, emitted or run.
//!
//! [`TaskFlow`] holds the decisions: given what the model, the user or the
//! shell answered, it says what to do next. [`run_task_with_deps`] performs
//! those steps with a [`Backend`], a [`Ui`] and an [`Executor`].
use vstd::prelude::*;

use crate::backend::{Backend, BackendCall};
use crate::config::{Mode, ResolvedConfig, DEFAULT_OLLAMA_HOST};
use crate::console::{init_model_choice, is_manual_entry, ENTER_MANUALLY};
use crate::error::{QuickcommandError, Result};
use crate::exec::{ExecCall, ExecutionResult, Executor};
use crate::model::{ClarificationReply, ClarificationTurn, CommandReply, GenerationRequest, ModelReply};
use crate::prompt::RuntimeContext;
use crate::safety::{is_destructive, looks_destructive};
use crate::text::{chars_of, is_blank, lines, lines_exec, push_chars, trim, views, char_views};

verus! {

/// The number of clarification questions answered before the model must give a command.
pub const MAX_CLARIFICATIONS: usize = 2;

pub const PROGRESS_MESSAGE: &'static str = "Generating response...";

pub const DESTRUCTIVE_PROMPT: &'static str = "Warning: this command looks destructive. Run it?";

pub const CANCELLED_MESSAGE: &'static str = "Execution cancelled.";

#[derive(Debug, Clone, Copy, PartialEq, Eq, Structural)]
pub enum OutputMode {
    Human,
    EmitCommand,
}

#[derive(Debug, Clone, PartialEq, Eq)]
pub enum TaskResult {
    ExitCode(i32),
    EmittedCommand(String),
}

/// A call to the terminal, with what it gave back.
pub enum UiCall {
    Info { message: Seq<char>, result: Result<()> },
    Warn { message: Seq<char>, result: Result<()> },
    StartProgress { message: Seq<char>, result: Result<()> },
    StopProgress { result: Result<()> },
    AskYesNo { prompt: Seq<char>, default: bool, result: Result<bool> },
    AskInput { prompt: Seq<char>, default: Option<Seq<char>>, result: Result<String> },
    AskChoice {
        question: Seq<char>,
        options: Seq<Seq<char>>,
        recommended: Option<usize>,
        result: Result<String>,
    },
}

/// The terminal: messages, a progress indicator and questions to the user.
/// Each call is added to the record of calls, with what it gave back.
pub trait Ui {
    /// The calls made so far, oldest first. A verified implementation gives
    /// its own record. The empty default exists because implementations in
    /// plain Rust cannot name this function; it does not meet the contracts
    /// below, which for such implementations are trusted.
    open spec fn calls(&self) -> Seq<UiCall> {
        Seq::empty()
    }

    fn info(&mut self, message: &str) -> (r: Result<()>)
        ensures
            final(self).calls() == old(self).calls().push(
                (UiCall::Info { message: message@, result: r }),
            ),
    ;

    fn warn(&mut self, message: &str) -> (r: Result<()>)
        ensures
            final(self).calls() == old(self).calls().push(
                (UiCall::Warn { message: message@, result: r }),
            ),
    ;

    fn start_progress(&mut self, message: &str) -> (r: Result<()>)
        ensures
            final(self).calls() == old(self).calls().push(
                (UiCall::StartProgress { message: message@, result: r }),
            ),
    ;

    fn stop_progress(&mut self) -> (r: Result<()>)
        ensures
            final(self).calls() == old(self).calls().push((UiCall::StopProgress { result: r })),
    ;

    fn ask_yes_no(&mut self, prompt: &str, default: bool) -> (r: Result<bool>)
        ensures
            final(self).calls() == old(self).calls().push(
                (UiCall::AskYesNo { prompt: prompt@, default, result: r }),
            ),
    ;

    fn ask_input(&mut self, prompt: &str, default: Option<&str>) -> (r: Result<String>)
        ensures
            final(self).calls() == old(self).calls().push(
                (UiCall::AskInput {
                    prompt: prompt@,
                    default: match default {
                        Some(d) => Some(d@),
                        None => None,
                    },
                    result: r,
                }),
            ),
    ;

    fn ask_choice(
        &mut self,
        question: &str,
        options: &[String],
        recommended: Option<usize>,
    ) -> (r: Result<String>)
        ensures
            final(self).calls() == old(self).calls().push(
                (UiCall::AskChoice {
                    question: question@,
                    options: views(options@),
                    recommended,
                    result: r,
                }),
            ),
    ;
}

// ---------------------------------------------------------------------------
// What is shown for a command
// ---------------------------------------------------------------------------

/// The non-blank lines of a command, each shown as `  $ <line>`.
pub open spec fn shown_command_lines(ls: Seq<Seq<char>>) -> Seq<Seq<char>>
    decreases ls.len(),
{
    if ls.len() == 0 {
        seq![]
    } else {
        let rest = shown_command_lines(ls.drop_first());
        if trim(ls[0]).len() == 0 {
            rest
        } else {
            seq!["  $ "@ + ls[0]] + rest
        }
    }
}

/// The messages that present a generated command: its summary, then the command line by line.
pub open spec fn command_messages(reply: CommandReply) -> Seq<Seq<char>> {
    seq!["Summary: "@ + reply.summary@, "Command:"@] + shown_command_lines(lines(reply.command@))
}

/// The messages that present a generated command.
pub fn command_messages_exec(reply: &CommandReply) -> (r: Vec<String>)
    ensures
        views(r@) == command_messages(*reply),
{
    let mut r: Vec<String> = Vec::new();
    r.push(String::from_str("Summary: ").concat(reply.summary.as_str()));
    r.push(String::from_str("Command:"));
    let ls = lines_exec(&chars_of(reply.command.as_str()));
    let ghost all = char_views(ls@);
    let ghost head = views(r@);
    assert(head =~= seq!["Summary: "@ + reply.summary@, "Command:"@]);
    let mut i: usize = 0;
    assert(all.skip(0) =~= all);
    while i < ls.len()
        invariant
            all == char_views(ls@),
            all == lines(reply.command@),
            i <= ls@.len(),
            head + shown_command_lines(all) == views(r@) + shown_command_lines(all.skip(i as int)),
        decreases ls@.len() - i,
    {
        assert(all.skip(i as int).drop_first() =~= all.skip(i + 1));
        assert(all.skip(i as int)[0] == ls@[i as int]@);
        if !is_blank(&ls[i]) {
            let mut shown = String::from_str("  $ ");
            push_chars(&mut shown, &ls[i], 0, ls[i].len());
            assert(ls@[i as int]@.subrange(0, ls@[i as int]@.len() as int) =~= ls@[i as int]@);
            let ghost before = views(r@);
            r.push(shown);
            assert(views(r@) =~= before.push("  $ "@ + all[i as int]));
            assert(before + (seq!["  $ "@ + all[i as int]] + shown_command_lines(all.skip(i + 1)))
                =~= before.push("  $ "@ + all[i as int]) + shown_command_lines(all.skip(i + 1)));
        }
        i = i + 1;
    }
    assert(all.skip(ls@.len() as int) =~= Seq::<Seq<char>>::empty());
    assert(views(r@) =~= head + shown_command_lines(all));
    r
}

// ---------------------------------------------------------------------------
// The task flow
// ---------------------------------------------------------------------------

/// What the flow waits for.
#[derive(Debug, Clone, PartialEq, Eq)]
pub enum FlowPhase {
    /// A reply of the model.
    AwaitingReply,
    /// The user's answer to a clarification question.
    AwaitingAnswer { question: String },
    /// The user's decision to run a destructive command.
    AwaitingConfirmation { command: String },
    /// The exit code of the command that runs.
    AwaitingExit,
    /// Nothing: the flow has ended.
    Finished,
}

/// The state of a task: the task, the settings, the clarifications answered so far, and what is awaited.
#[derive(Debug, Clone, PartialEq, Eq)]
pub struct TaskFlow {
    pub task: String,
    pub mode: Mode,
    pub output_mode: OutputMode,
    pub history: Vec<ClarificationTurn>,
    pub phase: FlowPhase,
}

/// What happened: the model replied, the user answered or decided, the command exited.
#[derive(Debug, Clone, PartialEq, Eq)]
pub enum FlowEvent {
    Replied(ModelReply),
    Answered(String),
    Confirmed(bool),
    Executed(i32),
}

/// What to do next.
#[derive(Debug, Clone, PartialEq, Eq)]
pub enum FlowAction {
    /// Ask the model, showing progress while it works.
    Generate(GenerationRequest),
    /// Ask the user a clarification question.
    Ask { question: String, options: Vec<String>, recommended: Option<usize> },
    /// Show the messages, then ask the user whether to run the command.
    Confirm { messages: Vec<String>, prompt: String },
    /// Show the messages, then run the command.
    Run { messages: Vec<String>, command: String },
    /// Show the messages and the warning, then end with the result.
    Finish { messages: Vec<String>, warning: Option<String>, result: TaskResult },
    /// End with the error.
    Fail(QuickcommandError),
}

/// The invariant of a flow: at most `MAX_CLARIFICATIONS` answers, fewer
/// while a question is open, and a command awaits confirmation or runs only
/// in execute mode.
pub open spec fn flow_wf(f: TaskFlow) -> bool {
    &&& f.history@.len() <= MAX_CLARIFICATIONS
    &&& f.phase is AwaitingAnswer ==> f.history@.len() < MAX_CLARIFICATIONS
    &&& (f.phase is AwaitingConfirmation || f.phase is AwaitingExit) ==> f.mode == Mode::Execute
}

/// The event is one that the flow waits for.
pub open spec fn accepts(f: TaskFlow, e: FlowEvent) -> bool {
    match (f.phase, e) {
        (FlowPhase::AwaitingReply, FlowEvent::Replied(_)) => true,
        (FlowPhase::AwaitingAnswer { .. }, FlowEvent::Answered(_)) => true,
        (FlowPhase::AwaitingConfirmation { .. }, FlowEvent::Confirmed(_)) => true,
        (FlowPhase::AwaitingExit, FlowEvent::Executed(_)) => true,
        _ => false,
    }
}

/// The action is the one the flow's phase calls for, and a finishing result
/// fits the settings: a command is emitted only in copy mode with emitted
/// output, and copy mode ends with exit code 0.
pub open spec fn action_fits(f: TaskFlow, a: FlowAction) -> bool {
    &&& a is Generate ==> f.phase is AwaitingReply
    &&& a is Ask ==> f.phase is AwaitingAnswer
    &&& a is Confirm ==> f.phase is AwaitingConfirmation
    &&& a is Run ==> f.phase is AwaitingExit
    &&& (a is Finish || a is Fail) ==> f.phase is Finished
    &&& a matches FlowAction::Finish { result: TaskResult::EmittedCommand(_), .. } ==> f.mode
        == Mode::Copy && f.output_mode == OutputMode::EmitCommand
    &&& a matches FlowAction::Finish { result: TaskResult::ExitCode(code), .. } ==> (f.mode
        == Mode::Copy ==> code == 0 && f.output_mode == OutputMode::Human)
}

/// The step for a command reply: in copy mode the command is emitted as is
/// or shown; in execute mode it is shown and run, after a confirmation where
/// it looks destructive.
pub open spec fn command_step(f: TaskFlow, c: CommandReply, g: TaskFlow, a: FlowAction) -> bool {
    match f.mode {
        Mode::Copy => {
            &&& g.phase is Finished
            &&& a matches FlowAction::Finish { messages, warning, result }
            &&& warning is None
            &&& match f.output_mode {
                OutputMode::EmitCommand => messages@.len() == 0 && result
                    == TaskResult::EmittedCommand(c.command),
                OutputMode::Human => views(messages@) == command_messages(c) && result
                    == TaskResult::ExitCode(0),
            }
        },
        Mode::Execute => if looks_destructive(c.command@) {
            &&& g.phase == FlowPhase::AwaitingConfirmation { command: c.command }
            &&& a matches FlowAction::Confirm { messages, prompt }
            &&& views(messages@) == command_messages(c)
            &&& prompt@ == DESTRUCTIVE_PROMPT@
        } else {
            &&& g.phase is AwaitingExit
            &&& a matches FlowAction::Run { messages, command }
            &&& views(messages@) == command_messages(c)
            &&& command == c.command
        },
    }
}

/// One step of the flow: from `f`, on the event `e`, to `g` with the action `a`.
pub open spec fn flow_step(f: TaskFlow, e: FlowEvent, g: TaskFlow, a: FlowAction) -> bool {
    &&& g.task == f.task
    &&& g.mode == f.mode
    &&& g.output_mode == f.output_mode
    &&& match (f.phase, e) {
        (FlowPhase::AwaitingReply, FlowEvent::Replied(ModelReply::Command(c))) => {
            &&& g.history == f.history
            &&& command_step(f, c, g, a)
        },
        (FlowPhase::AwaitingReply, FlowEvent::Replied(ModelReply::Clarification(q))) => {
            &&& g.history == f.history
            &&& if f.history@.len() >= MAX_CLARIFICATIONS {
                &&& g.phase is Finished
                &&& a == FlowAction::Fail(QuickcommandError::ClarificationLimitReached)
            } else {
                &&& g.phase == FlowPhase::AwaitingAnswer { question: q.question }
                &&& a == FlowAction::Ask {
                    question: q.question,
                    options: q.options,
                    recommended: q.recommended_index,
                }
            }
        },
        (FlowPhase::AwaitingAnswer { question }, FlowEvent::Answered(answer)) => {
            &&& g.history@ == f.history@.push(ClarificationTurn { question, answer })
            &&& g.phase is AwaitingReply
            &&& a matches FlowAction::Generate(req)
            &&& req.task@ == f.task@
            &&& req.clarification_history@ == g.history@
        },
        (FlowPhase::AwaitingConfirmation { command }, FlowEvent::Confirmed(true)) => {
            &&& g.history == f.history
            &&& g.phase is AwaitingExit
            &&& a matches FlowAction::Run { messages, command: c }
            &&& messages@.len() == 0
            &&& c == command
        },
        (FlowPhase::AwaitingConfirmation { .. }, FlowEvent::Confirmed(false)) => {
            &&& g.history == f.history
            &&& g.phase is Finished
            &&& a matches FlowAction::Finish { messages, warning: Some(w), result }
            &&& messages@.len() == 0
            &&& w@ == CANCELLED_MESSAGE@
            &&& result == TaskResult::ExitCode(130)
        },
        (FlowPhase::AwaitingExit, FlowEvent::Executed(code)) => {
            &&& g.history == f.history
            &&& g.phase is Finished
            &&& a matches FlowAction::Finish { messages, warning, result }
            &&& messages@.len() == 0
            &&& warning is None
            &&& result == TaskResult::ExitCode(code)
        },
        _ => false,
    }
}

/// A measure that every step lowers.
pub open spec fn flow_measure(f: TaskFlow) -> int {
    5 * (MAX_CLARIFICATIONS - f.history@.len()) + match f.phase {
        FlowPhase::AwaitingReply => 4int,
        FlowPhase::AwaitingAnswer { .. } => 3int,
        FlowPhase::AwaitingConfirmation { .. } => 2int,
        FlowPhase::AwaitingExit => 1int,
        FlowPhase::Finished => 0int,
    }
}

fn copy_history(h: &Vec<ClarificationTurn>) -> (r: Vec<ClarificationTurn>)
    ensures
        r@ == h@,
{
    let mut r: Vec<ClarificationTurn> = Vec::new();
    let mut i: usize = 0;
    while i < h.len()
        invariant
            i <= h@.len(),
            r@ == h@.take(i as int),
        decreases h@.len() - i,
    {
        let t = ClarificationTurn { question: h[i].question.clone(), answer: h[i].answer.clone() };
        assert(t == h@[i as int]);
        r.push(t);
        assert(h@.take(i + 1) =~= h@.take(i as int).push(h@[i as int]));
        i = i + 1;
    }
    assert(h@.take(h@.len() as int) =~= h@);
    r
}

impl TaskFlow {
    /// A new flow for `task`: it asks the model first, with no clarifications.
    pub fn start(task: &str, mode: Mode, output_mode: OutputMode) -> (r: (TaskFlow, FlowAction))
        ensures
            r.0.task@ == task@,
            r.0.mode == mode,
            r.0.output_mode == output_mode,
            r.0.history@.len() == 0,
            r.0.phase is AwaitingReply,
            r.1 matches FlowAction::Generate(req) && req.task@ == task@
                && req.clarification_history@.len() == 0,
            flow_wf(r.0),
            action_fits(r.0, r.1),
    {
        let flow = TaskFlow {
            task: String::from_str(task),
            mode,
            output_mode,
            history: Vec::new(),
            phase: FlowPhase::AwaitingReply,
        };
        let request = GenerationRequest {
            task: String::from_str(task),
            clarification_history: Vec::new(),
        };
        (flow, FlowAction::Generate(request))
    }

    fn on_command(self, c: CommandReply) -> (r: (TaskFlow, FlowAction))
        requires
            flow_wf(self),
            self.phase is AwaitingReply,
        ensures
            r.0.task == self.task,
            r.0.mode == self.mode,
            r.0.output_mode == self.output_mode,
            r.0.history == self.history,
            command_step(self, c, r.0, r.1),
            flow_wf(r.0),
            action_fits(r.0, r.1),
    {
        let TaskFlow { task, mode, output_mode, history, phase: _ } = self;
        match mode {
            Mode::Copy => {
                let action = match output_mode {
                    OutputMode::EmitCommand => FlowAction::Finish {
                        messages: Vec::new(),
                        warning: None,
                        result: TaskResult::EmittedCommand(c.command),
                    },
                    OutputMode::Human => FlowAction::Finish {
                        messages: command_messages_exec(&c),
                        warning: None,
                        result: TaskResult::ExitCode(0),
                    },
                };
                (TaskFlow { task, mode, output_mode, history, phase: FlowPhase::Finished }, action)
            },
            Mode::Execute => {
                let messages = command_messages_exec(&c);
                if is_destructive(c.command.as_str()) {
                    let command = c.command.clone();
                    (
                        TaskFlow {
                            task,
                            mode,
                            output_mode,
                            history,
                            phase: FlowPhase::AwaitingConfirmation { command },
                        },
                        FlowAction::Confirm { messages, prompt: String::from_str(DESTRUCTIVE_PROMPT) },
                    )
                } else {
                    (
                        TaskFlow { task, mode, output_mode, history, phase: FlowPhase::AwaitingExit },
                        FlowAction::Run { messages, command: c.command },
                    )
                }
            },
        }
    }

    /// The next state and action after the event `event`.
    pub fn step(self, event: FlowEvent) -> (r: (TaskFlow, FlowAction))
        requires
            flow_wf(self),
            accepts(self, event),
        ensures
            flow_step(self, event, r.0, r.1),
            flow_wf(r.0),
            action_fits(r.0, r.1),
            flow_measure(r.0) < flow_measure(self),
    {
        let ghost old = self;
        match event {
            FlowEvent::Replied(ModelReply::Command(c)) => self.on_command(c),
            FlowEvent::Replied(ModelReply::Clarification(q)) => {
                let TaskFlow { task, mode, output_mode, history, phase: _ } = self;
                if history.len() >= MAX_CLARIFICATIONS {
                    (
                        TaskFlow { task, mode, output_mode, history, phase: FlowPhase::Finished },
                        FlowAction::Fail(QuickcommandError::ClarificationLimitReached),
                    )
                } else {
                    let ClarificationReply { question, options, recommended_index } = q;
                    let asked = question.clone();
                    (
                        TaskFlow {
                            task,
                            mode,
                            output_mode,
                            history,
                            phase: FlowPhase::AwaitingAnswer { question: asked },
                        },
                        FlowAction::Ask { question, options, recommended: recommended_index },
                    )
                }
            },
            FlowEvent::Answered(answer) => {
                let TaskFlow { task, mode, output_mode, mut history, phase } = self;
                let question = match phase {
                    FlowPhase::AwaitingAnswer { question } => question,
                    _ => {
                        assert(false);
                        String::new()
                    },
                };
                history.push(ClarificationTurn { question, answer });
                let request = GenerationRequest {
                    task: task.clone(),
                    clarification_history: copy_history(&history),
                };
                (
                    TaskFlow { task, mode, output_mode, history, phase: FlowPhase::AwaitingReply },
                    FlowAction::Generate(request),
                )
            },
            FlowEvent::Confirmed(run) => {
                let TaskFlow { task, mode, output_mode, history, phase } = self;
                let command = match phase {
                    FlowPhase::AwaitingConfirmation { command } => command,
                    _ => {
                        assert(false);
                        String::new()
                    },
                };
                if run {
                    (
                        TaskFlow { task, mode, output_mode, history, phase: FlowPhase::AwaitingExit },
                        FlowAction::Run { messages: Vec::new(), command },
                    )
                } else {
                    (
                        TaskFlow { task, mode, output_mode, history, phase: FlowPhase::Finished },
                        FlowAction::Finish {
                            messages: Vec::new(),
                            warning: Some(String::from_str(CANCELLED_MESSAGE)),
                            result: TaskResult::ExitCode(130),
                        },
                    )
                }
            },
            FlowEvent::Executed(code) => {
                let TaskFlow { task, mode, output_mode, history, phase: _ } = self;
                (
                    TaskFlow { task, mode, output_mode, history, phase: FlowPhase::Finished },
                    FlowAction::Finish {
                        messages: Vec::new(),
                        warning: None,
                        result: TaskResult::ExitCode(code),
                    },
                )
            },
        }
    }
}

/// `f0` and `a0` are the state and action a task starts with.
pub open spec fn flow_start(f0: TaskFlow, a0: FlowAction, task: Seq<char>, mode: Mode, output_mode: OutputMode) -> bool {
    &&& f0.task@ == task
    &&& f0.mode == mode
    &&& f0.output_mode == output_mode
    &&& f0.history@.len() == 0
    &&& f0.phase is AwaitingReply
    &&& a0 matches FlowAction::Generate(req)
    &&& req.task@ == task
    &&& req.clarification_history@.len() == 0
}

/// A run of the flow: `states[0]` is `(f0, a0)`, and each event `events[i]`
/// takes `states[i]` to `states[i + 1]` by one step.
pub open spec fn flow_run(
    f0: TaskFlow,
    a0: FlowAction,
    events: Seq<FlowEvent>,
    states: Seq<(TaskFlow, FlowAction)>,
) -> bool {
    &&& states.len() == events.len() + 1
    &&& states[0] == (f0, a0)
    &&& forall|i: int|
        0 <= i < events.len() ==> flow_step(
            #[trigger] states[i].0,
            events[i],
            states[i + 1].0,
            states[i + 1].1,
        )
}

/// `res` is what the flow for `task` ends with after some sequence of events.
pub open spec fn flow_can_finish_with(
    task: Seq<char>,
    mode: Mode,
    output_mode: OutputMode,
    res: TaskResult,
) -> bool {
    exists|f0: TaskFlow, a0: FlowAction, events: Seq<FlowEvent>, states: Seq<(TaskFlow, FlowAction)>|
        #![trigger flow_start(f0, a0, task, mode, output_mode), flow_run(f0, a0, events, states)]
        {
            &&& flow_start(f0, a0, task, mode, output_mode)
            &&& flow_run(f0, a0, events, states)
            &&& states.last().1 matches FlowAction::Finish { result, .. }
            &&& result == res
        }
}

// ---------------------------------------------------------------------------
// What a task does at the terminal and in the shell
// ---------------------------------------------------------------------------

/// The calls that show `messages`, each of which succeeded.
pub open spec fn shown_ok(messages: Seq<Seq<char>>) -> Seq<UiCall> {
    messages.map_values(|m: Seq<char>| UiCall::Info { message: m, result: Ok(()) })
}

/// The calls that show `messages` up to the `k`-th, which failed with `err`.
pub open spec fn shown_until_failure(messages: Seq<Seq<char>>, k: int, err: QuickcommandError) -> Seq<UiCall> {
    shown_ok(messages.take(k)).push(UiCall::Info { message: messages[k], result: Err(err) })
}

/// `calls` are those of showing `messages` one by one, stopping at the first
/// failure, and `r` is the outcome.
pub open spec fn shows(messages: Seq<Seq<char>>, calls: Seq<UiCall>, r: Result<()>) -> bool {
    match r {
        Ok(()) => calls == shown_ok(messages),
        Err(err) => exists|k: int|
            0 <= k < messages.len() && calls == #[trigger] shown_until_failure(messages, k, err),
    }
}

/// The warning shown at the end, if any, with its outcome.
pub open spec fn warned(warning: Option<String>, r: Result<()>) -> Seq<UiCall> {
    match warning {
        Some(w) => seq![UiCall::Warn { message: w@, result: r }],
        None => seq![],
    }
}

/// The outcome of a backend call made while the progress indicator ran.
pub open spec fn progress_result(generated: Result<ModelReply>, stopped: Result<()>) -> Result<ModelReply> {
    match (generated, stopped) {
        (Ok(reply), Ok(())) => Ok(reply),
        (Ok(_), Err(stop_err)) => Err(stop_err),
        (Err(generate_err), _) => Err(generate_err),
    }
}

/// `calls` (to the terminal), `asked` (of the backend) and `r` are those of
/// asking the backend for `request` with progress shown: the indicator
/// starts with the progress message; where that fails, the backend is not
/// asked, the indicator is not stopped and the error is the outcome; else
/// the backend is asked once, the indicator is stopped whatever the backend
/// gave, and the outcome combines the two.
pub open spec fn generates_with_progress(
    context: RuntimeContext,
    request: GenerationRequest,
    calls: Seq<UiCall>,
    asked: Seq<BackendCall>,
    r: Result<ModelReply>,
) -> bool {
    ||| {
        &&& calls.len() == 1
        &&& calls[0] matches UiCall::StartProgress { message, result: Err(err) }
        &&& message == PROGRESS_MESSAGE@
        &&& asked.len() == 0
        &&& r == Err::<ModelReply, QuickcommandError>(err)
    }
    ||| {
        &&& calls.len() == 2
        &&& calls[0] == (UiCall::StartProgress { message: PROGRESS_MESSAGE@, result: Ok(()) })
        &&& calls[1] matches UiCall::StopProgress { result: stopped }
        &&& asked.len() == 1
        &&& asked[0].request == request
        &&& asked[0].context == context
        &&& r == progress_result(asked[0].result, stopped)
    }
}

/// The terminal calls of a step that went through: action `a`, answered by `e`.
pub open spec fn step_ui_calls(a: FlowAction, e: FlowEvent) -> Seq<UiCall> {
    match a {
        FlowAction::Generate(_) => seq![
            UiCall::StartProgress { message: PROGRESS_MESSAGE@, result: Ok(()) },
            UiCall::StopProgress { result: Ok(()) },
        ],
        FlowAction::Ask { question, options, recommended } => match e {
            FlowEvent::Answered(answer) => seq![
                UiCall::AskChoice {
                    question: question@,
                    options: views(options@),
                    recommended,
                    result: Ok(answer),
                },
            ],
            _ => seq![],
        },
        FlowAction::Confirm { messages, prompt } => match e {
            FlowEvent::Confirmed(run) => shown_ok(views(messages@)).push(
                UiCall::AskYesNo { prompt: prompt@, default: false, result: Ok(run) },
            ),
            _ => seq![],
        },
        FlowAction::Run { messages, .. } => shown_ok(views(messages@)),
        _ => seq![],
    }
}

/// The shell runs of a step that went through: a command runs in `shell` and exits with the code.
pub open spec fn step_exec_calls(shell: Seq<char>, a: FlowAction, e: FlowEvent) -> Seq<ExecCall> {
    match (a, e) {
        (FlowAction::Run { command, .. }, FlowEvent::Executed(code)) => seq![
            ExecCall {
                shell,
                command: command@,
                result: Ok(ExecutionResult { exit_code: code }),
            },
        ],
        _ => seq![],
    }
}

/// The request of a step that went through, with the model's reply.
pub open spec fn step_backend_calls(context: RuntimeContext, a: FlowAction, e: FlowEvent) -> Seq<
    BackendCall,
> {
    match (a, e) {
        (FlowAction::Generate(request), FlowEvent::Replied(reply)) => seq![
            BackendCall { request, context, result: Ok(reply) },
        ],
        _ => seq![],
    }
}

/// The terminal calls of the steps of a run, in order.
pub open spec fn run_ui_calls(states: Seq<(TaskFlow, FlowAction)>, events: Seq<FlowEvent>) -> Seq<UiCall>
    decreases events.len(),
{
    if events.len() == 0 {
        seq![]
    } else {
        run_ui_calls(states.drop_last(), events.drop_last()) + step_ui_calls(
            states[events.len() - 1].1,
            events.last(),
        )
    }
}

/// The shell runs of the steps of a run, in order.
pub open spec fn run_exec_calls(
    shell: Seq<char>,
    states: Seq<(TaskFlow, FlowAction)>,
    events: Seq<FlowEvent>,
) -> Seq<ExecCall>
    decreases events.len(),
{
    if events.len() == 0 {
        seq![]
    } else {
        run_exec_calls(shell, states.drop_last(), events.drop_last()) + step_exec_calls(
            shell,
            states[events.len() - 1].1,
            events.last(),
        )
    }
}

/// The requests of the steps of a run, in order.
pub open spec fn run_backend_calls(
    context: RuntimeContext,
    states: Seq<(TaskFlow, FlowAction)>,
    events: Seq<FlowEvent>,
) -> Seq<BackendCall>
    decreases events.len(),
{
    if events.len() == 0 {
        seq![]
    } else {
        run_backend_calls(context, states.drop_last(), events.drop_last()) + step_backend_calls(
            context,
            states[events.len() - 1].1,
            events.last(),
        )
    }
}

/// How a task ends at its last action `a`: the terminal calls `ui`, the
/// requests `bk` and the shell runs `ex` made there, and the result `r`. A `Finish` ends with its result
/// once its messages and warning are shown; a `Fail` ends with its error;
/// any other action ends only where a call fails, with that call's error.
pub open spec fn ends_with(
    context: RuntimeContext,
    a: FlowAction,
    ui: Seq<UiCall>,
    bk: Seq<BackendCall>,
    ex: Seq<ExecCall>,
    r: Result<TaskResult>,
) -> bool {
    match a {
        FlowAction::Generate(request) => {
            &&& ex.len() == 0
            &&& r matches Err(err)
            &&& generates_with_progress(context, request, ui, bk, Err(err))
        },
        FlowAction::Ask { question, options, recommended } => {
            &&& bk.len() == 0
            &&& ex.len() == 0
            &&& r matches Err(err)
            &&& ui == seq![
                UiCall::AskChoice {
                    question: question@,
                    options: views(options@),
                    recommended,
                    result: Err(err),
                },
            ]
        },
        FlowAction::Confirm { messages, prompt } => {
            &&& bk.len() == 0
            &&& ex.len() == 0
            &&& r matches Err(err)
            &&& shows(views(messages@), ui, Err(err)) || ui == shown_ok(views(messages@)).push(
                UiCall::AskYesNo { prompt: prompt@, default: false, result: Err(err) },
            )
        },
        FlowAction::Run { messages, command } => {
            &&& bk.len() == 0
            &&& r matches Err(err)
            &&& (ex.len() == 0 && shows(views(messages@), ui, Err(err))) || (ui == shown_ok(
                views(messages@),
            ) && ex == seq![
                ExecCall { shell: context.shell@, command: command@, result: Err(err) },
            ])
        },
        FlowAction::Finish { messages, warning, result } => {
            &&& bk.len() == 0
            &&& ex.len() == 0
            &&& match r {
                Ok(res) => res == result && ui == shown_ok(views(messages@)) + warned(
                    warning,
                    Ok(()),
                ),
                Err(err) => shows(views(messages@), ui, Err(err)) || (warning is Some && ui
                    == shown_ok(views(messages@)) + warned(warning, Err(err))),
            }
        },
        FlowAction::Fail(error) => {
            &&& bk.len() == 0
            &&& ex.len() == 0
            &&& ui.len() == 0
            &&& r == Err::<TaskResult, QuickcommandError>(error)
        },
    }
}

/// One way a task for `task` went: the run of the flow `(f0, a0, events,
/// states)` from its start made exactly these terminal calls, requests to
/// the backend and shell runs, step by step, each step on what its call gave
/// back, and ended as [`ends_with`] says at its last action, with the calls
/// `ui_end`, the requests `bk_end` and the runs `ex_end`.
pub open spec fn session_run(
    context: RuntimeContext,
    task: Seq<char>,
    mode: Mode,
    output_mode: OutputMode,
    ui_before: Seq<UiCall>,
    ui_after: Seq<UiCall>,
    bk_before: Seq<BackendCall>,
    bk_after: Seq<BackendCall>,
    ex_before: Seq<ExecCall>,
    ex_after: Seq<ExecCall>,
    r: Result<TaskResult>,
    f0: TaskFlow,
    a0: FlowAction,
    events: Seq<FlowEvent>,
    states: Seq<(TaskFlow, FlowAction)>,
    ui_end: Seq<UiCall>,
    bk_end: Seq<BackendCall>,
    ex_end: Seq<ExecCall>,
) -> bool {
    &&& flow_start(f0, a0, task, mode, output_mode)
    &&& flow_run(f0, a0, events, states)
    &&& ui_after == ui_before + run_ui_calls(states, events) + ui_end
    &&& bk_after == bk_before + run_backend_calls(context, states, events) + bk_end
    &&& ex_after == ex_before + run_exec_calls(context.shell@, states, events) + ex_end
    &&& ends_with(context, states.last().1, ui_end, bk_end, ex_end, r)
}

/// A task for `task` went from the terminal record `ui_before` to
/// `ui_after`, from the backend's record `bk_before` to `bk_after` and from
/// the shell record `ex_before` to `ex_after`, and ended with `r`: some run
/// of the flow accounts for every call, as [`session_run`] says.
pub open spec fn task_session(
    context: RuntimeContext,
    task: Seq<char>,
    mode: Mode,
    output_mode: OutputMode,
    ui_before: Seq<UiCall>,
    ui_after: Seq<UiCall>,
    bk_before: Seq<BackendCall>,
    bk_after: Seq<BackendCall>,
    ex_before: Seq<ExecCall>,
    ex_after: Seq<ExecCall>,
    r: Result<TaskResult>,
) -> bool {
    exists|
        f0: TaskFlow,
        a0: FlowAction,
        events: Seq<FlowEvent>,
        states: Seq<(TaskFlow, FlowAction)>,
        ui_end: Seq<UiCall>,
        bk_end: Seq<BackendCall>,
        ex_end: Seq<ExecCall>,
    |
        #[trigger] session_run(
            context,
            task,
            mode,
            output_mode,
            ui_before,
            ui_after,
            bk_before,
            bk_after,
            ex_before,
            ex_after,
            r,
            f0,
            a0,
            events,
            states,
            ui_end,
            bk_end,
            ex_end,
        )
}

proof fn lemma_session(
    context: RuntimeContext,
    task: Seq<char>,
    mode: Mode,
    output_mode: OutputMode,
    ui_before: Seq<UiCall>,
    ui_after: Seq<UiCall>,
    bk_before: Seq<BackendCall>,
    bk_after: Seq<BackendCall>,
    ex_before: Seq<ExecCall>,
    ex_after: Seq<ExecCall>,
    r: Result<TaskResult>,
    f0: TaskFlow,
    a0: FlowAction,
    events: Seq<FlowEvent>,
    states: Seq<(TaskFlow, FlowAction)>,
    ui_end: Seq<UiCall>,
    bk_end: Seq<BackendCall>,
    ex_end: Seq<ExecCall>,
)
    requires
        session_run(context, task, mode, output_mode, ui_before, ui_after, bk_before, bk_after,
            ex_before, ex_after, r, f0, a0, events, states, ui_end, bk_end, ex_end),
    ensures
        task_session(context, task, mode, output_mode, ui_before, ui_after, bk_before, bk_after,
            ex_before, ex_after, r),
{
}

// ---------------------------------------------------------------------------
// Running the flow
// ---------------------------------------------------------------------------

proof fn lemma_unit_ok(r: Result<()>)
    ensures
        r is Ok ==> r == Ok::<(), QuickcommandError>(()),
{
    if r is Ok {
        assert(r->Ok_0 == ());
    }
}

/// Shows each message in turn and stops at the first failure; with no
/// messages the terminal is not touched and the call succeeds.
fn show_messages<U: Ui>(ui: &mut U, messages: &Vec<String>) -> (r: Result<()>)
    ensures
        exists|d: Seq<UiCall>|
            final(ui).calls() == old(ui).calls() + d && #[trigger] shows(views(messages@), d, r),
        messages@.len() == 0 ==> r is Ok,
{
    let ghost before = ui.calls();
    let ghost all = views(messages@);
    let mut i: usize = 0;
    while i < messages.len()
        invariant
            i <= messages@.len(),
            all == views(messages@),
            before == old(ui).calls(),
            ui.calls() == before + shown_ok(all.take(i as int)),
        decreases messages@.len() - i,
    {
        assert(all[i as int] == messages@[i as int]@);
        let shown = ui.info(messages[i].as_str());
        proof {
            lemma_unit_ok(shown);
        }
        match shown {
            Ok(()) => {},
            Err(err) => {
                let ghost d = shown_until_failure(all, i as int, err);
                assert(ui.calls() =~= before + d);
                assert(shows(views(messages@), d, Err(err)));
                assert(exists|d: Seq<UiCall>|
                    ui.calls() == before + d && #[trigger] shows(views(messages@), d, Err(err)));
                return Err(err);
            },
        }
        assert(all.take(i + 1) =~= all.take(i as int).push(all[i as int]));
        assert(shown_ok(all.take(i + 1)) =~= shown_ok(all.take(i as int)).push(
            UiCall::Info { message: all[i as int], result: Ok(()) },
        ));
        i = i + 1;
    }
    assert(all.take(messages@.len() as int) =~= all);
    assert(shows(all, shown_ok(all), Ok(())));
    Ok(())
}

/// The outcome of a backend call made while the progress indicator ran: the
/// reply where both the call and stopping the indicator succeeded; else the
/// backend's error, which wins over an error from stopping the indicator.
pub fn progress_outcome(generated: Result<ModelReply>, stopped: Result<()>) -> (r: Result<ModelReply>)
    ensures
        r == progress_result(generated, stopped),
{
    match (generated, stopped) {
        (Ok(reply), Ok(())) => Ok(reply),
        (Ok(_), Err(stop_err)) => Err(stop_err),
        (Err(generate_err), _) => Err(generate_err),
    }
}

/// Asks the backend while the progress indicator runs; the indicator is
/// stopped whether or not the backend succeeds.
fn generate_with_progress<B: Backend, U: Ui>(
    backend: &mut B,
    ui: &mut U,
    request: &GenerationRequest,
    context: &RuntimeContext,
) -> (r: Result<ModelReply>)
    ensures
        exists|d: Seq<UiCall>, asked: Seq<BackendCall>|
            final(ui).calls() == old(ui).calls() + d && final(backend).requests() == old(
                backend,
            ).requests() + asked && #[trigger] generates_with_progress(
                *context,
                *request,
                d,
                asked,
                r,
            ),
{
    let ghost before = ui.calls();
    let ghost asked_before = backend.requests();
    let started = ui.start_progress(PROGRESS_MESSAGE);
    proof {
        lemma_unit_ok(started);
    }
    match started {
        Ok(()) => {},
        Err(err) => {
            let ghost d = seq![UiCall::StartProgress { message: PROGRESS_MESSAGE@, result: Err(err) }];
            assert(ui.calls() == before + d);
            assert(backend.requests() =~= asked_before + Seq::<BackendCall>::empty());
            assert(generates_with_progress(*context, *request, d, Seq::<BackendCall>::empty(), Err(err)));
            return Err(err);
        },
    }
    let generated = backend.generate(request, context);
    let ghost asked = seq![BackendCall { request: *request, context: *context, result: generated }];
    assert(backend.requests() =~= asked_before + asked);
    let stopped = ui.stop_progress();
    let ghost d = seq![
        UiCall::StartProgress { message: PROGRESS_MESSAGE@, result: Ok(()) },
        UiCall::StopProgress { result: stopped },
    ];
    assert(ui.calls() =~= before + d);
    let r = progress_outcome(generated, stopped);
    assert(generates_with_progress(*context, *request, d, asked, r));
    r
}

/// The runs of the flow extended by one step keep their earlier calls.
proof fn lemma_run_calls_push(
    context: RuntimeContext,
    states: Seq<(TaskFlow, FlowAction)>,
    events: Seq<FlowEvent>,
    next: (TaskFlow, FlowAction),
    e: FlowEvent,
)
    requires
        states.len() == events.len() + 1,
    ensures
        run_ui_calls(states.push(next), events.push(e)) == run_ui_calls(states, events)
            + step_ui_calls(states.last().1, e),
        run_backend_calls(context, states.push(next), events.push(e)) == run_backend_calls(
            context,
            states,
            events,
        ) + step_backend_calls(context, states.last().1, e),
        run_exec_calls(context.shell@, states.push(next), events.push(e)) == run_exec_calls(
            context.shell@,
            states,
            events,
        ) + step_exec_calls(context.shell@, states.last().1, e),
{
    assert(states.push(next).drop_last() =~= states);
    assert(events.push(e).drop_last() =~= events);
    assert(states.push(next)[events.len() as int] == states.last());
}

/// Runs the task: asks the model (with progress shown), asks the user the
/// model's clarification questions (at most `MAX_CLARIFICATIONS`), then in
/// copy mode shows or emits the command, and in execute mode shows it and
/// runs it in the context's shell, asking first where it looks destructive.
/// Each decision is the one [`TaskFlow::step`] prescribes, on what the
/// backend, the user and the shell gave back; errors of the backend, the
/// terminal and the executor end the task. [`task_session`] states every
/// call made to the terminal, the backend and the shell, in order, and the
/// result.
#[verifier::rlimit(80)]
pub fn run_task_with_deps<B: Backend, U: Ui, E: Executor>(
    backend: &mut B,
    ui: &mut U,
    executor: &mut E,
    task: &str,
    config: &ResolvedConfig,
    context: &RuntimeContext,
    output_mode: OutputMode,
) -> (r: Result<TaskResult>)
    ensures
        task_session(
            *context,
            task@,
            config.mode,
            output_mode,
            old(ui).calls(),
            final(ui).calls(),
            old(backend).requests(),
            final(backend).requests(),
            old(executor).runs(),
            final(executor).runs(),
            r,
        ),
        r matches Ok(res) ==> flow_can_finish_with(task@, config.mode, output_mode, res),
{
    let ghost ui0 = ui.calls();
    let ghost bk0 = backend.requests();
    let ghost ex0 = executor.runs();
    let ghost shell = context.shell@;
    let ghost ctx = *context;
    let ghost no_requests = Seq::<BackendCall>::empty();
    let ghost no_runs = Seq::<ExecCall>::empty();
    let (mut flow, mut action) = TaskFlow::start(task, config.mode, output_mode);
    let ghost f0 = flow;
    let ghost a0 = action;
    let ghost mut events: Seq<FlowEvent> = Seq::empty();
    let ghost mut states: Seq<(TaskFlow, FlowAction)> = seq![(flow, action)];
    assert(run_ui_calls(states, events) =~= Seq::<UiCall>::empty());
    assert(run_backend_calls(ctx, states, events) =~= Seq::<BackendCall>::empty());
    assert(run_exec_calls(shell, states, events) =~= Seq::<ExecCall>::empty());
    loop
        invariant
            flow_wf(flow),
            action_fits(flow, action),
            flow.mode == config.mode,
            flow.output_mode == output_mode,
            shell == context.shell@,
            ctx == *context,
            no_requests == Seq::<BackendCall>::empty(),
            no_runs == Seq::<ExecCall>::empty(),
            ui0 == old(ui).calls(),
            bk0 == old(backend).requests(),
            ex0 == old(executor).runs(),
            flow_start(f0, a0, task@, config.mode, output_mode),
            flow_run(f0, a0, events, states),
            states.last() == (flow, action),
            ui.calls() == ui0 + run_ui_calls(states, events),
            backend.requests() == bk0 + run_backend_calls(ctx, states, events),
            executor.runs() == ex0 + run_exec_calls(shell, states, events),
        decreases flow_measure(flow),
    {
        let ghost current = action;
        let ghost ui_start = ui.calls();
        let ghost bk_start = backend.requests();
        let ghost ex_start = executor.runs();
        proof {
            assert(backend.requests() =~= bk0 + run_backend_calls(ctx, states, events) + no_requests);
            assert(executor.runs() =~= ex0 + run_exec_calls(shell, states, events) + no_runs);
        }
        let event = match action {
            FlowAction::Generate(request) => {
                let generated = generate_with_progress(backend, ui, &request, context);
                let ghost (d, asked) = choose|d: Seq<UiCall>, asked: Seq<BackendCall>|
                    ui.calls() == ui_start + d && backend.requests() == bk_start + asked
                        && #[trigger] generates_with_progress(ctx, request, d, asked, generated);
                match generated {
                    Ok(reply) => {
                        assert(d.len() == 2);
                        proof {
                            lemma_unit_ok(d[1]->StopProgress_result);
                        }
                        assert(d =~= step_ui_calls(current, FlowEvent::Replied(reply)));
                        assert(asked =~= step_backend_calls(ctx, current, FlowEvent::Replied(reply)));
                        FlowEvent::Replied(reply)
                    },
                    Err(err) => {
                        proof {
                            assert(backend.requests() =~= bk0 + run_backend_calls(ctx, states, events)
                                + asked);
                            lemma_session(ctx, task@, config.mode, output_mode, ui0, ui.calls(), bk0,
                                backend.requests(), ex0, executor.runs(), Err(err), f0, a0, events,
                                states, d, asked, no_runs);
                        }
                        return Err(err);
                    },
                }
            },
            FlowAction::Ask { question, options, recommended } => {
                match ui.ask_choice(question.as_str(), options.as_slice(), recommended) {
                    Ok(answer) => {
                        assert(ui.calls() =~= ui_start + step_ui_calls(
                            current,
                            FlowEvent::Answered(answer),
                        ));
                        FlowEvent::Answered(answer)
                    },
                    Err(err) => {
                        let ghost d = seq![
                            UiCall::AskChoice {
                                question: question@,
                                options: views(options@),
                                recommended,
                                result: Err(err),
                            },
                        ];
                        proof {
                            assert(ui.calls() =~= ui_start + d);
                            lemma_session(ctx, task@, config.mode, output_mode, ui0, ui.calls(), bk0,
                                backend.requests(), ex0, executor.runs(), Err(err), f0, a0, events,
                                states, d, no_requests, no_runs);
                        }
                        return Err(err);
                    },
                }
            },
            FlowAction::Confirm { messages, prompt } => {
                let shown = show_messages(ui, &messages);
                let ghost d = choose|d: Seq<UiCall>|
                    ui.calls() == ui_start + d && #[trigger] shows(views(messages@), d, shown);
                proof {
                    lemma_unit_ok(shown);
                }
                match shown {
                    Ok(()) => {},
                    Err(err) => {
                        proof {
                            lemma_session(ctx, task@, config.mode, output_mode, ui0, ui.calls(), bk0,
                                backend.requests(), ex0, executor.runs(), Err(err), f0, a0, events,
                                states, d, no_requests, no_runs);
                        }
                        return Err(err);
                    },
                }
                match ui.ask_yes_no(prompt.as_str(), false) {
                    Ok(run) => {
                        assert(ui.calls() =~= ui_start + step_ui_calls(
                            current,
                            FlowEvent::Confirmed(run),
                        ));
                        FlowEvent::Confirmed(run)
                    },
                    Err(err) => {
                        let ghost d2 = d.push(
                            UiCall::AskYesNo { prompt: prompt@, default: false, result: Err(err) },
                        );
                        proof {
                            assert(ui.calls() =~= ui_start + d2);
                            lemma_session(ctx, task@, config.mode, output_mode, ui0, ui.calls(), bk0,
                                backend.requests(), ex0, executor.runs(), Err(err), f0, a0, events,
                                states, d2, no_requests, no_runs);
                        }
                        return Err(err);
                    },
                }
            },
            FlowAction::Run { messages, command } => {
                let shown = show_messages(ui, &messages);
                let ghost d = choose|d: Seq<UiCall>|
                    ui.calls() == ui_start + d && #[trigger] shows(views(messages@), d, shown);
                proof {
                    lemma_unit_ok(shown);
                }
                match shown {
                    Ok(()) => {},
                    Err(err) => {
                        proof {
                            lemma_session(ctx, task@, config.mode, output_mode, ui0, ui.calls(), bk0,
                                backend.requests(), ex0, executor.runs(), Err(err), f0, a0, events,
                                states, d, no_requests, no_runs);
                        }
                        return Err(err);
                    },
                }
                match executor.execute(context.shell.as_str(), command.as_str()) {
                    Ok(result) => {
                        let code = result.exit_code;
                        assert(ui.calls() =~= ui_start + step_ui_calls(current, FlowEvent::Executed(code)));
                        assert(executor.runs() =~= ex_start + step_exec_calls(
                            shell,
                            current,
                            FlowEvent::Executed(code),
                        ));
                        FlowEvent::Executed(code)
                    },
                    Err(err) => {
                        let ghost x = seq![
                            ExecCall { shell: context.shell@, command: command@, result: Err(err) },
                        ];
                        proof {
                            assert(executor.runs() =~= ex0 + run_exec_calls(shell, states, events) + x);
                            lemma_session(ctx, task@, config.mode, output_mode, ui0, ui.calls(), bk0,
                                backend.requests(), ex0, executor.runs(), Err(err), f0, a0, events,
                                states, d, no_requests, x);
                        }
                        return Err(err);
                    },
                }
            },
            FlowAction::Finish { messages, warning, result } => {
                let shown = show_messages(ui, &messages);
                let ghost d = choose|d: Seq<UiCall>|
                    ui.calls() == ui_start + d && #[trigger] shows(views(messages@), d, shown);
                proof {
                    lemma_unit_ok(shown);
                }
                match shown {
                    Ok(()) => {},
                    Err(err) => {
                        proof {
                            lemma_session(ctx, task@, config.mode, output_mode, ui0, ui.calls(), bk0,
                                backend.requests(), ex0, executor.runs(), Err(err), f0, a0, events,
                                states, d, no_requests, no_runs);
                        }
                        return Err(err);
                    },
                }
                let ghost warning_view = warning;
                if let Some(w) = warning {
                    let warned_result = ui.warn(w.as_str());
                    proof {
                        lemma_unit_ok(warned_result);
                    }
                    match warned_result {
                        Ok(()) => {},
                        Err(err) => {
                            let ghost d2 = d + warned(warning_view, Err(err));
                            proof {
                                assert(ui.calls() =~= ui_start + d2);
                                lemma_session(ctx, task@, config.mode, output_mode, ui0, ui.calls(),
                                    bk0, backend.requests(), ex0, executor.runs(), Err(err), f0, a0,
                                    events, states, d2, no_requests, no_runs);
                            }
                            return Err(err);
                        },
                    }
                }
                let ghost d2 = d + warned(warning_view, Ok(()));
                proof {
                    assert(ui.calls() =~= ui_start + d2);
                    lemma_session(ctx, task@, config.mode, output_mode, ui0, ui.calls(), bk0,
                        backend.requests(), ex0, executor.runs(), Ok(result), f0, a0, events, states,
                        d2, no_requests, no_runs);
                    assert(flow_start(f0, a0, task@, config.mode, output_mode) && flow_run(
                        f0,
                        a0,
                        events,
                        states,
                    ));
                }
                return Ok(result);
            },
            FlowAction::Fail(error) => {
                proof {
                    assert(ui.calls() =~= ui0 + run_ui_calls(states, events) + Seq::<UiCall>::empty());
                    lemma_session(ctx, task@, config.mode, output_mode, ui0, ui.calls(), bk0,
                        backend.requests(), ex0, executor.runs(), Err(error), f0, a0, events, states,
                        Seq::<UiCall>::empty(), no_requests, no_runs);
                }
                return Err(error);
            },
        };
        let ghost e = event;
        let (next_flow, next_action) = flow.step(event);
        proof {
            let old_states = states;
            let old_events = events;
            lemma_run_calls_push(ctx, old_states, old_events, (next_flow, next_action), e);
            events = events.push(e);
            states = states.push((next_flow, next_action));
            assert forall|i: int| 0 <= i < events.len() implies flow_step(
                #[trigger] states[i].0,
                events[i],
                states[i + 1].0,
                states[i + 1].1,
            ) by {
                if i < events.len() - 1 {
                    assert(states[i] == old_states[i]);
                    assert(states[i + 1] == old_states[i + 1]);
                } else {
                    assert(states[i] == old_states.last());
                }
            }
            assert(ui.calls() =~= ui0 + run_ui_calls(states, events));
            assert(backend.requests() =~= bk0 + run_backend_calls(ctx, states, events));
            assert(executor.runs() =~= ex0 + run_exec_calls(shell, states, events));
        }
        flow = next_flow;
        action = next_action;
    }
}

// ---------------------------------------------------------------------------
// The model that `init` saves
// ---------------------------------------------------------------------------

pub const INIT_GREETING: &'static str = "Starting quickcommand setup.";

pub const HOST_PROMPT: &'static str = "Ollama host URL";

/// `calls` and `r` are those of opening `init`: the greeting is shown;
/// where that succeeds, the host URL is asked for with the default host
/// offered, and the answer is the outcome.
pub open spec fn init_host_asked(calls: Seq<UiCall>, r: Result<String>) -> bool {
    &&& calls.len() >= 1
    &&& calls[0] matches UiCall::Info { message, result }
    &&& message == INIT_GREETING@
    &&& match result {
        Err(err) => calls.len() == 1 && r == Err::<String, QuickcommandError>(err),
        Ok(_) => calls.len() == 2 && calls[1] == (UiCall::AskInput {
            prompt: HOST_PROMPT@,
            default: Some(DEFAULT_OLLAMA_HOST@),
            result: r,
        }),
    }
}

/// Opens `init`: shows the greeting, then asks for the host URL.
pub fn ask_init_host<U: Ui>(ui: &mut U) -> (r: Result<String>)
    ensures
        exists|d: Seq<UiCall>|
            final(ui).calls() == old(ui).calls() + d && #[trigger] init_host_asked(d, r),
{
    let ghost before = ui.calls();
    let greeted = ui.info(INIT_GREETING);
    let ghost first = ui.calls().last();
    match greeted {
        Ok(()) => {},
        Err(err) => {
            assert(ui.calls() =~= before + seq![first]);
            assert(init_host_asked(seq![first], Err(err)));
            return Err(err);
        },
    }
    let r = ui.ask_input(HOST_PROMPT, Some(DEFAULT_OLLAMA_HOST));
    let ghost d = seq![first, ui.calls().last()];
    assert(ui.calls() =~= before + d);
    assert(init_host_asked(d, r));
    r
}

pub const MODEL_PROMPT: &'static str = "Ollama model name";

pub const MODEL_CHOICE_QUESTION: &'static str = "Select an Ollama model.";

/// `k` is the option recommended among `installed`: the first copy of the
/// default model, else the first model.
pub open spec fn recommended_model(installed: Seq<Seq<char>>, default_model: Seq<char>, k: int) -> bool {
    &&& 0 <= k < installed.len()
    &&& if installed.contains(default_model) {
        installed[k] == default_model && forall|j: int| 0 <= j < k ==> installed[j] != default_model
    } else {
        k == 0
    }
}

/// The question for the model name, with the default model offered.
pub open spec fn model_input(default_model: Seq<char>, r: Result<String>) -> UiCall {
    UiCall::AskInput { prompt: MODEL_PROMPT@, default: Some(default_model), result: r }
}

/// `calls` and `r` are those of asking for the model: with no installed
/// model the name is asked for; else the user picks one of the installed
/// models or "Enter manually", and on the latter the name is asked for.
pub open spec fn model_asked(
    installed: Seq<Seq<char>>,
    default_model: Seq<char>,
    calls: Seq<UiCall>,
    r: Result<String>,
) -> bool {
    if installed.len() == 0 {
        calls == seq![model_input(default_model, r)]
    } else {
        &&& calls.len() >= 1
        &&& calls[0] matches UiCall::AskChoice { question, options, recommended: Some(k), result }
        &&& question == MODEL_CHOICE_QUESTION@
        &&& options == installed.push(ENTER_MANUALLY@)
        &&& recommended_model(installed, default_model, k as int)
        &&& match result {
            Err(err) => calls.len() == 1 && r == Err::<String, QuickcommandError>(err),
            Ok(selected) => if selected@ == ENTER_MANUALLY@ {
                calls == seq![calls[0], model_input(default_model, r)]
            } else {
                calls.len() == 1 && r == Ok::<String, QuickcommandError>(selected)
            },
        }
    }
}

/// Asks for the model that `init` saves.
pub fn ask_init_model<U: Ui>(ui: &mut U, installed: &[String], default_model: &str) -> (r: Result<String>)
    ensures
        exists|d: Seq<UiCall>|
            final(ui).calls() == old(ui).calls() + d && #[trigger] model_asked(
                views(installed@),
                default_model@,
                d,
                r,
            ),
{
    let ghost before = ui.calls();
    let ghost models = views(installed@);
    match init_model_choice(installed, default_model) {
        None => {
            let r = ui.ask_input(MODEL_PROMPT, Some(default_model));
            assert(ui.calls() =~= before + seq![model_input(default_model@, r)]);
            assert(model_asked(models, default_model@, seq![model_input(default_model@, r)], r));
            r
        },
        Some((options, recommended)) => {
            let chosen = ui.ask_choice(MODEL_CHOICE_QUESTION, options.as_slice(), recommended);
            let ghost first = ui.calls().last();
            proof {
                assert(views(installed@).contains(default_model@) == models.contains(default_model@));
                if models.contains(default_model@) {
                    let w = choose|w: int| 0 <= w < models.len() && models[w] == default_model@;
                    assert(installed@[w]@ == default_model@);
                }
                let k = recommended->Some_0 as int;
                assert forall|j: int| 0 <= j < k implies models[j] == installed@[j]@ by {}
                assert(models[k] == installed@[k]@);
            }
            match chosen {
                Err(err) => {
                    assert(ui.calls() =~= before + seq![first]);
                    assert(model_asked(models, default_model@, seq![first], Err(err)));
                    Err(err)
                },
                Ok(selected) => {
                    if is_manual_entry(selected.as_str()) {
                        let r = ui.ask_input(MODEL_PROMPT, Some(default_model));
                        let ghost d = seq![first, model_input(default_model@, r)];
                        assert(ui.calls() =~= before + d);
                        assert(model_asked(models, default_model@, d, r));
                        r
                    } else {
                        let ghost sv = selected;
                        assert(ui.calls() =~= before + seq![first]);
                        assert(model_asked(models, default_model@, seq![first], Ok(sv)));
                        Ok(selected)
                    }
                },
            }
        },
    }
}

// ---------------------------------------------------------------------------
// Laws of the flow
// ---------------------------------------------------------------------------

/// A command that looks destructive runs only right after the user confirmed it.
pub proof fn lemma_destructive_runs_only_after_confirmation(
    f: TaskFlow,
    e: FlowEvent,
    g: TaskFlow,
    a: FlowAction,
)
    requires
        flow_step(f, e, g, a),
        a matches FlowAction::Run { command, .. } && looks_destructive(command@),
    ensures
        e == FlowEvent::Confirmed(true),
        f.phase matches FlowPhase::AwaitingConfirmation { command } && a matches FlowAction::Run {
            command: c,
            ..
        } && c == command,
{
}

/// In copy mode nothing is ever run or put to confirmation.
pub proof fn lemma_copy_mode_never_runs(f: TaskFlow, e: FlowEvent, g: TaskFlow, a: FlowAction)
    requires
        flow_wf(f),
        flow_step(f, e, g, a),
        f.mode == Mode::Copy,
    ensures
        !(a is Run),
        !(a is Confirm),
{
}

/// A question is asked only while fewer than `MAX_CLARIFICATIONS` were answered;
/// a clarification reply beyond that ends the task with `ClarificationLimitReached`.
pub proof fn lemma_clarifications_bounded(f: TaskFlow, e: FlowEvent, g: TaskFlow, a: FlowAction)
    requires
        flow_wf(f),
        flow_step(f, e, g, a),
    ensures
        a is Ask ==> f.history@.len() < MAX_CLARIFICATIONS,
        e matches FlowEvent::Replied(ModelReply::Clarification(_)) ==> (f.history@.len()
            == MAX_CLARIFICATIONS ==> a == FlowAction::Fail(
            QuickcommandError::ClarificationLimitReached,
        )),
        g.history@.len() <= MAX_CLARIFICATIONS,
{
}

/// An emitted command is the model's command verbatim, emitted only in copy
/// mode with emitted output, with no message shown.
pub proof fn lemma_emitted_command_is_reply(f: TaskFlow, e: FlowEvent, g: TaskFlow, a: FlowAction)
    requires
        flow_step(f, e, g, a),
        a matches FlowAction::Finish { result: TaskResult::EmittedCommand(_), .. },
    ensures
        f.mode == Mode::Copy,
        f.output_mode == OutputMode::EmitCommand,
        e matches FlowEvent::Replied(ModelReply::Command(c)) && a matches FlowAction::Finish {
            messages,
            result: TaskResult::EmittedCommand(emitted),
            ..
        } && emitted == c.command && messages@.len() == 0,
{
}

/// Each request after an answer holds the task and every clarification
/// answered so far, in order, the latest last.
pub proof fn lemma_requests_carry_history(f: TaskFlow, e: FlowEvent, g: TaskFlow, a: FlowAction)
    requires
        flow_step(f, e, g, a),
        a is Generate,
    ensures
        f.phase matches FlowPhase::AwaitingAnswer { question } && e matches FlowEvent::Answered(
            answer,
        ) && a matches FlowAction::Generate(req) && req.task@ == f.task@
            && req.clarification_history@ == f.history@.push(
            ClarificationTurn { question, answer },
        ),
{
}

/// The event is a command reply with the command `cmd`.
pub open spec fn replied_command(e: FlowEvent, cmd: String) -> bool {
    e matches FlowEvent::Replied(ModelReply::Command(c)) && c.command == cmd
}

/// The model replied with the command `cmd` at one of the first `n` events.
pub open spec fn generated_within(events: Seq<FlowEvent>, n: int, cmd: String) -> bool {
    exists|j: int| 0 <= j < n && #[trigger] replied_command(events[j], cmd)
}

proof fn lemma_commands_generated_upto(
    f0: TaskFlow,
    a0: FlowAction,
    events: Seq<FlowEvent>,
    states: Seq<(TaskFlow, FlowAction)>,
    k: int,
)
    requires
        flow_run(f0, a0, events, states),
        f0.phase is AwaitingReply,
        0 <= k <= events.len(),
    ensures
        forall|i: int|
            0 <= i < k ==> (#[trigger] states[i + 1].1 matches FlowAction::Run { command, .. }
                ==> generated_within(events, i + 1, command)),
        states[k].0.phase matches FlowPhase::AwaitingConfirmation { command } ==> generated_within(
            events,
            k,
            command,
        ),
    decreases k,
{
    if k > 0 {
        lemma_commands_generated_upto(f0, a0, events, states, k - 1);
        let i = k - 1;
        assert(flow_step(states[i].0, events[i], states[i + 1].0, states[i + 1].1));
        assert forall|j: int| 0 <= j < k implies (#[trigger] states[j + 1].1 matches FlowAction::Run {
            command,
            ..
        } ==> generated_within(events, j + 1, command)) by {
            if j == i {
                match (states[i].0.phase, events[i]) {
                    (FlowPhase::AwaitingReply, FlowEvent::Replied(ModelReply::Command(c))) => {
                        if let FlowAction::Run { command, .. } = states[i + 1].1 {
                            assert(replied_command(events[i], command));
                        }
                    },
                    (FlowPhase::AwaitingConfirmation { command }, FlowEvent::Confirmed(true)) => {
                        let w = choose|w: int| 0 <= w < i && #[trigger] replied_command(events[w], command);
                        assert(0 <= w < j + 1);
                    },
                    _ => {},
                }
            }
        }
        match (states[i].0.phase, events[i]) {
            (FlowPhase::AwaitingReply, FlowEvent::Replied(ModelReply::Command(c))) => {
                if let FlowPhase::AwaitingConfirmation { command } = states[k].0.phase {
                    assert(replied_command(events[i], command));
                }
            },
            _ => {},
        }
    }
}

/// Only a command that the model generated is ever run: in every run of the
/// flow from its start, each command that a `Run` action runs is the command
/// of an earlier command reply.
pub proof fn lemma_only_generated_commands_run(
    f0: TaskFlow,
    a0: FlowAction,
    events: Seq<FlowEvent>,
    states: Seq<(TaskFlow, FlowAction)>,
    task: Seq<char>,
    mode: Mode,
    output_mode: OutputMode,
    i: int,
)
    requires
        flow_start(f0, a0, task, mode, output_mode),
        flow_run(f0, a0, events, states),
        0 <= i < events.len(),
        states[i + 1].1 is Run,
    ensures
        generated_within(events, i + 1, states[i + 1].1->Run_command),
{
    lemma_commands_generated_upto(f0, a0, events, states, events.len() as int);
    assert(states[i + 1].1 matches FlowAction::Run { .. });
}

/// Along a run from the start, every state keeps the settings and the
/// invariant, and its action is the one its phase calls for.
proof fn lemma_run_states(
    f0: TaskFlow,
    a0: FlowAction,
    events: Seq<FlowEvent>,
    states: Seq<(TaskFlow, FlowAction)>,
    task: Seq<char>,
    mode: Mode,
    output_mode: OutputMode,
    k: int,
)
    requires
        flow_start(f0, a0, task, mode, output_mode),
        flow_run(f0, a0, events, states),
        0 <= k <= events.len(),
    ensures
        flow_wf(states[k].0),
        states[k].0.mode == mode,
        states[k].0.output_mode == output_mode,
        states[k].0.phase is AwaitingReply ==> states[k].1 is Generate,
        states[k].0.phase is AwaitingConfirmation ==> (states[k].1 matches FlowAction::Confirm {
            prompt,
            ..
        } && prompt@ == DESTRUCTIVE_PROMPT@),
        states[k].0.phase is AwaitingExit ==> states[k].1 is Run,
    decreases k,
{
    if k > 0 {
        lemma_run_states(f0, a0, events, states, task, mode, output_mode, k - 1);
        assert(flow_step(states[k - 1].0, events[k - 1], states[k].0, states[k].1));
    }
}

/// The shell run `call` is the one of step `i`: a `Run` answered by its exit code.
pub open spec fn ran_at(
    shell: Seq<char>,
    states: Seq<(TaskFlow, FlowAction)>,
    events: Seq<FlowEvent>,
    i: int,
    call: ExecCall,
) -> bool {
    &&& states[i].1 matches FlowAction::Run { command, .. }
    &&& events[i] matches FlowEvent::Executed(code)
    &&& call == (ExecCall {
        shell,
        command: command@,
        result: Ok(ExecutionResult { exit_code: code }),
    })
}

/// Each shell run of a run of the flow is that of one of its steps.
proof fn lemma_exec_call_origin(
    shell: Seq<char>,
    states: Seq<(TaskFlow, FlowAction)>,
    events: Seq<FlowEvent>,
    j: int,
)
    requires
        states.len() == events.len() + 1,
        0 <= j < run_exec_calls(shell, states, events).len(),
    ensures
        exists|i: int|
            0 <= i < events.len() && #[trigger] ran_at(
                shell,
                states,
                events,
                i,
                run_exec_calls(shell, states, events)[j],
            ),
    decreases events.len(),
{
    let n = events.len() - 1;
    let prev = run_exec_calls(shell, states.drop_last(), events.drop_last());
    if j < prev.len() {
        lemma_exec_call_origin(shell, states.drop_last(), events.drop_last(), j);
        let i = choose|i: int|
            0 <= i < events.drop_last().len() && #[trigger] ran_at(
                shell,
                states.drop_last(),
                events.drop_last(),
                i,
                prev[j],
            );
        assert(states.drop_last()[i] == states[i]);
        assert(events.drop_last()[i] == events[i]);
        assert(ran_at(shell, states, events, i, run_exec_calls(shell, states, events)[j]));
    } else {
        assert(ran_at(shell, states, events, n, run_exec_calls(shell, states, events)[j]));
    }
}

/// Each terminal call of a step of a run is among the run's calls.
proof fn lemma_step_call_in_run(
    states: Seq<(TaskFlow, FlowAction)>,
    events: Seq<FlowEvent>,
    i: int,
    k: int,
)
    requires
        states.len() == events.len() + 1,
        0 <= i < events.len(),
        0 <= k < step_ui_calls(states[i].1, events[i]).len(),
    ensures
        exists|q: int|
            0 <= q < run_ui_calls(states, events).len() && #[trigger] run_ui_calls(states, events)[q]
                == step_ui_calls(states[i].1, events[i])[k],
    decreases events.len(),
{
    let n = events.len() - 1;
    let prev = run_ui_calls(states.drop_last(), events.drop_last());
    let all = run_ui_calls(states, events);
    if i == n {
        assert(all[prev.len() + k] == step_ui_calls(states[i].1, events[i])[k]);
    } else {
        assert(states.drop_last()[i] == states[i]);
        assert(events.drop_last()[i] == events[i]);
        lemma_step_call_in_run(states.drop_last(), events.drop_last(), i, k);
        let q = choose|q: int|
            0 <= q < prev.len() && #[trigger] prev[q] == step_ui_calls(states[i].1, events[i])[k];
        assert(all[q] == prev[q]);
    }
}

/// The request of a step of a run is among the run's requests.
proof fn lemma_step_request_in_run(
    context: RuntimeContext,
    states: Seq<(TaskFlow, FlowAction)>,
    events: Seq<FlowEvent>,
    i: int,
)
    requires
        states.len() == events.len() + 1,
        0 <= i < events.len(),
        step_backend_calls(context, states[i].1, events[i]).len() > 0,
    ensures
        exists|q: int|
            0 <= q < run_backend_calls(context, states, events).len() && #[trigger] run_backend_calls(
                context,
                states,
                events,
            )[q] == step_backend_calls(context, states[i].1, events[i])[0],
    decreases events.len(),
{
    let n = events.len() - 1;
    let prev = run_backend_calls(context, states.drop_last(), events.drop_last());
    let all = run_backend_calls(context, states, events);
    if i == n {
        assert(all[prev.len() as int] == step_backend_calls(context, states[i].1, events[i])[0]);
    } else {
        assert(states.drop_last()[i] == states[i]);
        assert(events.drop_last()[i] == events[i]);
        lemma_step_request_in_run(context, states.drop_last(), events.drop_last(), i);
        let q = choose|q: int|
            0 <= q < prev.len() && #[trigger] prev[q] == step_backend_calls(
                context,
                states[i].1,
                events[i],
            )[0];
        assert(all[q] == prev[q]);
    }
}

/// The backend's reply in `call` is a command reply with the command `command`.
pub open spec fn replied_with_command(call: BackendCall, command: Seq<char>) -> bool {
    call.result matches Ok(ModelReply::Command(c)) && c.command@ == command
}

/// The command of the `Run` action at state `i` is the command of a reply
/// that the backend gave in the run.
proof fn lemma_run_command_generated(
    context: RuntimeContext,
    f0: TaskFlow,
    a0: FlowAction,
    events: Seq<FlowEvent>,
    states: Seq<(TaskFlow, FlowAction)>,
    task: Seq<char>,
    mode: Mode,
    output_mode: OutputMode,
    i: int,
)
    requires
        flow_start(f0, a0, task, mode, output_mode),
        flow_run(f0, a0, events, states),
        0 <= i <= events.len(),
        states[i].1 is Run,
    ensures
        i >= 1,
        exists|q: int|
            0 <= q < run_backend_calls(context, states, events).len() && #[trigger] replied_with_command(
                run_backend_calls(context, states, events)[q],
                states[i].1->Run_command@,
            ),
{
    lemma_only_generated_commands_run(f0, a0, events, states, task, mode, output_mode, i - 1);
    let cmd = states[i].1->Run_command;
    let w = choose|w: int| 0 <= w < i && #[trigger] replied_command(events[w], cmd);
    lemma_run_states(f0, a0, events, states, task, mode, output_mode, w);
    assert(flow_step(states[w].0, events[w], states[w + 1].0, states[w + 1].1));
    assert(states[w].1 is Generate);
    lemma_step_request_in_run(context, states, events, w);
    let all = run_backend_calls(context, states, events);
    let q = choose|q: int|
        0 <= q < all.len() && #[trigger] all[q] == step_backend_calls(context, states[w].1, events[w])[0];
    assert(replied_with_command(all[q], cmd@));
}

/// Only a command that the model replied with ever runs, and it runs in the
/// context's shell: each shell run that a task adds runs, in `context.shell`,
/// the command of a command reply that the backend gave during the task.
pub proof fn lemma_session_runs_only_generated_commands(
    context: RuntimeContext,
    task: Seq<char>,
    mode: Mode,
    output_mode: OutputMode,
    ui_before: Seq<UiCall>,
    ui_after: Seq<UiCall>,
    bk_before: Seq<BackendCall>,
    bk_after: Seq<BackendCall>,
    ex_before: Seq<ExecCall>,
    ex_after: Seq<ExecCall>,
    r: Result<TaskResult>,
    j: int,
)
    requires
        task_session(context, task, mode, output_mode, ui_before, ui_after, bk_before, bk_after,
            ex_before, ex_after, r),
        ex_before.len() <= j < ex_after.len(),
    ensures
        ex_after[j].shell == context.shell@,
        exists|k: int|
            bk_before.len() <= k < bk_after.len() && #[trigger] replied_with_command(
                bk_after[k],
                ex_after[j].command,
            ),
{
    let (f0, a0, events, states, ui_end, bk_end, ex_end) = choose|
        f0: TaskFlow,
        a0: FlowAction,
        events: Seq<FlowEvent>,
        states: Seq<(TaskFlow, FlowAction)>,
        ui_end: Seq<UiCall>,
        bk_end: Seq<BackendCall>,
        ex_end: Seq<ExecCall>,
    |
        #[trigger] session_run(context, task, mode, output_mode, ui_before, ui_after, bk_before,
            bk_after, ex_before, ex_after, r, f0, a0, events, states, ui_end, bk_end, ex_end);
    let shell = context.shell@;
    let runs = run_exec_calls(shell, states, events);
    let all = run_backend_calls(context, states, events);
    let k = j - ex_before.len();
    let n = events.len() as int;
    let i = if k < runs.len() {
        assert(ex_after[j] == runs[k]);
        lemma_exec_call_origin(shell, states, events, k);
        choose|i: int| 0 <= i < events.len() && #[trigger] ran_at(shell, states, events, i, runs[k])
    } else {
        assert(ex_after[j] == ex_end[k - runs.len()]);
        assert(states.last() == states[n]);
        n
    };
    assert(ex_after[j].command == states[i].1->Run_command@);
    lemma_run_command_generated(context, f0, a0, events, states, task, mode, output_mode, i);
    let q = choose|q: int|
        0 <= q < all.len() && #[trigger] replied_with_command(all[q], states[i].1->Run_command@);
    assert(bk_after[bk_before.len() + q] == all[q]);
    assert(replied_with_command(bk_after[bk_before.len() + q], ex_after[j].command));
}

/// No state of a run from the start holds a `Run` action in copy mode.
proof fn lemma_copy_run_has_no_run(
    f0: TaskFlow,
    a0: FlowAction,
    events: Seq<FlowEvent>,
    states: Seq<(TaskFlow, FlowAction)>,
    task: Seq<char>,
    output_mode: OutputMode,
    i: int,
)
    requires
        flow_start(f0, a0, task, Mode::Copy, output_mode),
        flow_run(f0, a0, events, states),
        0 <= i <= events.len(),
    ensures
        !(states[i].1 is Run),
{
    if i > 0 {
        lemma_run_states(f0, a0, events, states, task, Mode::Copy, output_mode, i - 1);
        lemma_copy_mode_never_runs(states[i - 1].0, events[i - 1], states[i].0, states[i].1);
    }
}

/// In copy mode a task runs nothing in the shell.
pub proof fn lemma_session_copy_mode_runs_nothing(
    context: RuntimeContext,
    task: Seq<char>,
    mode: Mode,
    output_mode: OutputMode,
    ui_before: Seq<UiCall>,
    ui_after: Seq<UiCall>,
    bk_before: Seq<BackendCall>,
    bk_after: Seq<BackendCall>,
    ex_before: Seq<ExecCall>,
    ex_after: Seq<ExecCall>,
    r: Result<TaskResult>,
)
    requires
        task_session(context, task, mode, output_mode, ui_before, ui_after, bk_before, bk_after,
            ex_before, ex_after, r),
        mode == Mode::Copy,
    ensures
        ex_after == ex_before,
{
    let (f0, a0, events, states, ui_end, bk_end, ex_end) = choose|
        f0: TaskFlow,
        a0: FlowAction,
        events: Seq<FlowEvent>,
        states: Seq<(TaskFlow, FlowAction)>,
        ui_end: Seq<UiCall>,
        bk_end: Seq<BackendCall>,
        ex_end: Seq<ExecCall>,
    |
        #[trigger] session_run(context, task, mode, output_mode, ui_before, ui_after, bk_before,
            bk_after, ex_before, ex_after, r, f0, a0, events, states, ui_end, bk_end, ex_end);
    let shell = context.shell@;
    let runs = run_exec_calls(shell, states, events);
    if runs.len() > 0 {
        lemma_exec_call_origin(shell, states, events, 0);
        let i = choose|i: int| 0 <= i < events.len() && #[trigger] ran_at(shell, states, events, i, runs[0]);
        lemma_copy_run_has_no_run(f0, a0, events, states, task, output_mode, i);
    }
    let n = events.len() as int;
    assert(states.last() == states[n]);
    lemma_copy_run_has_no_run(f0, a0, events, states, task, output_mode, n);
    assert(ex_after =~= ex_before);
}

/// A command that looks destructive runs only after the user answered yes
/// to the destructive-command prompt, asked with `false` as the default.
pub proof fn lemma_session_destructive_runs_only_after_yes(
    context: RuntimeContext,
    task: Seq<char>,
    mode: Mode,
    output_mode: OutputMode,
    ui_before: Seq<UiCall>,
    ui_after: Seq<UiCall>,
    bk_before: Seq<BackendCall>,
    bk_after: Seq<BackendCall>,
    ex_before: Seq<ExecCall>,
    ex_after: Seq<ExecCall>,
    r: Result<TaskResult>,
    j: int,
)
    requires
        task_session(context, task, mode, output_mode, ui_before, ui_after, bk_before, bk_after,
            ex_before, ex_after, r),
        ex_before.len() <= j < ex_after.len(),
        looks_destructive(ex_after[j].command),
    ensures
        exists|q: int|
            ui_before.len() <= q < ui_after.len() && #[trigger] ui_after[q] == (UiCall::AskYesNo {
                prompt: DESTRUCTIVE_PROMPT@,
                default: false,
                result: Ok(true),
            }),
{
    let (f0, a0, events, states, ui_end, bk_end, ex_end) = choose|
        f0: TaskFlow,
        a0: FlowAction,
        events: Seq<FlowEvent>,
        states: Seq<(TaskFlow, FlowAction)>,
        ui_end: Seq<UiCall>,
        bk_end: Seq<BackendCall>,
        ex_end: Seq<ExecCall>,
    |
        #[trigger] session_run(context, task, mode, output_mode, ui_before, ui_after, bk_before,
            bk_after, ex_before, ex_after, r, f0, a0, events, states, ui_end, bk_end, ex_end);
    let shell = context.shell@;
    let runs = run_exec_calls(shell, states, events);
    let k = j - ex_before.len();
    let n = events.len() as int;
    let i = if k < runs.len() {
        assert(ex_after[j] == runs[k]);
        lemma_exec_call_origin(shell, states, events, k);
        choose|i: int| 0 <= i < events.len() && #[trigger] ran_at(shell, states, events, i, runs[k])
    } else {
        assert(ex_after[j] == ex_end[k - runs.len()]);
        assert(states.last() == states[n]);
        n
    };
    assert(states[i].1 is Run);
    assert(i >= 1);
    lemma_destructive_runs_only_after_confirmation(states[i - 1].0, events[i - 1], states[i].0, states[i].1);
    lemma_run_states(f0, a0, events, states, task, mode, output_mode, i - 1);
    let calls = step_ui_calls(states[i - 1].1, events[i - 1]);
    let last = calls.len() - 1;
    lemma_step_call_in_run(states, events, i - 1, last);
    let run_calls = run_ui_calls(states, events);
    let q = choose|q: int| 0 <= q < run_calls.len() && #[trigger] run_calls[q] == calls[last];
    assert(ui_after[ui_before.len() + q] == run_calls[q]);
}

/// A task that ends with an exit code ends, in copy mode, with 0 and no run;
/// in execute mode, with the exit code of the last shell run, which ran in
/// the context's shell, or with 130 after the user answered no to the
/// destructive-command prompt.
pub proof fn lemma_session_exit_code(
    context: RuntimeContext,
    task: Seq<char>,
    mode: Mode,
    output_mode: OutputMode,
    ui_before: Seq<UiCall>,
    ui_after: Seq<UiCall>,
    bk_before: Seq<BackendCall>,
    bk_after: Seq<BackendCall>,
    ex_before: Seq<ExecCall>,
    ex_after: Seq<ExecCall>,
    r: Result<TaskResult>,
    code: i32,
)
    requires
        task_session(context, task, mode, output_mode, ui_before, ui_after, bk_before, bk_after,
            ex_before, ex_after, r),
        r == Ok::<TaskResult, QuickcommandError>(TaskResult::ExitCode(code)),
    ensures
        mode == Mode::Copy ==> code == 0 && ex_after == ex_before,
        mode == Mode::Execute ==> {
            ||| ex_after.len() > ex_before.len() && ex_after.last().shell == context.shell@
                && ex_after.last().result == Ok::<ExecutionResult, QuickcommandError>(
                ExecutionResult { exit_code: code },
            )
            ||| code == 130 && exists|q: int|
                ui_before.len() <= q < ui_after.len() && #[trigger] ui_after[q] == (UiCall::AskYesNo {
                    prompt: DESTRUCTIVE_PROMPT@,
                    default: false,
                    result: Ok(false),
                })
        },
{
    let (f0, a0, events, states, ui_end, bk_end, ex_end) = choose|
        f0: TaskFlow,
        a0: FlowAction,
        events: Seq<FlowEvent>,
        states: Seq<(TaskFlow, FlowAction)>,
        ui_end: Seq<UiCall>,
        bk_end: Seq<BackendCall>,
        ex_end: Seq<ExecCall>,
    |
        #[trigger] session_run(context, task, mode, output_mode, ui_before, ui_after, bk_before,
            bk_after, ex_before, ex_after, r, f0, a0, events, states, ui_end, bk_end, ex_end);
    let shell = context.shell@;
    let n = events.len() as int;
    assert(states.last() == states[n]);
    assert(n >= 1);
    assert(flow_step(states[n - 1].0, events[n - 1], states[n].0, states[n].1));
    lemma_run_states(f0, a0, events, states, task, mode, output_mode, n - 1);
    if mode == Mode::Copy {
        lemma_session_copy_mode_runs_nothing(context, task, mode, output_mode, ui_before, ui_after,
            bk_before, bk_after, ex_before, ex_after, r);
    } else {
        match events[n - 1] {
            FlowEvent::Confirmed(run) => {
                let calls = step_ui_calls(states[n - 1].1, events[n - 1]);
                let last = calls.len() - 1;
                lemma_step_call_in_run(states, events, n - 1, last);
                let run_calls = run_ui_calls(states, events);
                let q = choose|q: int| 0 <= q < run_calls.len() && #[trigger] run_calls[q] == calls[last];
                assert(ui_after[ui_before.len() + q] == run_calls[q]);
            },
            FlowEvent::Executed(c) => {
                let runs = run_exec_calls(shell, states, events);
                assert(states.drop_last()[n - 1] == states[n - 1]);
                assert(runs.last() == step_exec_calls(shell, states[n - 1].1, events[n - 1])[0]);
                assert(ex_after.last() == runs.last());
            },
            _ => {},
        }
    }
}

/// An emitted command is, verbatim, the command of the last reply the
/// backend gave, emitted only in copy mode with emitted output, with
/// nothing run.
pub proof fn lemma_session_emitted_command(
    context: RuntimeContext,
    task: Seq<char>,
    mode: Mode,
    output_mode: OutputMode,
    ui_before: Seq<UiCall>,
    ui_after: Seq<UiCall>,
    bk_before: Seq<BackendCall>,
    bk_after: Seq<BackendCall>,
    ex_before: Seq<ExecCall>,
    ex_after: Seq<ExecCall>,
    r: Result<TaskResult>,
    emitted: String,
)
    requires
        task_session(context, task, mode, output_mode, ui_before, ui_after, bk_before, bk_after,
            ex_before, ex_after, r),
        r == Ok::<TaskResult, QuickcommandError>(TaskResult::EmittedCommand(emitted)),
    ensures
        mode == Mode::Copy,
        output_mode == OutputMode::EmitCommand,
        ex_after == ex_before,
        bk_after.len() > bk_before.len(),
        replied_with_command(bk_after.last(), emitted@),
{
    let (f0, a0, events, states, ui_end, bk_end, ex_end) = choose|
        f0: TaskFlow,
        a0: FlowAction,
        events: Seq<FlowEvent>,
        states: Seq<(TaskFlow, FlowAction)>,
        ui_end: Seq<UiCall>,
        bk_end: Seq<BackendCall>,
        ex_end: Seq<ExecCall>,
    |
        #[trigger] session_run(context, task, mode, output_mode, ui_before, ui_after, bk_before,
            bk_after, ex_before, ex_after, r, f0, a0, events, states, ui_end, bk_end, ex_end);
    let n = events.len() as int;
    assert(states.last() == states[n]);
    assert(n >= 1);
    lemma_emitted_command_is_reply(states[n - 1].0, events[n - 1], states[n].0, states[n].1);
    lemma_run_states(f0, a0, events, states, task, mode, output_mode, n - 1);
    let all = run_backend_calls(context, states, events);
    assert(states.drop_last()[n - 1] == states[n - 1]);
    assert(all.last() == step_backend_calls(context, states[n - 1].1, events[n - 1])[0]);
    assert(bk_after.last() == all.last());
    lemma_session_copy_mode_runs_nothing(context, task, mode, output_mode, ui_before, ui_after,
        bk_before, bk_after, ex_before, ex_after, r);
}

} // verus!
