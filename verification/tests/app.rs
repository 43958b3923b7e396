use std::cell::RefCell;

use quickcommand::app::{
    ask_init_host, ask_init_model, progress_outcome, run_task_with_deps, FlowAction, FlowEvent, OutputMode, TaskFlow, TaskResult, Ui,
};
use quickcommand::backend::Backend;
use quickcommand::config::{Mode, Provider, ResolvedConfig};
use quickcommand::error::{QuickcommandError, Result};
use quickcommand::exec::{ExecutionResult, Executor};
use quickcommand::model::{
    ClarificationReply, ClarificationTurn, CommandReply, GenerationRequest, ModelReply,
};
use quickcommand::prompt::RuntimeContext;

#[derive(Default)]
struct FakeExecutor {
    commands: Vec<(String, String)>,
    exit_code: i32,
}

impl Executor for FakeExecutor {
    fn execute(&mut self, shell: &str, command: &str) -> Result<ExecutionResult> {
        self.commands.push((shell.to_string(), command.to_string()));
        Ok(ExecutionResult {
            exit_code: self.exit_code,
        })
    }
}

#[derive(Default)]
struct FakeUi {
    messages: Vec<String>,
    answers: Vec<String>,
    confirm: bool,
    progress_events: Vec<String>,
    fail_start: Option<QuickcommandError>,
}

impl Ui for FakeUi {
    fn info(&mut self, message: &str) -> Result<()> {
        self.messages.push(message.to_string());
        Ok(())
    }

    fn warn(&mut self, message: &str) -> Result<()> {
        self.messages.push(message.to_string());
        Ok(())
    }

    fn start_progress(&mut self, message: &str) -> Result<()> {
        self.progress_events.push(format!("start:{message}"));
        match self.fail_start.clone() {
            Some(error) => Err(error),
            None => Ok(()),
        }
    }

    fn stop_progress(&mut self) -> Result<()> {
        self.progress_events.push("stop".to_string());
        Ok(())
    }

    fn ask_yes_no(&mut self, _prompt: &str, _default: bool) -> Result<bool> {
        Ok(self.confirm)
    }

    fn ask_input(&mut self, _prompt: &str, default: Option<&str>) -> Result<String> {
        Ok(default.unwrap_or_default().to_string())
    }

    fn ask_choice(
        &mut self,
        _question: &str,
        options: &[String],
        recommended: Option<usize>,
    ) -> Result<String> {
        if let Some(answer) = self.answers.first().cloned() {
            self.answers.remove(0);
            return Ok(answer);
        }
        if let Some(index) = recommended.and_then(|index| options.get(index)) {
            return Ok(index.clone());
        }
        Ok(options.first().cloned().unwrap_or_default())
    }
}

struct FakeBackend {
    replies: RefCell<Vec<Result<ModelReply>>>,
    requests: RefCell<Vec<GenerationRequest>>,
}

impl FakeBackend {
    fn new(replies: Vec<Result<ModelReply>>) -> Self {
        FakeBackend {
            replies: RefCell::new(replies),
            requests: RefCell::new(Vec::new()),
        }
    }
}

impl Backend for FakeBackend {
    fn generate(
        &mut self,
        request: &GenerationRequest,
        _context: &RuntimeContext,
    ) -> Result<ModelReply> {
        self.requests.borrow_mut().push(request.clone());
        self.replies.borrow_mut().remove(0)
    }
}

fn context() -> RuntimeContext {
    RuntimeContext {
        os: "macos".into(),
        shell: "/bin/zsh".into(),
        cwd: "/tmp".into(),
        home: Some("/Users/test".into()),
    }
}

fn copy_config() -> ResolvedConfig {
    ResolvedConfig {
        provider: Provider::Ollama,
        mode: Mode::Copy,
        ollama_host: "http://localhost:11434".into(),
        ollama_model: "qwen3.5:9b".into(),
    }
}

fn pwd_reply() -> ModelReply {
    ModelReply::Command(CommandReply {
        summary: "Show the current directory.".into(),
        command: "pwd".into(),
    })
}

fn port_question() -> ModelReply {
    ModelReply::Clarification(ClarificationReply {
        question: "Which port should I check?".into(),
        options: vec!["3000".into(), "8080".into()],
        recommended_index: Some(0),
    })
}

#[test]
fn human_copy_mode_prints_command_without_executing() {
    let mut backend = FakeBackend::new(vec![Ok(pwd_reply())]);
    let mut ui = FakeUi::default();
    let mut executor = FakeExecutor::default();

    let result = run_task_with_deps(
        &mut backend,
        &mut ui,
        &mut executor,
        "show pwd",
        &copy_config(),
        &context(),
        OutputMode::Human,
    )
    .expect("copy flow should succeed");

    assert_eq!(result, TaskResult::ExitCode(0));
    assert!(ui
        .messages
        .iter()
        .any(|message| message == "Summary: Show the current directory."));
    assert!(executor.commands.is_empty());
}

#[test]
fn emit_command_mode_returns_raw_command_only() {
    let mut backend = FakeBackend::new(vec![Ok(pwd_reply())]);
    let mut ui = FakeUi::default();
    let mut executor = FakeExecutor::default();

    let result = run_task_with_deps(
        &mut backend,
        &mut ui,
        &mut executor,
        "show pwd",
        &copy_config(),
        &context(),
        OutputMode::EmitCommand,
    )
    .expect("emit flow should succeed");

    assert_eq!(result, TaskResult::EmittedCommand("pwd".into()));
    assert!(ui.messages.is_empty());
    assert!(executor.commands.is_empty());
}

#[test]
fn clarification_then_emit_command_works() {
    let mut backend = FakeBackend::new(vec![
        Ok(port_question()),
        Ok(ModelReply::Command(CommandReply {
            summary: "Check port 8080.".into(),
            command: "lsof -i :8080".into(),
        })),
    ]);
    let mut ui = FakeUi {
        answers: vec!["8080".into()],
        ..Default::default()
    };
    let mut executor = FakeExecutor::default();

    let result = run_task_with_deps(
        &mut backend,
        &mut ui,
        &mut executor,
        "find the port owner",
        &copy_config(),
        &context(),
        OutputMode::EmitCommand,
    )
    .expect("clarification flow should succeed");

    assert_eq!(result, TaskResult::EmittedCommand("lsof -i :8080".into()));
}

#[test]
fn execute_mode_respects_confirmation_for_destructive_commands() {
    let mut backend = FakeBackend::new(vec![Ok(ModelReply::Command(CommandReply {
        summary: "Delete the temp file.".into(),
        command: "rm -rf /tmp/example".into(),
    }))]);
    let mut ui = FakeUi {
        confirm: false,
        ..Default::default()
    };
    let mut executor = FakeExecutor::default();
    let mut config = copy_config();
    config.mode = Mode::Execute;

    let result = run_task_with_deps(
        &mut backend,
        &mut ui,
        &mut executor,
        "delete temp file",
        &config,
        &context(),
        OutputMode::Human,
    )
    .expect("decline should still be a clean exit");

    assert_eq!(result, TaskResult::ExitCode(130));
    assert!(executor.commands.is_empty());
}

#[test]
fn command_generation_wraps_backend_call_with_progress() {
    let mut backend = FakeBackend::new(vec![Ok(pwd_reply())]);
    let mut ui = FakeUi::default();
    let mut executor = FakeExecutor::default();

    run_task_with_deps(
        &mut backend,
        &mut ui,
        &mut executor,
        "show pwd",
        &copy_config(),
        &context(),
        OutputMode::Human,
    )
    .expect("copy flow should succeed");

    assert_eq!(
        ui.progress_events,
        vec![
            "start:Generating response...".to_string(),
            "stop".to_string()
        ]
    );
}

#[test]
fn clarification_flow_starts_progress_for_each_backend_call() {
    let mut backend = FakeBackend::new(vec![
        Ok(port_question()),
        Ok(ModelReply::Command(CommandReply {
            summary: "Check port 8080.".into(),
            command: "lsof -i :8080".into(),
        })),
    ]);
    let mut ui = FakeUi {
        answers: vec!["8080".into()],
        ..Default::default()
    };
    let mut executor = FakeExecutor::default();

    run_task_with_deps(
        &mut backend,
        &mut ui,
        &mut executor,
        "find the port owner",
        &copy_config(),
        &context(),
        OutputMode::EmitCommand,
    )
    .expect("clarification flow should succeed");

    assert_eq!(
        ui.progress_events,
        vec![
            "start:Generating response...".to_string(),
            "stop".to_string(),
            "start:Generating response...".to_string(),
            "stop".to_string()
        ]
    );
}

#[test]
fn backend_error_still_stops_progress() {
    let mut backend = FakeBackend::new(vec![Err(QuickcommandError::OllamaApi("boom".into()))]);
    let mut ui = FakeUi::default();
    let mut executor = FakeExecutor::default();

    let error = run_task_with_deps(
        &mut backend,
        &mut ui,
        &mut executor,
        "show pwd",
        &copy_config(),
        &context(),
        OutputMode::Human,
    )
    .expect_err("backend error should bubble up");

    assert!(matches!(error, QuickcommandError::OllamaApi(_)));
    assert_eq!(
        ui.progress_events,
        vec![
            "start:Generating response...".to_string(),
            "stop".to_string()
        ]
    );
}

#[test]
fn execute_mode_runs_confirmed_and_safe_commands() {
    let mut config = copy_config();
    config.mode = Mode::Execute;

    let mut backend = FakeBackend::new(vec![Ok(ModelReply::Command(CommandReply {
        summary: "List files.".into(),
        command: "ls -la\n\n  \ncd /tmp".into(),
    }))]);
    let mut ui = FakeUi::default();
    let mut executor = FakeExecutor {
        exit_code: 7,
        ..Default::default()
    };
    let result = run_task_with_deps(
        &mut backend, &mut ui, &mut executor, "list", &config, &context(), OutputMode::Human,
    )
    .unwrap();
    assert_eq!(result, TaskResult::ExitCode(7));
    assert_eq!(
        executor.commands,
        vec![("/bin/zsh".to_string(), "ls -la\n\n  \ncd /tmp".to_string())]
    );
    assert_eq!(
        ui.messages,
        vec!["Summary: List files.", "Command:", "  $ ls -la", "  $ cd /tmp"]
    );

    let mut backend = FakeBackend::new(vec![Ok(ModelReply::Command(CommandReply {
        summary: "Delete.".into(),
        command: "rm -rf /tmp/x".into(),
    }))]);
    let mut ui = FakeUi {
        confirm: true,
        ..Default::default()
    };
    let mut executor = FakeExecutor::default();
    let result = run_task_with_deps(
        &mut backend, &mut ui, &mut executor, "delete", &config, &context(), OutputMode::Human,
    )
    .unwrap();
    assert_eq!(result, TaskResult::ExitCode(0));
    assert_eq!(executor.commands.len(), 1);
}

#[test]
fn declined_command_warns() {
    let mut config = copy_config();
    config.mode = Mode::Execute;
    let mut backend = FakeBackend::new(vec![Ok(ModelReply::Command(CommandReply {
        summary: "Reboot.".into(),
        command: "sudo reboot".into(),
    }))]);
    let mut ui = FakeUi::default();
    let mut executor = FakeExecutor::default();
    let result = run_task_with_deps(
        &mut backend, &mut ui, &mut executor, "reboot", &config, &context(), OutputMode::Human,
    )
    .unwrap();
    assert_eq!(result, TaskResult::ExitCode(130));
    assert_eq!(ui.messages.last().map(String::as_str), Some("Execution cancelled."));
}

#[test]
fn third_clarification_is_refused() {
    let mut backend = FakeBackend::new(vec![
        Ok(port_question()),
        Ok(port_question()),
        Ok(port_question()),
        Ok(pwd_reply()),
    ]);
    let mut ui = FakeUi::default();
    let mut executor = FakeExecutor::default();
    let error = run_task_with_deps(
        &mut backend,
        &mut ui,
        &mut executor,
        "which port",
        &copy_config(),
        &context(),
        OutputMode::Human,
    )
    .unwrap_err();
    assert_eq!(error, QuickcommandError::ClarificationLimitReached);
    let requests = backend.requests.borrow();
    assert_eq!(requests.len(), 3);
    assert_eq!(requests[0].clarification_history, vec![]);
    assert_eq!(
        requests[2].clarification_history,
        vec![
            ClarificationTurn {
                question: "Which port should I check?".into(),
                answer: "3000".into()
            };
            2
        ]
    );
    assert!(requests.iter().all(|r| r.task == "which port"));
}

#[test]
fn flow_steps_follow_the_protocol() {
    let (flow, action) = TaskFlow::start("t", Mode::Copy, OutputMode::Human);
    assert!(matches!(action, FlowAction::Generate(ref r) if r.task == "t"));
    let (flow, action) = flow.step(FlowEvent::Replied(port_question()));
    assert_eq!(
        action,
        FlowAction::Ask {
            question: "Which port should I check?".into(),
            options: vec!["3000".into(), "8080".into()],
            recommended: Some(0),
        }
    );
    let (flow, action) = flow.step(FlowEvent::Answered("8080".into()));
    match action {
        FlowAction::Generate(request) => {
            assert_eq!(request.clarification_history.len(), 1);
            assert_eq!(request.clarification_history[0].answer, "8080");
        }
        other => panic!("unexpected action {other:?}"),
    }
    let (_, action) = flow.step(FlowEvent::Replied(pwd_reply()));
    assert_eq!(
        action,
        FlowAction::Finish {
            messages: vec![
                "Summary: Show the current directory.".into(),
                "Command:".into(),
                "  $ pwd".into()
            ],
            warning: None,
            result: TaskResult::ExitCode(0),
        }
    );
}

#[test]
fn backend_error_wins_over_progress_error() {
    let stop = || Err(QuickcommandError::Io("tty".into()));
    assert_eq!(
        progress_outcome(Err(QuickcommandError::OllamaApi("boom".into())), stop()),
        Err(QuickcommandError::OllamaApi("boom".into()))
    );
    assert_eq!(
        progress_outcome(Ok(pwd_reply()), stop()),
        Err(QuickcommandError::Io("tty".into()))
    );
    assert_eq!(progress_outcome(Ok(pwd_reply()), Ok(())), Ok(pwd_reply()));
}

#[test]
fn failed_progress_start_skips_backend_and_stop() {
    let mut backend = FakeBackend::new(vec![Ok(pwd_reply())]);
    let mut ui = FakeUi {
        fail_start: Some(QuickcommandError::Io("tty".into())),
        ..FakeUi::default()
    };
    let mut executor = FakeExecutor::default();

    let error = run_task_with_deps(
        &mut backend,
        &mut ui,
        &mut executor,
        "show pwd",
        &copy_config(),
        &context(),
        OutputMode::Human,
    )
    .expect_err("a failed progress start ends the task");

    assert_eq!(error, QuickcommandError::Io("tty".into()));
    assert!(backend.requests.borrow().is_empty());
    assert_eq!(
        ui.progress_events,
        vec!["start:Generating response...".to_string()]
    );
    assert!(ui.messages.is_empty());
    assert!(executor.commands.is_empty());
}

#[test]
fn init_model_is_typed_in_without_installed_models() {
    let mut ui = FakeUi::default();
    let model = ask_init_model(&mut ui, &[], "qwen3:8b").expect("asked");
    assert_eq!(model, "qwen3:8b");
}

#[test]
fn init_model_choice_recommends_default_and_allows_manual_entry() {
    let installed = vec!["llama3:8b".to_string(), "qwen3:8b".to_string()];
    let mut ui = FakeUi::default();
    assert_eq!(ask_init_model(&mut ui, &installed, "qwen3:8b").expect("asked"), "qwen3:8b");

    let mut ui = FakeUi {
        answers: vec!["Enter manually".to_string()],
        ..FakeUi::default()
    };
    assert_eq!(ask_init_model(&mut ui, &installed, "mistral").expect("asked"), "mistral");

    let mut ui = FakeUi {
        answers: vec!["llama3:8b".to_string()],
        ..FakeUi::default()
    };
    assert_eq!(ask_init_model(&mut ui, &installed, "qwen3:8b").expect("asked"), "llama3:8b");
}

#[test]
fn init_opens_with_greeting_then_host() {
    let mut ui = FakeUi::default();
    let host = ask_init_host(&mut ui).expect("asked");
    assert_eq!(host, "http://localhost:11434");
    assert_eq!(ui.messages, vec!["Starting quickcommand setup.".to_string()]);
}
