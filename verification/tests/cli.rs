use quickcommand::app::OutputMode;
use quickcommand::cli::{Cli, CliAction, Command, ConfigCommand};
use quickcommand::config::Mode;
use quickcommand::error::QuickcommandError;

fn cli(execute: bool, emit_command: bool, task: &[&str]) -> Cli {
    Cli {
        command: None,
        execute,
        emit_command,
        task: task.iter().map(|w| w.to_string()).collect(),
    }
}

#[test]
fn default_mode_is_copy() {
    // `qc pwd`
    assert_eq!(cli(false, false, &["pwd"]).mode_override(), None);
}

#[test]
fn execute_flag_overrides_mode() {
    // `qc --execute pwd`
    assert_eq!(cli(true, false, &["pwd"]).mode_override(), Some(Mode::Execute));
}

#[test]
fn task_words_are_joined() {
    assert_eq!(cli(false, false, &[]).task_string(), None);
    assert_eq!(
        cli(false, false, &["show", "the", "cwd"]).task_string().as_deref(),
        Some("show the cwd")
    );
}

#[test]
fn emit_command_forces_copy_mode() {
    let c = cli(false, true, &["pwd"]);
    assert_eq!(c.output_mode(), OutputMode::EmitCommand);
    assert_eq!(c.overrides().mode, Some(Mode::Copy));
    let c = cli(true, false, &["pwd"]);
    assert_eq!(c.output_mode(), OutputMode::Human);
    assert_eq!(c.overrides().mode, Some(Mode::Execute));
}

#[test]
fn actions_follow_subcommands() {
    assert_eq!(cli(false, false, &[]).action(), Err(QuickcommandError::MissingTask));
    assert_eq!(
        cli(false, false, &["a", "b"]).action(),
        Ok(CliAction::Task("a b".into()))
    );
    let mut c = cli(false, false, &[]);
    c.command = Some(Command::Init);
    assert_eq!(c.action(), Ok(CliAction::Init));
    c.command = Some(Command::Config {
        command: ConfigCommand::Show,
    });
    assert_eq!(c.action(), Ok(CliAction::ConfigShow));
}
