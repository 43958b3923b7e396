//! The command line, as the argument parser hands it over.
use vstd::prelude::*;

use crate::app::OutputMode;
use crate::config::{CliOverrides, Mode};
use crate::error::{QuickcommandError, Result};

verus! {

#[derive(Debug, Clone, PartialEq, Eq)]
pub struct Cli {
    pub command: Option<Command>,
    pub execute: bool,
    pub emit_command: bool,
    pub task: Vec<String>,
}

#[derive(Debug, Clone, Copy, PartialEq, Eq, Structural)]
pub enum Command {
    Init,
    Config { command: ConfigCommand },
}

#[derive(Debug, Clone, Copy, PartialEq, Eq, Structural)]
pub enum ConfigCommand {
    Show,
}

/// What the command line asks for.
#[derive(Debug, Clone, PartialEq, Eq)]
pub enum CliAction {
    Init,
    ConfigShow,
    Task(String),
}

/// The words joined with single spaces.
pub open spec fn join_words(words: Seq<Seq<char>>) -> Seq<char>
    decreases words.len(),
{
    if words.len() == 0 {
        seq![]
    } else if words.len() == 1 {
        words[0]
    } else {
        join_words(words.drop_last()) + seq![' '] + words.last()
    }
}

impl Cli {
    /// The task: the words after the options joined with spaces, or `None` where there are none.
    pub fn task_string(&self) -> (r: Option<String>)
        ensures
            self.task@.len() == 0 ==> r is None,
            self.task@.len() > 0 ==> (r matches Some(t) && t@ == join_words(
                self.task@.map_values(|w: String| w@),
            )),
    {
        if self.task.len() == 0 {
            return None;
        }
        let ghost words = self.task@.map_values(|w: String| w@);
        let mut joined = self.task[0].clone();
        let mut i: usize = 1;
        assert(words.take(1) =~= seq![words[0]]);
        while i < self.task.len()
            invariant
                words == self.task@.map_values(|w: String| w@),
                1 <= i <= self.task@.len(),
                joined@ == join_words(words.take(i as int)),
            decreases self.task@.len() - i,
        {
            crate::text::push_char(&mut joined, ' ');
            joined.append(self.task[i].as_str());
            assert(words.take(i + 1).drop_last() =~= words.take(i as int));
            i = i + 1;
        }
        assert(words.take(i as int) =~= words);
        Some(joined)
    }

    /// What to do: the subcommand, else the task; without either the task is missing.
    pub fn action(&self) -> (r: Result<CliAction>)
        ensures
            match self.command {
                Some(Command::Init) => r == Ok::<CliAction, QuickcommandError>(CliAction::Init),
                Some(Command::Config { command: ConfigCommand::Show }) => r == Ok::<
                    CliAction,
                    QuickcommandError,
                >(CliAction::ConfigShow),
                None => if self.task@.len() == 0 {
                    r == Err::<CliAction, QuickcommandError>(QuickcommandError::MissingTask)
                } else {
                    r matches Ok(CliAction::Task(t)) && t@ == join_words(
                        self.task@.map_values(|w: String| w@),
                    )
                },
            },
    {
        match self.command {
            Some(Command::Init) => Ok(CliAction::Init),
            Some(Command::Config { command: ConfigCommand::Show }) => Ok(CliAction::ConfigShow),
            None => match self.task_string() {
                Some(task) => Ok(CliAction::Task(task)),
                None => Err(QuickcommandError::MissingTask),
            },
        }
    }

    /// Where the result goes: the hidden `--emit-command` flag emits the bare command.
    pub fn output_mode(&self) -> (r: OutputMode)
        ensures
            r == if self.emit_command {
                OutputMode::EmitCommand
            } else {
                OutputMode::Human
            },
    {
        if self.emit_command {
            OutputMode::EmitCommand
        } else {
            OutputMode::Human
        }
    }

    /// What the command line overrides: emitting the command forces copy mode,
    /// else `--execute` forces execute mode.
    pub fn overrides(&self) -> (r: CliOverrides)
        ensures
            r.mode == if self.emit_command {
                Some(Mode::Copy)
            } else if self.execute {
                Some(Mode::Execute)
            } else {
                None
            },
    {
        CliOverrides {
            mode: if self.emit_command {
                Some(Mode::Copy)
            } else {
                self.mode_override()
            },
        }
    }

    /// `Execute` where `--execute` was given.
    pub fn mode_override(&self) -> (r: Option<Mode>)
        ensures
            r == if self.execute {
                Some(Mode::Execute)
            } else {
                None
            },
    {
        if self.execute {
            Some(Mode::Execute)
        } else {
            None
        }
    }
}

} // verus!
