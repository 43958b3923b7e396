# quickcommand

`qc` turns a natural-language task into a shell command with a local Ollama
model. In copy mode the command is shown (or, for the zsh integration,
emitted so that it lands on the next prompt); in execute mode it is shown and
run, after a confirmation where it looks destructive.

## Layout

- `src/` is the library, verified with Verus:
  - `app.rs`: the task flow as a state machine (`TaskFlow::step`) and the
    driver `run_task_with_deps` over the `Backend`, `Ui` and `Executor`
    traits. Each trait method states what it adds to a record of calls; the
    driver's contract (`task_session`) accounts for every terminal call,
    every request to the backend and every shell run, in order, and the
    result; each model request is made once, only after the progress
    indicator started, and the indicator is then stopped. The laws are proved on the step function (bounded
    clarifications, requests carry the history) and on the driver's record:
    only a command the model replied with runs, in the context's shell;
    copy mode runs nothing; a destructive command runs only after a yes to
    the destructive-command prompt; an exit code is the run's own or 130
    after a no; an emitted command is the reply's command. The trait
    contracts are trusted for implementations outside the library; the
    `init` questions and the terminal's answer handling are verified too.
  - `config.rs`: provider and mode names, config path, precedence of command
    line, environment and file, and the `ollama list` reader.
  - `shell_integration.rs`: the zsh block and its insertion into `~/.zshrc`,
    with the proofs that installing twice changes nothing and that the file
    holds the block afterwards.
  - `model.rs`, `prompt.rs`, `safety.rs`, `console.rs`, `cli.rs`,
    `backend.rs`, `exec.rs`, `error.rs`, `path.rs`: replies, prompts,
    destructive-command detection, terminal texts and answers, and helpers.
  - `text.rs`: the character-level model of the string operations used.
- `app/` is the program: argument parsing (clap), files and environment,
  the HTTP client, the terminal and the shell.
- `tests/` runs the library on concrete values.
