//! What the terminal front end shows and how it reads the user's answers:
//! prompts, the interpretation of typed input, and the texts of `init` and
//! `config show`.
use vstd::prelude::*;

use crate::app::OutputMode;
use crate::config::{
    mode_name, provider_name, FileConfig, Mode, Provider, ResolvedConfig,
};
use crate::text::{
    chars_of, chars_eq, lower, lower_exec, push_char, push_chars, str_eq, trim, trim_end_len,
    trim_start_len, views,
};

verus! {

// ---------------------------------------------------------------------------
// Numbers
// ---------------------------------------------------------------------------

pub open spec fn digit_char(d: nat) -> char {
    (('0' as u32) + d) as char
}

/// The decimal digits of `n`.
pub open spec fn decimal(n: nat) -> Seq<char>
    decreases n,
{
    if n < 10 {
        seq![digit_char(n)]
    } else {
        decimal(n / 10).push(digit_char(n % 10))
    }
}

/// Appends the decimal digits of `n` to `out`.
pub fn push_decimal(out: &mut String, n: usize)
    ensures
        final(out)@ == old(out)@ + decimal(n as nat),
    decreases n,
{
    if n >= 10 {
        push_decimal(out, n / 10);
    }
    let d = (n % 10) as u8;
    let c = (48u8 + d) as char;
    assert(c == digit_char((n % 10) as nat));
    push_char(out, c);
}

pub open spec fn is_digit(c: char) -> bool {
    '0' <= c && c <= '9'
}

/// The value of a sequence of decimal digits.
pub open spec fn digits_value(d: Seq<char>) -> nat
    decreases d.len(),
{
    if d.len() == 0 {
        0
    } else {
        digits_value(d.drop_last()) * 10 + ((d.last() as u32) - ('0' as u32)) as nat
    }
}

/// Every character is a decimal digit.
pub open spec fn all_digits(d: Seq<char>) -> bool {
    forall|i: int| 0 <= i < d.len() ==> is_digit(#[trigger] d[i])
}

/// The text after an optional leading `+`.
pub open spec fn unsigned_part(s: Seq<char>) -> Seq<char> {
    if s.len() > 0 && s[0] == '+' {
        s.drop_first()
    } else {
        s
    }
}

/// `str::parse::<usize>`: an optional `+`, then one or more decimal digits
/// whose value fits in `usize`.
pub open spec fn parse_usize(s: Seq<char>) -> Option<usize> {
    let d = unsigned_part(s);
    if d.len() > 0 && all_digits(d) && digits_value(d) <= usize::MAX {
        Some(digits_value(d) as usize)
    } else {
        None
    }
}

proof fn lemma_digits_value_grows(d: Seq<char>, k: int)
    requires
        0 <= k <= d.len(),
        all_digits(d),
    ensures
        digits_value(d.take(k)) <= digits_value(d),
    decreases d.len() - k,
{
    if k < d.len() {
        lemma_digits_value_grows(d, k + 1);
        assert(d.take(k + 1).drop_last() =~= d.take(k));
    } else {
        assert(d.take(k) =~= d);
    }
}

/// Reads a decimal number as `str::parse::<usize>` does.
pub fn parse_usize_exec(s: &str) -> (r: Option<usize>)
    ensures
        r == parse_usize(s@),
{
    let v = chars_of(s);
    let start: usize = if v.len() > 0 && v[0] == '+' {
        1
    } else {
        0
    };
    let ghost d = v@.skip(start as int);
    assert(d =~= unsigned_part(s@));
    if start == v.len() {
        return None;
    }
    let mut value: usize = 0;
    let mut i = start;
    while i < v.len()
        invariant
            start <= i <= v@.len(),
            v@ == s@,
            d == v@.skip(start as int),
            d == unsigned_part(s@),
            d.len() > 0,
            value == digits_value(d.take(i - start)),
            forall|j: int| 0 <= j < i - start ==> is_digit(#[trigger] d[j]),
        decreases v@.len() - i,
    {
        let c = v[i];
        assert(c == d[i - start]);
        if !('0' <= c && c <= '9') {
            assert(!is_digit(d[i - start]));
            assert(parse_usize(s@) is None);
            return None;
        }
        let ghost k = i - start;
        assert(d.take(k + 1).drop_last() =~= d.take(k));
        assert(d.take(k + 1).last() == c);
        let digit = ((c as u32) - 48) as usize;
        assert(digits_value(d.take(k + 1)) == value * 10 + digit);
        let next = value.checked_mul(10);
        let next = match next {
            Some(m) => m.checked_add(digit),
            None => None,
        };
        match next {
            Some(n) => {
                value = n;
            },
            None => {
                proof {
                    if all_digits(d) {
                        lemma_digits_value_grows(d, k + 1);
                    }
                }
                assert(parse_usize(s@) is None);
                return None;
            },
        }
        i = i + 1;
    }
    assert(d.take(i - start) =~= d);
    Some(value)
}

// ---------------------------------------------------------------------------
// Prompts and answers
// ---------------------------------------------------------------------------

/// `<prompt> [Y/n]: ` or `<prompt> [y/N]: `, after the default.
pub open spec fn yes_no_prompt_text(prompt: Seq<char>, default: bool) -> Seq<char> {
    prompt + " "@ + (if default {
        "[Y/n]"@
    } else {
        "[y/N]"@
    }) + ": "@
}

pub fn yes_no_prompt(prompt: &str, default: bool) -> (r: String)
    ensures
        r@ == yes_no_prompt_text(prompt@, default),
{
    let r = String::from_str(prompt).concat(" ");
    let r = if default {
        r.concat("[Y/n]")
    } else {
        r.concat("[y/N]")
    };
    r.concat(": ")
}

/// A typed yes/no answer: empty (after trimming) gives the default; `y`/`yes`
/// and `n`/`no` in any ASCII case answer; anything else is no answer.
pub open spec fn yes_no_answer(input: Seq<char>, default: bool) -> Option<bool> {
    let t = trim(input);
    if t.len() == 0 {
        Some(default)
    } else if lower(t) == "y"@ || lower(t) == "yes"@ {
        Some(true)
    } else if lower(t) == "n"@ || lower(t) == "no"@ {
        Some(false)
    } else {
        None
    }
}

fn trimmed(v: &Vec<char>) -> (r: Vec<char>)
    ensures
        r@ == trim(v@),
{
    let e = trim_end_len(v);
    let mut head: Vec<char> = Vec::new();
    let mut i: usize = 0;
    while i < e
        invariant
            e <= v@.len(),
            i <= e,
            head@ == v@.take(i as int),
        decreases e - i,
    {
        head.push(v[i]);
        assert(v@.take(i + 1) =~= v@.take(i as int).push(v@[i as int]));
        i = i + 1;
    }
    let s = trim_start_len(&head);
    let mut r: Vec<char> = Vec::new();
    let mut j = s;
    while j < head.len()
        invariant
            s <= j <= head@.len(),
            r@ == head@.subrange(s as int, j as int),
        decreases head@.len() - j,
    {
        r.push(head[j]);
        assert(head@.subrange(s as int, j + 1) =~= head@.subrange(s as int, j as int).push(
            head@[j as int],
        ));
        j = j + 1;
    }
    assert(head@.subrange(s as int, head@.len() as int) =~= head@.skip(s as int));
    r
}

pub fn interpret_yes_no(input: &str, default: bool) -> (r: Option<bool>)
    ensures
        r == yes_no_answer(input@, default),
{
    let t = trimmed(&chars_of(input));
    if t.len() == 0 {
        return Some(default);
    }
    let l = lower_exec(&t);
    if chars_eq(&l, &chars_of("y")) || chars_eq(&l, &chars_of("yes")) {
        Some(true)
    } else if chars_eq(&l, &chars_of("n")) || chars_eq(&l, &chars_of("no")) {
        Some(false)
    } else {
        None
    }
}

/// `<prompt> [<default>]: `, or `<prompt>: ` without a default.
pub open spec fn input_prompt_text(prompt: Seq<char>, default: Option<Seq<char>>) -> Seq<char> {
    match default {
        Some(d) => prompt + " ["@ + d + "]: "@,
        None => prompt + ": "@,
    }
}

pub fn input_prompt(prompt: &str, default: Option<&str>) -> (r: String)
    ensures
        r@ == input_prompt_text(prompt@, crate::config::opt_str_view(default)),
{
    match default {
        Some(d) => String::from_str(prompt).concat(" [").concat(d).concat("]: "),
        None => String::from_str(prompt).concat(": "),
    }
}

/// A typed value: the trimmed input where it is not empty, else the default;
/// `None` asks again.
pub open spec fn input_answer(input: Seq<char>, default: Option<Seq<char>>) -> Option<Seq<char>> {
    if trim(input).len() > 0 {
        Some(trim(input))
    } else {
        default
    }
}

pub fn interpret_input(input: &str, default: Option<&str>) -> (r: Option<String>)
    ensures
        crate::config::opt_view(r) == input_answer(input@, crate::config::opt_str_view(default)),
{
    let t = trimmed(&chars_of(input));
    if t.len() > 0 {
        let mut s = String::new();
        push_chars(&mut s, &t, 0, t.len());
        assert(t@.subrange(0, t@.len() as int) =~= t@);
        Some(s)
    } else {
        match default {
            Some(d) => Some(String::from_str(d)),
            None => None,
        }
    }
}

/// The numbered list of options: `  1. <first>`, `  2. <second>`, ...
pub open spec fn option_lines(options: Seq<Seq<char>>) -> Seq<Seq<char>> {
    Seq::new(options.len(), |i: int| "  "@ + decimal((i + 1) as nat) + ". "@ + options[i])
}

pub fn choice_option_lines(options: &[String]) -> (r: Vec<String>)
    ensures
        views(r@) == option_lines(views(options@)),
{
    let mut r: Vec<String> = Vec::new();
    let mut i: usize = 0;
    while i < options.len()
        invariant
            i <= options@.len(),
            views(r@) == option_lines(views(options@)).take(i as int),
        decreases options@.len() - i,
    {
        let mut line = String::from_str("  ");
        push_decimal(&mut line, i + 1);
        line.append(". ");
        line.append(options[i].as_str());
        let ghost before = views(r@);
        let ghost shown = line@;
        assert(shown == "  "@ + decimal((i + 1) as nat) + ". "@ + views(options@)[i as int]);
        r.push(line);
        assert(views(r@) =~= before.push(shown));
        assert(views(r@) =~= option_lines(views(options@)).take(i + 1));
        i = i + 1;
    }
    assert(option_lines(views(options@)).take(options@.len() as int) =~= option_lines(
        views(options@),
    ));
    r
}

/// The recommended option, where the index is in range.
pub fn recommended_option(options: &[String], recommended: Option<usize>) -> (r: Option<String>)
    ensures
        match recommended {
            Some(i) if i < options@.len() => r matches Some(o) && o@ == options@[i as int]@,
            _ => r is None,
        },
{
    match recommended {
        Some(i) => if i < options.len() {
            Some(options[i].clone())
        } else {
            None
        },
        None => None,
    }
}

/// A typed choice: a number `n` picks option `n` (counted from 1, `0` the
/// first as well) where there is one; else any non-blank answer stands as
/// typed; `None` asks again.
pub open spec fn choice_answer(answer: Seq<char>, options: Seq<Seq<char>>) -> Option<Seq<char>> {
    match parse_usize(answer) {
        Some(n) if (if n == 0 {
            0
        } else {
            n - 1
        }) < options.len() => Some(options[if n == 0 {
            0
        } else {
            n - 1
        }]),
        _ => if trim(answer).len() > 0 {
            Some(answer)
        } else {
            None
        },
    }
}

pub fn interpret_choice(answer: &str, options: &[String]) -> (r: Option<String>)
    ensures
        crate::config::opt_view(r) == choice_answer(answer@, views(options@)),
{
    if let Some(n) = parse_usize_exec(answer) {
        let index = if n == 0 {
            0
        } else {
            n - 1
        };
        if index < options.len() {
            return Some(options[index].clone());
        }
    }
    let t = trimmed(&chars_of(answer));
    if t.len() > 0 {
        Some(String::from_str(answer))
    } else {
        None
    }
}

/// Messages go to standard error when they are warnings or when standard
/// output carries the emitted command; prompts follow the same rule.
pub fn uses_stderr(output_mode: OutputMode, warning: bool) -> (r: bool)
    ensures
        r == (warning || output_mode == OutputMode::EmitCommand),
{
    warning || match output_mode {
        OutputMode::EmitCommand => true,
        OutputMode::Human => false,
    }
}

// ---------------------------------------------------------------------------
// `init` and `config show`
// ---------------------------------------------------------------------------

// ---------------------------------------------------------------------------
// Reading answers at the terminal
// ---------------------------------------------------------------------------

pub const YES_NO_RETRY: &'static str = "Please answer with y/yes or n/no.";

pub const INPUT_RETRY: &'static str = "Please enter a value.";

pub const CHOICE_RETRY: &'static str = "Please enter a valid number or value.";

pub const CHOICE_INPUT_PROMPT: &'static str = "Choose a number or type your own answer";

/// What the terminal does with a line the user typed: take the answer, or
/// show the warning and ask again.
#[derive(Debug, Clone, PartialEq, Eq)]
pub enum Reading<T> {
    Answer(T),
    Retry(String),
}

/// The reading of a line typed at a yes/no question.
pub fn yes_no_reading(input: &str, default: bool) -> (r: Reading<bool>)
    ensures
        match yes_no_answer(input@, default) {
            Some(answer) => r == Reading::<bool>::Answer(answer),
            None => r matches Reading::Retry(w) && w@ == YES_NO_RETRY@,
        },
{
    match interpret_yes_no(input, default) {
        Some(answer) => Reading::Answer(answer),
        None => Reading::Retry(String::from_str(YES_NO_RETRY)),
    }
}

/// The reading of a line typed at a free-text question.
pub fn input_reading(input: &str, default: Option<&str>) -> (r: Reading<String>)
    ensures
        match input_answer(input@, crate::config::opt_str_view(default)) {
            Some(value) => r matches Reading::Answer(s) && s@ == value,
            None => r matches Reading::Retry(w) && w@ == INPUT_RETRY@,
        },
{
    match interpret_input(input, default) {
        Some(value) => Reading::Answer(value),
        None => Reading::Retry(String::from_str(INPUT_RETRY)),
    }
}

/// The reading of the answer given to a multiple-choice question.
pub fn choice_reading(answer: &str, options: &[String]) -> (r: Reading<String>)
    ensures
        match choice_answer(answer@, views(options@)) {
            Some(value) => r matches Reading::Answer(s) && s@ == value,
            None => r matches Reading::Retry(w) && w@ == CHOICE_RETRY@,
        },
{
    match interpret_choice(answer, options) {
        Some(value) => Reading::Answer(value),
        None => Reading::Retry(String::from_str(CHOICE_RETRY)),
    }
}

// ---------------------------------------------------------------------------
// The progress indicator
// ---------------------------------------------------------------------------

/// The number of frames of the progress indicator.
pub const PROGRESS_FRAME_COUNT: usize = 4;

/// The frame shown at step `index` of the progress indicator: `|`, `/`,
/// `-`, `\`, in turn.
pub open spec fn progress_frame_char(index: nat) -> char {
    let k = index % 4;
    if k == 0 {
        '|'
    } else if k == 1 {
        '/'
    } else if k == 2 {
        '-'
    } else {
        '\\'
    }
}

/// The line that draws frame `index` of the progress indicator with
/// `message`: a carriage return, the erase-line sequence, the frame, a space
/// and the message.
pub fn progress_line(index: usize, message: &str) -> (r: String)
    ensures
        r@ == "\r\x1b[2K"@ + seq![progress_frame_char(index as nat), ' '] + message@,
{
    let mut r = String::from_str("\r\x1b[2K");
    let frame = if index % PROGRESS_FRAME_COUNT == 0 {
        '|'
    } else if index % PROGRESS_FRAME_COUNT == 1 {
        '/'
    } else if index % PROGRESS_FRAME_COUNT == 2 {
        '-'
    } else {
        '\\'
    };
    push_char(&mut r, frame);
    push_char(&mut r, ' ');
    let ghost head = r@;
    r.append(message);
    assert(r@ =~= head + message@);
    r
}

/// The next frame of the progress indicator, after the last one the first.
pub fn next_progress_frame(index: usize) -> (r: usize)
    ensures
        r == (index + 1) % 4,
{
    (index % PROGRESS_FRAME_COUNT + 1) % PROGRESS_FRAME_COUNT
}

pub const ENTER_MANUALLY: &'static str = "Enter manually";

/// The first index of `m` in `models`.
pub open spec fn position_of(models: Seq<Seq<char>>, m: Seq<char>) -> Option<int> {
    if exists|i: int| 0 <= i < models.len() && models[i] == m {
        Some(
            choose|i: int|
                0 <= i < models.len() && models[i] == m && forall|j: int|
                    0 <= j < i ==> models[j] != m,
        )
    } else {
        None
    }
}

/// The model choice that `init` offers: the installed models and a last
/// option to type a name, with the default model recommended where it is
/// installed and the first model otherwise; `None` where no model is installed.
pub fn init_model_choice(installed: &[String], default_model: &str) -> (r: Option<
    (Vec<String>, Option<usize>),
>)
    ensures
        installed@.len() == 0 ==> r is None,
        installed@.len() > 0 ==> {
            &&& r matches Some((options, recommended))
            &&& views(options@) == views(installed@).push(ENTER_MANUALLY@)
            &&& recommended matches Some(k)
            &&& k < installed@.len()
            &&& if views(installed@).contains(default_model@) {
                installed@[k as int]@ == default_model@ && forall|j: int|
                    0 <= j < k ==> installed@[j]@ != default_model@
            } else {
                k == 0
            }
        },
{
    if installed.len() == 0 {
        return None;
    }
    let mut options: Vec<String> = Vec::new();
    let mut found: Option<usize> = None;
    let mut i: usize = 0;
    while i < installed.len()
        invariant
            i <= installed@.len(),
            views(options@) == views(installed@).take(i as int),
            match found {
                Some(k) => k < i && installed@[k as int]@ == default_model@ && forall|j: int|
                    0 <= j < k ==> installed@[j]@ != default_model@,
                None => forall|j: int| 0 <= j < i ==> installed@[j]@ != default_model@,
            },
        decreases installed@.len() - i,
    {
        if found.is_none() && str_eq(installed[i].as_str(), default_model) {
            found = Some(i);
        }
        let ghost before = views(options@);
        let copy = installed[i].clone();
        assert(copy@ == views(installed@)[i as int]);
        options.push(copy);
        assert(views(options@) =~= before.push(views(installed@)[i as int]));
        assert(views(options@) =~= views(installed@).take(i + 1));
        i = i + 1;
    }
    assert(views(installed@).take(installed@.len() as int) =~= views(installed@));
    let ghost before = views(options@);
    options.push(String::from_str(ENTER_MANUALLY));
    assert(views(options@) =~= before.push(ENTER_MANUALLY@));
    let recommended = match found {
        Some(k) => Some(k),
        None => Some(0),
    };
    proof {
        if views(installed@).contains(default_model@) {
            let w = choose|j: int| 0 <= j < views(installed@).len() && views(installed@)[j] == default_model@;
            assert(installed@[w]@ == default_model@);
        }
        if let Some(k) = found {
            assert(views(installed@)[k as int] == default_model@);
        }
    }
    Some((options, recommended))
}

/// Whether the chosen option is the one to type a model name.
pub fn is_manual_entry(selected: &str) -> (r: bool)
    ensures
        r == (selected@ == ENTER_MANUALLY@),
{
    str_eq(selected, ENTER_MANUALLY)
}

/// The configuration that `init` saves.
pub fn init_file_config(host: String, model: String) -> (r: FileConfig)
    ensures
        r.provider == Some(Provider::Ollama),
        r.mode == Some(Mode::Copy),
        r.ollama_host == Some(host),
        r.ollama_model == Some(model),
{
    FileConfig {
        provider: Some(Provider::Ollama),
        mode: Some(Mode::Copy),
        ollama_host: Some(host),
        ollama_model: Some(model),
    }
}

/// The report that `init` ends with.
pub open spec fn init_report_lines(config_path: Seq<char>, zshrc: Seq<char>, installed: bool) -> Seq<
    Seq<char>,
> {
    seq![
        "Saved configuration to "@ + config_path + "."@,
        if installed {
            "Installed zsh integration into "@ + zshrc + "."@
        } else {
            "zsh integration is already up to date in "@ + zshrc + "."@
        },
        "Restart zsh or run `source ~/.zshrc` to enable prompt insertion."@,
    ]
}

pub fn init_report(config_path: &str, zshrc: &str, installed: bool) -> (r: Vec<String>)
    ensures
        views(r@) == init_report_lines(config_path@, zshrc@, installed),
{
    let mut r: Vec<String> = Vec::new();
    r.push(String::from_str("Saved configuration to ").concat(config_path).concat("."));
    if installed {
        r.push(String::from_str("Installed zsh integration into ").concat(zshrc).concat("."));
    } else {
        r.push(
            String::from_str("zsh integration is already up to date in ").concat(zshrc).concat("."),
        );
    }
    r.push(String::from_str("Restart zsh or run `source ~/.zshrc` to enable prompt insertion."));
    assert(views(r@) =~= init_report_lines(config_path@, zshrc@, installed));
    r
}

/// What `config show` prints.
pub open spec fn config_show_text(path: Seq<char>, resolved: ResolvedConfig) -> Seq<Seq<char>> {
    seq![
        "quickcommand configuration"@,
        "  path         = "@ + path,
        "  provider     = "@ + provider_name(resolved.provider),
        "  mode         = "@ + mode_name(resolved.mode),
        "  ollama_host  = "@ + resolved.ollama_host@,
        "  ollama_model = "@ + resolved.ollama_model@,
    ]
}

pub fn config_show_lines(path: &str, resolved: &ResolvedConfig) -> (r: Vec<String>)
    ensures
        views(r@) == config_show_text(path@, *resolved),
{
    let mut r: Vec<String> = Vec::new();
    r.push(String::from_str("quickcommand configuration"));
    r.push(String::from_str("  path         = ").concat(path));
    r.push(String::from_str("  provider     = ").concat(resolved.provider.as_str()));
    r.push(String::from_str("  mode         = ").concat(resolved.mode.as_str()));
    r.push(String::from_str("  ollama_host  = ").concat(resolved.ollama_host.as_str()));
    r.push(String::from_str("  ollama_model = ").concat(resolved.ollama_model.as_str()));
    assert(views(r@) =~= config_show_text(path@, *resolved));
    r
}

} // verus!
