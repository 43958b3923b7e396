//! Configuration: the values that the config file, the environment and the
//! command line give, and how they combine.
use vstd::prelude::*;

use crate::error::{QuickcommandError, Result};
use crate::path::{join, join_path};
use crate::text::{
    chars_of, first_word, first_word_exec, is_blank, lines, lines_exec, push_chars, starts_with,
    str_eq, trim, trim_start, trim_start_len, views, char_views,
};

verus! {

pub const DEFAULT_OLLAMA_HOST: &'static str = "http://localhost:11434";

pub const PREFERRED_OLLAMA_MODEL: &'static str = "qwen3.5:9b";

#[derive(Debug, Clone, Copy, PartialEq, Eq, Structural)]
pub enum Provider {
    Ollama,
}

#[derive(Debug, Clone, Copy, PartialEq, Eq, Structural)]
pub enum Mode {
    Copy,
    Execute,
}

#[derive(Debug, Clone, PartialEq, Eq)]
pub struct FileConfig {
    pub provider: Option<Provider>,
    pub mode: Option<Mode>,
    pub ollama_host: Option<String>,
    pub ollama_model: Option<String>,
}

#[derive(Debug, Clone, PartialEq, Eq)]
pub struct ResolvedConfig {
    pub provider: Provider,
    pub mode: Mode,
    pub ollama_host: String,
    pub ollama_model: String,
}

#[derive(Debug, Clone, PartialEq, Eq)]
pub struct EnvConfig {
    pub provider: Option<Provider>,
    pub mode: Option<Mode>,
    pub ollama_host: Option<String>,
    pub ollama_model: Option<String>,
}

#[derive(Debug, Clone, PartialEq, Eq)]
pub struct CliOverrides {
    pub mode: Option<Mode>,
}

impl Default for FileConfig {
    fn default() -> (r: Self)
        ensures
            r.provider is None,
            r.mode is None,
            r.ollama_host is None,
            r.ollama_model is None,
    {
        FileConfig { provider: None, mode: None, ollama_host: None, ollama_model: None }
    }
}

impl Default for EnvConfig {
    fn default() -> (r: Self)
        ensures
            r.provider is None,
            r.mode is None,
            r.ollama_host is None,
            r.ollama_model is None,
    {
        EnvConfig { provider: None, mode: None, ollama_host: None, ollama_model: None }
    }
}

impl Default for CliOverrides {
    fn default() -> (r: Self)
        ensures
            r.mode is None,
    {
        CliOverrides { mode: None }
    }
}

impl Default for Provider {
    fn default() -> (r: Self)
        ensures
            r == Provider::Ollama,
    {
        Provider::Ollama
    }
}

impl Default for Mode {
    fn default() -> (r: Self)
        ensures
            r == Mode::Copy,
    {
        Mode::Copy
    }
}

/// The name under which a provider is written and shown.
pub open spec fn provider_name(p: Provider) -> Seq<char> {
    match p {
        Provider::Ollama => "ollama"@,
    }
}

/// The name under which a mode is written and shown.
pub open spec fn mode_name(m: Mode) -> Seq<char> {
    match m {
        Mode::Copy => "copy"@,
        Mode::Execute => "execute"@,
    }
}

/// The mode that a name stands for.
pub open spec fn mode_named(s: Seq<char>) -> Option<Mode> {
    if s == "copy"@ {
        Some(Mode::Copy)
    } else if s == "execute"@ {
        Some(Mode::Execute)
    } else {
        None
    }
}

/// The provider that a name stands for.
pub open spec fn provider_named(s: Seq<char>) -> Option<Provider> {
    if s == "ollama"@ {
        Some(Provider::Ollama)
    } else {
        None
    }
}

impl Provider {
    /// Reads a provider name; any name but `ollama` is refused.
    pub fn parse(value: &str) -> (r: Result<Self>)
        ensures
            match provider_named(value@) {
                Some(p) => r == Ok::<Provider, QuickcommandError>(p),
                None => r matches Err(QuickcommandError::UnsupportedProvider(name)) && name@
                    == value@,
            },
    {
        if str_eq(value, "ollama") {
            Ok(Provider::Ollama)
        } else {
            Err(QuickcommandError::UnsupportedProvider(String::from_str(value)))
        }
    }

    /// The name of the provider, as the configuration shows it.
    pub fn as_str(&self) -> (r: &'static str)
        ensures
            r@ == provider_name(*self),
    {
        match self {
            Provider::Ollama => "ollama",
        }
    }
}

impl Mode {
    /// Reads a mode name: `copy` or `execute`.
    pub fn parse(value: &str) -> (r: Option<Self>)
        ensures
            r == mode_named(value@),
    {
        if str_eq(value, "copy") {
            Some(Mode::Copy)
        } else if str_eq(value, "execute") {
            Some(Mode::Execute)
        } else {
            None
        }
    }

    /// The name of the mode, as the configuration shows it.
    pub fn as_str(&self) -> (r: &'static str)
        ensures
            r@ == mode_name(*self),
    {
        match self {
            Mode::Copy => "copy",
            Mode::Execute => "execute",
        }
    }
}

/// Reading back the name of a mode gives the mode.
pub proof fn lemma_mode_name_roundtrip(m: Mode)
    ensures
        mode_named(mode_name(m)) == Some(m),
{
    reveal_strlit("copy");
    reveal_strlit("execute");
    assert("copy"@ != "execute"@) by {
        assert("copy"@.len() != "execute"@.len());
    }
}

/// Reading back the name of a provider gives the provider.
pub proof fn lemma_provider_name_roundtrip(p: Provider)
    ensures
        provider_named(provider_name(p)) == Some(p),
{
}

/// `<base>/quickcommand/config.toml` under the XDG config directory, else
/// `<home>/.config/quickcommand/config.toml`.
pub open spec fn config_path_spec(xdg_config_home: Option<Seq<char>>, home: Option<Seq<char>>) -> Option<
    Seq<char>,
> {
    match xdg_config_home {
        Some(xdg) => Some(join(join(xdg, "quickcommand"@), "config.toml"@)),
        None => match home {
            Some(h) => Some(join(join(join(h, ".config"@), "quickcommand"@), "config.toml"@)),
            None => None,
        },
    }
}

pub open spec fn opt_str_view(o: Option<&str>) -> Option<Seq<char>> {
    match o {
        Some(s) => Some(s@),
        None => None,
    }
}

pub open spec fn opt_view(o: Option<String>) -> Option<Seq<char>> {
    match o {
        Some(s) => Some(s@),
        None => None,
    }
}

/// The path of the config file, given `XDG_CONFIG_HOME` and `HOME`.
pub fn config_path_from_env(xdg_config_home: Option<&str>, home: Option<&str>) -> (r: Result<String>)
    ensures
        match config_path_spec(opt_str_view(xdg_config_home), opt_str_view(home)) {
            Some(p) => r matches Ok(path) && path@ == p,
            None => r matches Err(QuickcommandError::Io(m)) && m@
                == "Could not determine the config directory."@,
        },
{
    proof {
        reveal_strlit("quickcommand");
        reveal_strlit("config.toml");
        reveal_strlit(".config");
    }
    match xdg_config_home {
        Some(xdg) => {
            let dir = join_path(xdg, "quickcommand");
            Ok(join_path(dir.as_str(), "config.toml"))
        },
        None => match home {
            Some(h) => {
                let config = join_path(h, ".config");
                let dir = join_path(config.as_str(), "quickcommand");
                Ok(join_path(dir.as_str(), "config.toml"))
            },
            None => Err(
                QuickcommandError::Io(String::from_str("Could not determine the config directory.")),
            ),
        },
    }
}

/// The first of the options that is `Some`.
pub open spec fn or_else<T>(a: Option<T>, b: Option<T>) -> Option<T> {
    match a {
        Some(x) => Some(x),
        None => b,
    }
}

pub open spec fn unwrap_or<T>(a: Option<T>, d: T) -> T {
    match a {
        Some(x) => x,
        None => d,
    }
}

pub open spec fn file_field<T>(file: Option<FileConfig>, f: spec_fn(FileConfig) -> Option<T>) -> Option<T> {
    match file {
        Some(cfg) => f(cfg),
        None => None,
    }
}

/// The configuration in force: for the mode the command line, then the
/// environment, then the file, then `copy`; for the provider, host and model
/// the environment, then the file, then `ollama`, the default host and the
/// default model.
pub open spec fn resolved(
    file: Option<FileConfig>,
    env: EnvConfig,
    cli: CliOverrides,
    default_model: Seq<char>,
) -> (Provider, Mode, Seq<char>, Seq<char>) {
    (
        unwrap_or(or_else(env.provider, file_field(file, |c: FileConfig| c.provider)), Provider::Ollama),
        unwrap_or(
            or_else(cli.mode, or_else(env.mode, file_field(file, |c: FileConfig| c.mode))),
            Mode::Copy,
        ),
        unwrap_or(
            or_else(opt_view(env.ollama_host), file_field(file, |c: FileConfig| opt_view(c.ollama_host))),
            DEFAULT_OLLAMA_HOST@,
        ),
        unwrap_or(
            or_else(
                opt_view(env.ollama_model),
                file_field(file, |c: FileConfig| opt_view(c.ollama_model)),
            ),
            default_model,
        ),
    )
}

pub open spec fn opt_ref<T>(o: Option<&T>) -> Option<T> {
    match o {
        Some(x) => Some(*x),
        None => None,
    }
}

fn clone_opt(o: &Option<String>) -> (r: Option<String>)
    ensures
        opt_view(r) == opt_view(*o),
{
    match o {
        Some(s) => Some(s.clone()),
        None => None,
    }
}

/// Combines the file, the environment and the command line into the configuration in force.
pub fn resolve_config(
    file: Option<&FileConfig>,
    env: &EnvConfig,
    cli: &CliOverrides,
    default_model: &str,
) -> (r: ResolvedConfig)
    ensures
        (r.provider, r.mode, r.ollama_host@, r.ollama_model@) == resolved(
            opt_ref(file),
            *env,
            *cli,
            default_model@,
        ),
{
    let provider = match env.provider {
        Some(p) => p,
        None => match file {
            Some(cfg) => match cfg.provider {
                Some(p) => p,
                None => Provider::Ollama,
            },
            None => Provider::Ollama,
        },
    };
    let mode = match cli.mode {
        Some(m) => m,
        None => match env.mode {
            Some(m) => m,
            None => match file {
                Some(cfg) => match cfg.mode {
                    Some(m) => m,
                    None => Mode::Copy,
                },
                None => Mode::Copy,
            },
        },
    };
    let ollama_host = match &env.ollama_host {
        Some(h) => h.clone(),
        None => match file {
            Some(cfg) => match &cfg.ollama_host {
                Some(h) => h.clone(),
                None => String::from_str(DEFAULT_OLLAMA_HOST),
            },
            None => String::from_str(DEFAULT_OLLAMA_HOST),
        },
    };
    let ollama_model = match &env.ollama_model {
        Some(m) => m.clone(),
        None => match file {
            Some(cfg) => match &cfg.ollama_model {
                Some(m) => m.clone(),
                None => String::from_str(default_model),
            },
            None => String::from_str(default_model),
        },
    };
    ResolvedConfig { provider, mode, ollama_host, ollama_model }
}

/// The configuration that the environment gives: `QC_PROVIDER`, `QC_MODE`,
/// `QC_OLLAMA_HOST` (else `OLLAMA_HOST`) and `QC_OLLAMA_MODEL`. A provider
/// other than `ollama` is an error; a mode that is not `copy` or `execute` is
/// ignored.
pub fn env_config_from_values(
    qc_provider: Option<&str>,
    qc_mode: Option<&str>,
    qc_ollama_host: Option<&str>,
    ollama_host: Option<&str>,
    qc_ollama_model: Option<&str>,
) -> (r: Result<EnvConfig>)
    ensures
        match qc_provider {
            Some(p) if provider_named(p@) is None => r matches Err(
                QuickcommandError::UnsupportedProvider(name),
            ) && name@ == p@,
            _ => r matches Ok(cfg) && cfg.provider == match qc_provider {
                Some(p) => provider_named(p@),
                None => None,
            } && cfg.mode == match qc_mode {
                Some(m) => mode_named(m@),
                None => None,
            } && opt_view(cfg.ollama_host) == or_else(
                opt_str_view(qc_ollama_host),
                opt_str_view(ollama_host),
            ) && opt_view(cfg.ollama_model) == opt_str_view(qc_ollama_model),
        },
{
    let provider = match qc_provider {
        Some(p) => Some(Provider::parse(p)?),
        None => None,
    };
    let mode = match qc_mode {
        Some(m) => Mode::parse(m),
        None => None,
    };
    let host = match qc_ollama_host {
        Some(h) => Some(String::from_str(h)),
        None => match ollama_host {
            Some(h) => Some(String::from_str(h)),
            None => None,
        },
    };
    let model = match qc_ollama_model {
        Some(m) => Some(String::from_str(m)),
        None => None,
    };
    Ok(EnvConfig { provider, mode, ollama_host: host, ollama_model: model })
}

// ---------------------------------------------------------------------------
// `ollama list`
// ---------------------------------------------------------------------------

/// Lines after leading blank ones.
pub open spec fn drop_blank_prefix(ls: Seq<Seq<char>>) -> Seq<Seq<char>>
    decreases ls.len(),
{
    if ls.len() > 0 && trim(ls[0]).len() == 0 {
        drop_blank_prefix(ls.drop_first())
    } else {
        ls
    }
}

/// The first word of each line that does not start with `NAME` (after leading whitespace).
pub open spec fn first_words(ls: Seq<Seq<char>>) -> Seq<Seq<char>>
    decreases ls.len(),
{
    if ls.len() == 0 {
        seq![]
    } else {
        let rest = first_words(ls.drop_first());
        if starts_with(trim_start(ls[0]), "NAME"@) {
            rest
        } else {
            match first_word(ls[0]) {
                Some(w) => seq![w] + rest,
                None => rest,
            }
        }
    }
}

/// The model names in the output of `ollama list`: the first column of each
/// line, skipping leading blank lines and the `NAME` header.
pub open spec fn ollama_list_names(output: Seq<char>) -> Seq<Seq<char>> {
    first_words(drop_blank_prefix(lines(output)))
}

/// The model names in the output of `ollama list`.
pub fn parse_ollama_list(output: &str) -> (r: Vec<String>)
    ensures
        views(r@) == ollama_list_names(output@),
{
    let all = lines_exec(&chars_of(output));
    let ghost ls = char_views(all@);
    let name = chars_of("NAME");
    let mut k: usize = 0;
    assert(ls.skip(0) =~= ls);
    while k < all.len() && is_blank(&all[k])
        invariant
            ls == char_views(all@),
            k <= all@.len(),
            drop_blank_prefix(ls) == drop_blank_prefix(ls.skip(k as int)),
        decreases all@.len() - k,
    {
        assert(ls.skip(k as int).drop_first() =~= ls.skip(k + 1));
        k = k + 1;
    }
    assert(drop_blank_prefix(ls.skip(k as int)) == ls.skip(k as int));
    let ghost kept = ls.skip(k as int);
    let mut r: Vec<String> = Vec::new();
    let mut i = k;
    assert(kept.skip(0) =~= kept);
    while i < all.len()
        invariant
            ls == char_views(all@),
            name@ == "NAME"@,
            k <= i <= all@.len(),
            kept == ls.skip(k as int),
            first_words(kept) == views(r@) + first_words(ls.skip(i as int)),
        decreases all@.len() - i,
    {
        let line = &all[i];
        let ghost l = ls[i as int];
        assert(ls.skip(i as int).drop_first() =~= ls.skip(i + 1));
        assert(ls.skip(i as int)[0] == l);
        let ws = trim_start_len(line);
        let mut header = false;
        let llen = line.len();
        if name.len() <= llen - ws {
            let mut j: usize = 0;
            let mut same = true;
            while j < name.len()
                invariant
                    name@ == "NAME"@,
                    llen == line@.len(),
                    ws + name@.len() <= line@.len(),
                    j <= name@.len(),
                    same == (forall|t: int| 0 <= t < j ==> line@[ws + t] == name@[t]),
                decreases name@.len() - j,
            {
                if line[ws + j] != name[j] {
                    same = false;
                }
                j = j + 1;
            }
            header = same;
        }
        proof {
            let t = line@.skip(ws as int);
            let n = name@.len() as int;
            if header {
                assert(t.take(n) =~= name@);
            } else if name@.len() <= t.len() {
                if t.take(n) == name@ {
                    assert forall|u: int| 0 <= u < n implies line@[ws + u] == name@[u] by {
                        assert(t.take(n)[u] == line@[ws + u]);
                    }
                }
            }
            assert(header == starts_with(trim_start(l), "NAME"@));
        }
        let ghost before = views(r@);
        if !header {
            match first_word_exec(line) {
                Some((a, b)) => {
                    let mut w = String::new();
                    push_chars(&mut w, line, a, b);
                    r.push(w);
                    assert(views(r@) =~= before.push(l.subrange(a as int, b as int)));
                },
                None => {},
            }
        }
        i = i + 1;
    }
    assert(ls.skip(all@.len() as int) =~= Seq::<Seq<char>>::empty());
    r
}

/// The model that `init` and the configuration pick by default: the
/// preferred model where it is installed, else the first installed model.
pub open spec fn default_model_pick(models: Seq<Seq<char>>) -> Option<Seq<char>> {
    if models.len() == 0 {
        None
    } else if models.contains(PREFERRED_OLLAMA_MODEL@) {
        Some(PREFERRED_OLLAMA_MODEL@)
    } else {
        Some(models[0])
    }
}

/// The preferred model where it is in the list, else the first one; `None` for an empty list.
pub fn pick_default_model(models: &[String]) -> (r: Option<String>)
    ensures
        match default_model_pick(views(models@)) {
            Some(m) => r matches Some(s) && s@ == m,
            None => r is None,
        },
{
    if models.len() == 0 {
        return None;
    }
    let mut i: usize = 0;
    while i < models.len()
        invariant
            i <= models@.len(),
            forall|j: int| 0 <= j < i ==> models@[j]@ != PREFERRED_OLLAMA_MODEL@,
        decreases models@.len() - i,
    {
        if str_eq(models[i].as_str(), PREFERRED_OLLAMA_MODEL) {
            assert(views(models@)[i as int] == PREFERRED_OLLAMA_MODEL@);
            return Some(models[i].clone());
        }
        i = i + 1;
    }
    assert(!views(models@).contains(PREFERRED_OLLAMA_MODEL@));
    Some(models[0].clone())
}

/// The default model, given the output of a successful `ollama list`
/// (`None` where it could not be run or failed): the pick among the listed
/// models, else the preferred model.
pub fn default_model_from_list(ollama_list_output: Option<&str>) -> (r: String)
    ensures
        r@ == match ollama_list_output {
            Some(out) => unwrap_or(
                default_model_pick(ollama_list_names(out@)),
                PREFERRED_OLLAMA_MODEL@,
            ),
            None => PREFERRED_OLLAMA_MODEL@,
        },
{
    match ollama_list_output {
        Some(out) => {
            let models = parse_ollama_list(out);
            match pick_default_model(models.as_slice()) {
                Some(m) => m,
                None => String::from_str(PREFERRED_OLLAMA_MODEL),
            }
        },
        None => String::from_str(PREFERRED_OLLAMA_MODEL),
    }
}

/// The installed models, given the output of a successful `ollama list`
/// (`None` where it could not be run or failed, which gives the preferred model alone).
pub fn installed_models_from_list(ollama_list_output: Option<&str>) -> (r: Vec<String>)
    ensures
        views(r@) == match ollama_list_output {
            Some(out) => ollama_list_names(out@),
            None => seq![PREFERRED_OLLAMA_MODEL@],
        },
{
    match ollama_list_output {
        Some(out) => parse_ollama_list(out),
        None => {
            let mut v: Vec<String> = Vec::new();
            v.push(String::from_str(PREFERRED_OLLAMA_MODEL));
            assert(views(v@) =~= seq![PREFERRED_OLLAMA_MODEL@]);
            v
        },
    }
}

/// The mode in force: the command line's where it gives one; else the
/// environment's, whatever the file says; else the file's; else `copy`.
pub proof fn lemma_mode_precedence(
    file: Option<FileConfig>,
    env: EnvConfig,
    cli: CliOverrides,
    default_model: Seq<char>,
)
    ensures
        cli.mode is Some ==> resolved(file, env, cli, default_model).1 == cli.mode->Some_0,
        cli.mode is None && env.mode is Some ==> resolved(file, env, cli, default_model).1
            == env.mode->Some_0,
        cli.mode is None && env.mode is None && file is Some && file->Some_0.mode is Some
            ==> resolved(file, env, cli, default_model).1 == file->Some_0.mode->Some_0,
        cli.mode is None && env.mode is None && (file is None || file->Some_0.mode is None)
            ==> resolved(file, env, cli, default_model).1 == Mode::Copy,
{
}

/// The model in force: the environment's where it gives one; else the
/// file's, whatever the default model is; else the default model.
pub proof fn lemma_model_precedence(
    file: Option<FileConfig>,
    env: EnvConfig,
    cli: CliOverrides,
    default_model: Seq<char>,
)
    ensures
        env.ollama_model is Some ==> resolved(file, env, cli, default_model).3
            == env.ollama_model->Some_0@,
        env.ollama_model is None && file is Some && file->Some_0.ollama_model is Some
            ==> resolved(file, env, cli, default_model).3 == file->Some_0.ollama_model->Some_0@,
        env.ollama_model is None && (file is None || file->Some_0.ollama_model is None)
            ==> resolved(file, env, cli, default_model).3 == default_model,
{
}

/// The host in force: the environment's where it gives one; else the
/// file's; else the default host.
pub proof fn lemma_host_precedence(
    file: Option<FileConfig>,
    env: EnvConfig,
    cli: CliOverrides,
    default_model: Seq<char>,
)
    ensures
        env.ollama_host is Some ==> resolved(file, env, cli, default_model).2
            == env.ollama_host->Some_0@,
        env.ollama_host is None && file is Some && file->Some_0.ollama_host is Some
            ==> resolved(file, env, cli, default_model).2 == file->Some_0.ollama_host->Some_0@,
        env.ollama_host is None && (file is None || file->Some_0.ollama_host is None)
            ==> resolved(file, env, cli, default_model).2 == DEFAULT_OLLAMA_HOST@,
{
}

/// The provider in force: the environment's where it gives one; else the
/// file's; else `ollama`. The command line never sets the provider, the
/// host or the model.
pub proof fn lemma_provider_precedence(
    file: Option<FileConfig>,
    env: EnvConfig,
    cli: CliOverrides,
    default_model: Seq<char>,
)
    ensures
        env.provider is Some ==> resolved(file, env, cli, default_model).0 == env.provider->Some_0,
        env.provider is None && file is Some && file->Some_0.provider is Some
            ==> resolved(file, env, cli, default_model).0 == file->Some_0.provider->Some_0,
        env.provider is None && (file is None || file->Some_0.provider is None)
            ==> resolved(file, env, cli, default_model).0 == Provider::Ollama,
        forall|other: CliOverrides|
            #![trigger resolved(file, env, other, default_model)]
            resolved(file, env, other, default_model).0 == resolved(file, env, cli, default_model).0
                && resolved(file, env, other, default_model).2 == resolved(
                file,
                env,
                cli,
                default_model,
            ).2 && resolved(file, env, other, default_model).3 == resolved(
                file,
                env,
                cli,
                default_model,
            ).3,
{
}

} // verus!
