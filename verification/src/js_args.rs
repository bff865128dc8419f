//! The arguments of the commands whose work is done on the JavaScript side
//! (`vp config`, `vp hooks`): what a parse turns into, and how a parse error
//! is reported.
use vstd::prelude::*;

use crate::pm::{pm_name, strs, PackageManagerType};
use crate::text::{chars_to_string, parse_usize, parse_usize_spec, str_chars, str_eq, trim_end};

verus! {

/// A parse error as the JavaScript side receives it: a kind name and the
/// message.
#[derive(Debug, Clone)]
pub struct CliParseError {
    pub kind: String,
    pub message: String,
}

/// The kinds of argument errors that are told apart.
#[derive(Debug, Clone, Copy, PartialEq, Eq)]
pub enum CliErrorKind {
    InvalidValue,
    NoEquals,
    ValueValidation,
    TooManyValues,
    TooFewValues,
    WrongNumberOfValues,
    UnknownArgument,
    InvalidSubcommand,
    ArgumentConflict,
    MissingRequiredArgument,
    MissingSubcommand,
    Other,
}

pub open spec fn kind_name(k: CliErrorKind) -> Seq<char> {
    match k {
        CliErrorKind::InvalidValue | CliErrorKind::NoEquals | CliErrorKind::ValueValidation
        | CliErrorKind::TooManyValues | CliErrorKind::TooFewValues
        | CliErrorKind::WrongNumberOfValues => "invalid-value"@,
        CliErrorKind::UnknownArgument | CliErrorKind::InvalidSubcommand => "unknown-argument"@,
        CliErrorKind::ArgumentConflict => "argument-conflict"@,
        CliErrorKind::MissingRequiredArgument | CliErrorKind::MissingSubcommand => "missing-argument"@,
        CliErrorKind::Other => "invalid-arguments"@,
    }
}

pub fn error_kind_name(kind: CliErrorKind) -> (res: &'static str)
    ensures
        res@ == kind_name(kind),
{
    match kind {
        CliErrorKind::InvalidValue | CliErrorKind::NoEquals | CliErrorKind::ValueValidation
        | CliErrorKind::TooManyValues | CliErrorKind::TooFewValues
        | CliErrorKind::WrongNumberOfValues => "invalid-value",
        CliErrorKind::UnknownArgument | CliErrorKind::InvalidSubcommand => "unknown-argument",
        CliErrorKind::ArgumentConflict => "argument-conflict",
        CliErrorKind::MissingRequiredArgument | CliErrorKind::MissingSubcommand => "missing-argument",
        CliErrorKind::Other => "invalid-arguments",
    }
}

fn trim_end_chars(s: &[char]) -> (res: Vec<char>)
    ensures
        res@ == trim_end(s@),
{
    let mut end: usize = s.len();
    proof {
        assert(s@.take(s@.len() as int) =~= s@);
    }
    while end > 0 && crate::text::is_whitespace(s[end - 1])
        invariant
            end <= s@.len(),
            trim_end(s@.take(end as int)) == trim_end(s@),
        decreases end,
    {
        proof {
            assert(s@.take(end as int).drop_last() =~= s@.take(end - 1));
        }
        end -= 1;
    }
    proof {
        assert(s@.take(end as int) =~= s@.subrange(0, end as int));
    }
    crate::text::sub_chars(s, 0, end)
}

/// The error reported for a failed parse: its kind's name and the message
/// without trailing whitespace.
pub fn parse_error(kind: CliErrorKind, message: &str) -> (res: CliParseError)
    ensures
        res.kind@ == kind_name(kind),
        res.message@ == trim_end(message@),
{
    let m = trim_end_chars(str_chars(message).as_slice());
    CliParseError { kind: String::from_str(error_kind_name(kind)), message: chars_to_string(m.as_slice()) }
}

/// What a parse gives: the arguments, a help request, or an error.
pub enum ParseResult<T> {
    Args(T),
    Help,
    Error(CliParseError),
}

/// An option given by a `--x`/`--no-x` pair: off wins, then on, else unset.
pub open spec fn boolean_spec(enabled: bool, disabled: bool) -> Option<bool> {
    if disabled {
        Some(false)
    } else if enabled {
        Some(true)
    } else {
        None
    }
}

pub fn boolean_option(enabled: bool, disabled: bool) -> (res: Option<bool>)
    ensures
        res == boolean_spec(enabled, disabled),
{
    if disabled {
        Some(false)
    } else if enabled {
        Some(true)
    } else {
        None
    }
}

/// The agent option: turned off, one agent, or several.
#[derive(Debug, Clone)]
pub enum AgentOption {
    Off,
    One(String),
    Many(Vec<String>),
}

/// `--no-agent` wins; one `--agent` value is a single agent; several are a
/// list; none leaves it unset.
pub fn agent_option(agent: Vec<String>, no_agent: bool) -> (res: Option<AgentOption>)
    ensures
        no_agent ==> res == Some(AgentOption::Off),
        !no_agent && agent@.len() == 1 ==> (res matches Some(AgentOption::One(a)) && a == agent@[0]),
        !no_agent && agent@.len() == 0 ==> res is None,
        !no_agent && agent@.len() > 1 ==> res == Some(AgentOption::Many(agent)),
{
    if no_agent {
        Some(AgentOption::Off)
    } else if agent.len() == 1 {
        Some(AgentOption::One(agent[0].clone()))
    } else if agent.len() == 0 {
        None
    } else {
        Some(AgentOption::Many(agent))
    }
}

/// The editor option: turned off, or a name.
#[derive(Debug, Clone)]
pub enum EditorOption {
    Off,
    Name(String),
}

/// `--no-editor` wins; otherwise the last `--editor` value, if any.
pub fn editor_option(editor: Vec<String>, no_editor: bool) -> (res: Option<EditorOption>)
    ensures
        no_editor ==> res == Some(EditorOption::Off),
        !no_editor && editor@.len() == 0 ==> res is None,
        !no_editor && editor@.len() > 0 ==> (res matches Some(EditorOption::Name(e)) && e
            == editor@.last()),
{
    if no_editor {
        Some(EditorOption::Off)
    } else if editor.len() == 0 {
        None
    } else {
        Some(EditorOption::Name(editor[editor.len() - 1].clone()))
    }
}

/// The options of `vp config`.
#[derive(Debug, Clone)]
pub struct ConfigArgs {
    pub hooks_dir: Option<String>,
    pub hooks: Option<bool>,
    pub agent: Option<bool>,
}

/// The flags of `vp config` as given (the last of `--hooks`/`--no-hooks`,
/// and of `--agent`/`--no-agent`, is the one set).
#[derive(Debug, Clone)]
pub struct ConfigFlags {
    pub hooks_dir: Option<String>,
    pub hooks: bool,
    pub no_hooks: bool,
    pub agent: bool,
    pub no_agent: bool,
}

pub fn config_args(flags: ConfigFlags) -> (res: ConfigArgs)
    ensures
        res.hooks_dir == flags.hooks_dir,
        res.hooks == boolean_spec(flags.hooks, flags.no_hooks),
        res.agent == boolean_spec(flags.agent, flags.no_agent),
{
    ConfigArgs {
        hooks_dir: flags.hooks_dir,
        hooks: boolean_option(flags.hooks, flags.no_hooks),
        agent: boolean_option(flags.agent, flags.no_agent),
    }
}

/// What `vp config`'s argument parse hands back.
#[derive(Debug, Clone)]
pub enum ParseConfigArgsOutcome {
    Parsed { value: ConfigArgs },
    Exit { code: u32 },
    Error { error: CliParseError },
}

/// The outcome of `vp config`'s parse: the options, an exit after help
/// (status 0), or the error.
pub fn config_outcome(parsed: ParseResult<ConfigFlags>) -> (res: ParseConfigArgsOutcome)
    ensures
        match parsed {
            ParseResult::Args(f) => res matches ParseConfigArgsOutcome::Parsed { value } && value.hooks_dir
                == f.hooks_dir && value.hooks == boolean_spec(f.hooks, f.no_hooks) && value.agent
                == boolean_spec(f.agent, f.no_agent),
            ParseResult::Help => res == ParseConfigArgsOutcome::Exit { code: 0 },
            ParseResult::Error(e) => res == ParseConfigArgsOutcome::Error { error: e },
        },
{
    match parsed {
        ParseResult::Args(f) => ParseConfigArgsOutcome::Parsed { value: config_args(f) },
        ParseResult::Help => ParseConfigArgsOutcome::Exit { code: 0 },
        ParseResult::Error(error) => ParseConfigArgsOutcome::Error { error },
    }
}

/// The subcommands of `vp hooks`.
#[derive(Debug, Clone, Copy, PartialEq, Eq)]
pub enum HooksCommand {
    Enable,
    Disable,
    Status,
}

pub open spec fn hooks_command_name(c: HooksCommand) -> Seq<char> {
    match c {
        HooksCommand::Enable => "enable"@,
        HooksCommand::Disable => "disable"@,
        HooksCommand::Status => "status"@,
    }
}

/// The arguments of `vp hooks`: the subcommand's name and the hooks
/// directory.
#[derive(Debug, Clone)]
pub struct HooksArgs {
    pub command: String,
    pub hooks_dir: Option<String>,
}

pub fn hooks_args(command: HooksCommand, hooks_dir: Option<String>) -> (res: HooksArgs)
    ensures
        res.command@ == hooks_command_name(command),
        res.hooks_dir == hooks_dir,
{
    let name = match command {
        HooksCommand::Enable => "enable",
        HooksCommand::Disable => "disable",
        HooksCommand::Status => "status",
    };
    HooksArgs { command: String::from_str(name), hooks_dir }
}

/// What `vp hooks`'s argument parse hands back.
#[derive(Debug, Clone)]
pub enum ParseHooksArgsOutcome {
    Parsed { value: HooksArgs },
    Exit { code: u32 },
    Error { error: CliParseError },
}

pub fn hooks_outcome(parsed: ParseResult<(HooksCommand, Option<String>)>) -> (res: ParseHooksArgsOutcome)
    ensures
        match parsed {
            ParseResult::Args((c, d)) => res matches ParseHooksArgsOutcome::Parsed { value }
                && value.command@ == hooks_command_name(c) && value.hooks_dir == d,
            ParseResult::Help => res == ParseHooksArgsOutcome::Exit { code: 0 },
            ParseResult::Error(e) => res == ParseHooksArgsOutcome::Error { error: e },
        },
{
    match parsed {
        ParseResult::Args((c, d)) => ParseHooksArgsOutcome::Parsed { value: hooks_args(c, d) },
        ParseResult::Help => ParseHooksArgsOutcome::Exit { code: 0 },
        ParseResult::Error(error) => ParseHooksArgsOutcome::Error { error },
    }
}

// ---------------------------------------------------------------------------
// `vp staged`
// ---------------------------------------------------------------------------

/// The `--concurrent` value: on, off, or at most this many tasks at once
/// (never 0).
#[derive(Debug, Clone, Copy, PartialEq, Eq)]
pub enum Concurrent {
    Enabled,
    Disabled,
    Limit(u32),
}

/// `true`, `false`, or an integer from 1 through `u32::MAX` (an optional
/// `+` and decimal digits).
pub open spec fn concurrent_spec(s: Seq<char>) -> Option<Concurrent> {
    if s == "true"@ {
        Some(Concurrent::Enabled)
    } else if s == "false"@ {
        Some(Concurrent::Disabled)
    } else if let Ok(n) = parse_usize_spec(s) {
        if 1 <= n <= u32::MAX {
            Some(Concurrent::Limit(n as u32))
        } else {
            None
        }
    } else {
        None
    }
}

/// Reads a `--concurrent` value; the error names the accepted values.
pub fn parse_concurrent(value: &str) -> (res: Result<Concurrent, &'static str>)
    ensures
        match concurrent_spec(value@) {
            Some(c) => res == Ok::<Concurrent, &'static str>(c),
            None => res matches Err(e) && e@
                == "use true, false, or an integer from 1 through 4294967295"@,
        },
{
    if str_eq(value, "true") {
        return Ok(Concurrent::Enabled);
    }
    if str_eq(value, "false") {
        return Ok(Concurrent::Disabled);
    }
    proof {
        reveal_strlit("true");
        reveal_strlit("false");
    }
    let chars = str_chars(value);
    match parse_usize(chars.as_slice()) {
        Ok(n) => {
            if 1 <= n && n <= 4294967295 {
                return Ok(Concurrent::Limit(n as u32));
            }
        },
        Err(_) => {},
    }
    Err("use true, false, or an integer from 1 through 4294967295")
}

/// The `concurrent` value handed to JavaScript: a boolean or a task limit.
#[derive(Debug, Clone, Copy, PartialEq, Eq)]
pub enum ConcurrentValue {
    Flag(bool),
    Limit(u32),
}

/// `--no-concurrent` wins (off); otherwise the given value, if any.
pub open spec fn concurrent_value_spec(c: Option<Concurrent>, no_concurrent: bool) -> Option<
    ConcurrentValue,
> {
    if no_concurrent {
        Some(ConcurrentValue::Flag(false))
    } else {
        match c {
            None => None,
            Some(Concurrent::Enabled) => Some(ConcurrentValue::Flag(true)),
            Some(Concurrent::Disabled) => Some(ConcurrentValue::Flag(false)),
            Some(Concurrent::Limit(n)) => Some(ConcurrentValue::Limit(n)),
        }
    }
}

/// A flag that is only ever passed on: `Some(true)` when given, else unset.
pub open spec fn given(b: bool) -> Option<bool> {
    if b {
        Some(true)
    } else {
        None
    }
}

fn given_exec(b: bool) -> (res: Option<bool>)
    ensures
        res == given(b),
{
    if b {
        Some(true)
    } else {
        None
    }
}

/// The flags of `vp staged` as given (of `--concurrent`/`--no-concurrent`,
/// the last one given is the one set).
#[derive(Debug, Clone)]
pub struct StagedFlags {
    pub allow_empty: bool,
    pub concurrent: Option<Concurrent>,
    pub no_concurrent: bool,
    pub continue_on_error: bool,
    pub cwd: Option<String>,
    pub debug: bool,
    pub diff: Option<String>,
    pub diff_filter: Option<String>,
    pub fail_on_changes: bool,
    pub hide_partially_staged: bool,
    pub hide_unstaged: bool,
    pub no_stash: bool,
    pub quiet: bool,
    pub relative: bool,
    pub revert: bool,
    pub verbose: bool,
}

/// The options of `vp staged` as JavaScript receives them.
#[derive(Debug, Clone)]
pub struct StagedArgs {
    pub allow_empty: Option<bool>,
    pub concurrent: Option<ConcurrentValue>,
    pub continue_on_error: Option<bool>,
    pub cwd: Option<String>,
    pub debug: Option<bool>,
    pub diff: Option<String>,
    pub diff_filter: Option<String>,
    pub fail_on_changes: Option<bool>,
    pub hide_partially_staged: Option<bool>,
    pub hide_unstaged: Option<bool>,
    pub quiet: Option<bool>,
    pub relative: Option<bool>,
    pub revert: Option<bool>,
    pub stash: Option<bool>,
    pub verbose: Option<bool>,
}

pub open spec fn staged_spec(f: StagedFlags) -> StagedArgs {
    StagedArgs {
        allow_empty: given(f.allow_empty),
        concurrent: concurrent_value_spec(f.concurrent, f.no_concurrent),
        continue_on_error: given(f.continue_on_error),
        cwd: f.cwd,
        debug: given(f.debug),
        diff: f.diff,
        diff_filter: f.diff_filter,
        fail_on_changes: given(f.fail_on_changes),
        hide_partially_staged: given(f.hide_partially_staged),
        hide_unstaged: given(f.hide_unstaged),
        quiet: given(f.quiet),
        relative: given(f.relative),
        revert: given(f.revert),
        stash: if f.no_stash {
            Some(false)
        } else {
            None
        },
        verbose: given(f.verbose),
    }
}

pub fn staged_args(flags: StagedFlags) -> (res: StagedArgs)
    ensures
        res == staged_spec(flags),
{
    let concurrent = if flags.no_concurrent {
        Some(ConcurrentValue::Flag(false))
    } else {
        match flags.concurrent {
            None => None,
            Some(Concurrent::Enabled) => Some(ConcurrentValue::Flag(true)),
            Some(Concurrent::Disabled) => Some(ConcurrentValue::Flag(false)),
            Some(Concurrent::Limit(n)) => Some(ConcurrentValue::Limit(n)),
        }
    };
    StagedArgs {
        allow_empty: given_exec(flags.allow_empty),
        concurrent,
        continue_on_error: given_exec(flags.continue_on_error),
        cwd: flags.cwd,
        debug: given_exec(flags.debug),
        diff: flags.diff,
        diff_filter: flags.diff_filter,
        fail_on_changes: given_exec(flags.fail_on_changes),
        hide_partially_staged: given_exec(flags.hide_partially_staged),
        hide_unstaged: given_exec(flags.hide_unstaged),
        quiet: given_exec(flags.quiet),
        relative: given_exec(flags.relative),
        revert: given_exec(flags.revert),
        stash: if flags.no_stash {
            Some(false)
        } else {
            None
        },
        verbose: given_exec(flags.verbose),
    }
}

/// What `vp staged`'s argument parse hands back.
#[derive(Debug, Clone)]
pub enum ParseStagedArgsOutcome {
    Parsed { value: StagedArgs },
    Exit { code: u32 },
    Error { error: CliParseError },
}

pub fn staged_outcome(parsed: ParseResult<StagedFlags>) -> (res: ParseStagedArgsOutcome)
    ensures
        match parsed {
            ParseResult::Args(f) => res == ParseStagedArgsOutcome::Parsed { value: staged_spec(f) },
            ParseResult::Help => res == ParseStagedArgsOutcome::Exit { code: 0 },
            ParseResult::Error(e) => res == ParseStagedArgsOutcome::Error { error: e },
        },
{
    match parsed {
        ParseResult::Args(f) => ParseStagedArgsOutcome::Parsed { value: staged_args(f) },
        ParseResult::Help => ParseStagedArgsOutcome::Exit { code: 0 },
        ParseResult::Error(error) => ParseStagedArgsOutcome::Error { error },
    }
}

// ---------------------------------------------------------------------------
// `vp create` and `vp migrate`
// ---------------------------------------------------------------------------

/// Reads a `--package-manager` value: one of the supported managers' names.
pub fn parse_package_manager_value(value: &str) -> (res: Result<PackageManagerType, &'static str>)
    ensures
        match res {
            Ok(t) => pm_name(t) == value@,
            Err(e) => (forall|t: PackageManagerType| pm_name(t) != value@) && e@
                == "use pnpm, npm, yarn, or bun"@,
        },
{
    match PackageManagerType::from_name(value) {
        Some(t) => Ok(t),
        None => Err("use pnpm, npm, yarn, or bun"),
    }
}

/// The flags of `vp create` as given (of each `--x`/`--no-x` pair, the last
/// one given is the one set; `--no-agent`/`--no-editor` given last clear the
/// values before them).
#[derive(Debug, Clone)]
pub struct CreateFlags {
    pub template: Option<String>,
    pub directory: Option<String>,
    pub agent: Vec<String>,
    pub no_agent: bool,
    pub editor: Vec<String>,
    pub no_editor: bool,
    pub git: bool,
    pub no_git: bool,
    pub hooks: bool,
    pub no_hooks: bool,
    pub package_manager: Option<PackageManagerType>,
    pub approve_builds: bool,
    pub verbose: bool,
    pub interactive: bool,
    pub no_interactive: bool,
    pub list: bool,
    pub template_args: Vec<String>,
}

/// The options of `vp create` as JavaScript receives them.
#[derive(Debug, Clone)]
pub struct CreateArgs {
    pub template_name: Option<String>,
    pub directory: Option<String>,
    pub agent: Option<AgentOption>,
    pub editor: Option<EditorOption>,
    pub git: Option<bool>,
    pub hooks: Option<bool>,
    pub package_manager: Option<String>,
    pub approve_builds: Option<bool>,
    pub verbose: Option<bool>,
    pub interactive: Option<bool>,
    pub list: Option<bool>,
    pub template_args: Vec<String>,
}

/// The agent option as a model: off, one name, or several.
pub open spec fn agent_model(agent: Seq<String>, no_agent: bool) -> Option<(bool, Seq<Seq<char>>)> {
    if no_agent {
        Some((false, seq![]))
    } else if agent.len() == 0 {
        None
    } else {
        Some((true, strs(agent)))
    }
}

pub open spec fn agent_view(a: Option<AgentOption>) -> Option<(bool, Seq<Seq<char>>)> {
    match a {
        None => None,
        Some(AgentOption::Off) => Some((false, seq![])),
        Some(AgentOption::One(s)) => Some((true, seq![s@])),
        Some(AgentOption::Many(v)) => Some((true, strs(v@))),
    }
}

/// `res` is what `vp create` hands JavaScript for `flags`: each `--x`/`--no-x`
/// pair read as `boolean_spec`, the agent and editor options as
/// `agent_option`/`editor_option` read them, the package manager by name.
pub open spec fn create_matches(flags: CreateFlags, res: CreateArgs) -> bool {
    &&& res.template_name == flags.template
    &&& res.directory == flags.directory
    &&& agent_view(res.agent) == agent_model(flags.agent@, flags.no_agent)
    &&& (flags.agent@.len() == 1 && !flags.no_agent ==> res.agent matches Some(AgentOption::One(_)))
    &&& (flags.agent@.len() > 1 && !flags.no_agent ==> res.agent matches Some(AgentOption::Many(_)))
    &&& editor_matches(flags.editor@, flags.no_editor, res.editor)
    &&& res.git == boolean_spec(flags.git, flags.no_git)
    &&& res.hooks == boolean_spec(flags.hooks, flags.no_hooks)
    &&& match flags.package_manager {
        None => res.package_manager is None,
        Some(t) => res.package_manager matches Some(n) && n@ == pm_name(t),
    }
    &&& res.approve_builds == given(flags.approve_builds)
    &&& res.verbose == given(flags.verbose)
    &&& res.interactive == boolean_spec(flags.interactive, flags.no_interactive)
    &&& res.list == given(flags.list)
    &&& res.template_args == flags.template_args
}

/// The editor option read from the `--editor` values and `--no-editor`.
pub open spec fn editor_matches(editor: Seq<String>, no_editor: bool, res: Option<EditorOption>) -> bool {
    match res {
        None => !no_editor && editor.len() == 0,
        Some(EditorOption::Off) => no_editor,
        Some(EditorOption::Name(e)) => !no_editor && editor.len() > 0 && e == editor.last(),
    }
}

pub fn create_args(flags: CreateFlags) -> (res: CreateArgs)
    ensures
        create_matches(flags, res),
{
    let agent = agent_option(flags.agent, flags.no_agent);
    proof {
        if !flags.no_agent && flags.agent@.len() == 1 {
            assert(strs(flags.agent@) =~= seq![flags.agent@[0]@]);
        }
    }
    let package_manager = match flags.package_manager {
        None => None,
        Some(t) => Some(String::from_str(t.name())),
    };
    CreateArgs {
        template_name: flags.template,
        directory: flags.directory,
        agent,
        editor: editor_option(flags.editor, flags.no_editor),
        git: boolean_option(flags.git, flags.no_git),
        hooks: boolean_option(flags.hooks, flags.no_hooks),
        package_manager,
        approve_builds: given_exec(flags.approve_builds),
        verbose: given_exec(flags.verbose),
        interactive: boolean_option(flags.interactive, flags.no_interactive),
        list: given_exec(flags.list),
        template_args: flags.template_args,
    }
}

/// The flags of `vp migrate` as given.
#[derive(Debug, Clone)]
pub struct MigrateFlags {
    pub path: Option<String>,
    pub agent: Vec<String>,
    pub no_agent: bool,
    pub editor: Vec<String>,
    pub no_editor: bool,
    pub hooks: bool,
    pub no_hooks: bool,
    pub interactive: bool,
    pub no_interactive: bool,
    pub full: bool,
}

/// The options of `vp migrate` as JavaScript receives them.
#[derive(Debug, Clone)]
pub struct MigrateArgs {
    pub path: Option<String>,
    pub agent: Option<AgentOption>,
    pub editor: Option<EditorOption>,
    pub hooks: Option<bool>,
    pub interactive: Option<bool>,
    pub full: Option<bool>,
}

/// `res` is what `vp migrate` hands JavaScript for `flags`.
pub open spec fn migrate_matches(flags: MigrateFlags, res: MigrateArgs) -> bool {
    &&& res.path == flags.path
    &&& agent_view(res.agent) == agent_model(flags.agent@, flags.no_agent)
    &&& (flags.agent@.len() == 1 && !flags.no_agent ==> res.agent matches Some(AgentOption::One(_)))
    &&& (flags.agent@.len() > 1 && !flags.no_agent ==> res.agent matches Some(AgentOption::Many(_)))
    &&& editor_matches(flags.editor@, flags.no_editor, res.editor)
    &&& res.hooks == boolean_spec(flags.hooks, flags.no_hooks)
    &&& res.interactive == boolean_spec(flags.interactive, flags.no_interactive)
    &&& res.full == given(flags.full)
}

pub fn migrate_args(flags: MigrateFlags) -> (res: MigrateArgs)
    ensures
        migrate_matches(flags, res),
{
    let agent = agent_option(flags.agent, flags.no_agent);
    proof {
        if !flags.no_agent && flags.agent@.len() == 1 {
            assert(strs(flags.agent@) =~= seq![flags.agent@[0]@]);
        }
    }
    MigrateArgs {
        path: flags.path,
        agent,
        editor: editor_option(flags.editor, flags.no_editor),
        hooks: boolean_option(flags.hooks, flags.no_hooks),
        interactive: boolean_option(flags.interactive, flags.no_interactive),
        full: given_exec(flags.full),
    }
}

/// What `vp create`'s argument parse hands back.
#[derive(Debug, Clone)]
pub enum ParseCreateArgsOutcome {
    Parsed { value: CreateArgs },
    Exit { code: u32 },
    Error { error: CliParseError },
}

pub fn create_outcome(parsed: ParseResult<CreateFlags>) -> (res: ParseCreateArgsOutcome)
    ensures
        match parsed {
            ParseResult::Args(f) => res matches ParseCreateArgsOutcome::Parsed { value }
                && create_matches(f, value),
            ParseResult::Help => res == ParseCreateArgsOutcome::Exit { code: 0 },
            ParseResult::Error(e) => res == ParseCreateArgsOutcome::Error { error: e },
        },
{
    match parsed {
        ParseResult::Args(f) => ParseCreateArgsOutcome::Parsed { value: create_args(f) },
        ParseResult::Help => ParseCreateArgsOutcome::Exit { code: 0 },
        ParseResult::Error(error) => ParseCreateArgsOutcome::Error { error },
    }
}

/// What `vp migrate`'s argument parse hands back.
#[derive(Debug, Clone)]
pub enum ParseMigrateArgsOutcome {
    Parsed { value: MigrateArgs },
    Exit { code: u32 },
    Error { error: CliParseError },
}

pub fn migrate_outcome(parsed: ParseResult<MigrateFlags>) -> (res: ParseMigrateArgsOutcome)
    ensures
        match parsed {
            ParseResult::Args(f) => res matches ParseMigrateArgsOutcome::Parsed { value }
                && migrate_matches(f, value),
            ParseResult::Help => res == ParseMigrateArgsOutcome::Exit { code: 0 },
            ParseResult::Error(e) => res == ParseMigrateArgsOutcome::Error { error: e },
        },
{
    match parsed {
        ParseResult::Args(f) => ParseMigrateArgsOutcome::Parsed { value: migrate_args(f) },
        ParseResult::Help => ParseMigrateArgsOutcome::Exit { code: 0 },
        ParseResult::Error(error) => ParseMigrateArgsOutcome::Error { error },
    }
}

} // verus!
