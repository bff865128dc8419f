//! Package-manager command resolution: which program and arguments carry out
//! a Vite+ package-manager command under npm, pnpm, yarn or bun, and which
//! compatibility diagnostics it reports.
use vstd::prelude::*;

use crate::path_list::{entry_fits, join_paths, split_paths, Platform};
use crate::text::{
    chars_eq, chars_to_string, int_error_message, parse_usize, parse_usize_spec, push_all,
    str_chars,
};

verus! {

/// The views of a list of strings.
pub open spec fn strs(v: Seq<String>) -> Seq<Seq<char>> {
    v.map_values(|s: String| s@)
}

/// A list of owned strings, copied from `v`.
pub fn clone_strings(v: &[String]) -> (res: Vec<String>)
    ensures
        strs(res@) == strs(v@),
{
    let mut res: Vec<String> = Vec::new();
    let mut k: usize = 0;
    while k < v.len()
        invariant
            k <= v.len(),
            strs(res@) == strs(v@.take(k as int)),
        decreases v.len() - k,
    {
        let ghost before = res@;
        res.push(v[k].clone());
        proof {
            assert(strs(res@) =~= strs(before).push(v@[k as int]@));
            assert(strs(v@.take(k + 1)) =~= strs(v@.take(k as int)).push(v@[k as int]@));
        }
        k += 1;
    }
    proof {
        assert(v@.take(v.len() as int) =~= v@);
    }
    res
}

/// The supported package managers.
#[derive(Debug, Clone, Copy, PartialEq, Eq)]
pub enum PackageManagerType {
    Pnpm,
    Yarn,
    Npm,
    Bun,
}

impl PackageManagerType {
    /// The command name of the package manager.
    pub fn name(&self) -> (res: &'static str)
        ensures
            res@ == pm_name(*self),
    {
        match self {
            PackageManagerType::Pnpm => "pnpm",
            PackageManagerType::Yarn => "yarn",
            PackageManagerType::Npm => "npm",
            PackageManagerType::Bun => "bun",
        }
    }

    /// The package manager with this command name, if any.
    pub fn from_name(name: &str) -> (res: Option<PackageManagerType>)
        ensures
            match res {
                Some(t) => pm_name(t) == name@,
                None => forall|t: PackageManagerType| pm_name(t) != name@,
            },
    {
        let n = str_chars(name);
        let pnpm = str_chars("pnpm");
        let yarn = str_chars("yarn");
        let npm = str_chars("npm");
        let bun = str_chars("bun");
        if chars_eq(n.as_slice(), pnpm.as_slice()) {
            Some(PackageManagerType::Pnpm)
        } else if chars_eq(n.as_slice(), yarn.as_slice()) {
            Some(PackageManagerType::Yarn)
        } else if chars_eq(n.as_slice(), npm.as_slice()) {
            Some(PackageManagerType::Npm)
        } else if chars_eq(n.as_slice(), bun.as_slice()) {
            Some(PackageManagerType::Bun)
        } else {
            proof {
                assert forall|t: PackageManagerType| pm_name(t) != name@ by {
                    match t {
                        PackageManagerType::Pnpm => {},
                        PackageManagerType::Yarn => {},
                        PackageManagerType::Npm => {},
                        PackageManagerType::Bun => {},
                    }
                }
            }
            None
        }
    }
}

pub open spec fn pm_name(t: PackageManagerType) -> Seq<char> {
    match t {
        PackageManagerType::Pnpm => "pnpm"@,
        PackageManagerType::Yarn => "yarn"@,
        PackageManagerType::Npm => "npm"@,
        PackageManagerType::Bun => "bun"@,
    }
}

/// The error text for an unsupported package manager name.
pub const PACKAGE_MANAGER_ERROR: &'static str = "use pnpm, npm, yarn, or bun";

/// Reads a `--package-manager` value of `vp create`.
pub fn parse_package_manager(value: &str) -> (res: Result<PackageManagerType, &'static str>)
    ensures
        match res {
            Ok(t) => pm_name(t) == value@,
            Err(e) => e@ == PACKAGE_MANAGER_ERROR@ && forall|t: PackageManagerType|
                pm_name(t) != value@,
        },
{
    match PackageManagerType::from_name(value) {
        Some(t) => Ok(t),
        None => Err(PACKAGE_MANAGER_ERROR),
    }
}

// ---------------------------------------------------------------------------
// Versions.
// ---------------------------------------------------------------------------

/// A semantic version: its numeric triple, and whether it carries a
/// pre-release tag (which orders it before the plain triple).
#[derive(Debug, Clone, Copy, PartialEq, Eq)]
pub struct SemVersion {
    pub major: u64,
    pub minor: u64,
    pub patch: u64,
    pub prerelease: bool,
}

/// What `semver::Version::parse` makes of a text: the numeric triple and
/// the pre-release text (empty without one), or `None` when the text is not
/// a semantic version.
pub uninterp spec fn semver_parse(text: Seq<char>) -> Option<(u64, u64, u64, Seq<char>)>;

/// The version a text reads as: the triple, and whether a pre-release tag
/// is present.
pub open spec fn semver_model(text: Seq<char>) -> Option<(u64, u64, u64, bool)> {
    match semver_parse(text) {
        Some((a, b, c, pre)) => Some((a, b, c, pre.len() > 0)),
        None => None,
    }
}

pub open spec fn version_model(v: SemVersion) -> (u64, u64, u64, bool) {
    (v.major, v.minor, v.patch, v.prerelease)
}

/// Parses a semantic version with `semver::Version::parse` (its result
/// named `semver_parse`): the numeric triple and the pre-release text.
#[verifier::external_body]
fn parse_semver(text: &str) -> (res: Option<(u64, u64, u64, String)>)
    ensures
        match res {
            Some(v) => semver_parse(text@) == Some((v.0, v.1, v.2, v.3@)),
            None => semver_parse(text@) is None,
        },
{
    match semver::Version::parse(text) {
        Ok(v) => Some((v.major, v.minor, v.patch, v.pre.as_str().to_string())),
        Err(_) => None,
    }
}

/// Reads a version string as a semantic version.
pub fn parse_version(text: &str) -> (res: Option<SemVersion>)
    ensures
        match res {
            Some(v) => semver_model(text@) == Some(version_model(v)),
            None => semver_model(text@) is None,
        },
{
    match parse_semver(text) {
        Some((major, minor, patch, pre)) => Some(
            SemVersion { major, minor, patch, prerelease: str_chars(pre.as_str()).len() > 0 },
        ),
        None => None,
    }
}

/// `v >= major.minor.patch` in semantic-version order.
pub open spec fn at_least(v: SemVersion, major: u64, minor: u64, patch: u64) -> bool {
    ||| v.major > major
    ||| (v.major == major && v.minor > minor)
    ||| (v.major == major && v.minor == minor && v.patch > patch)
    ||| (v.major == major && v.minor == minor && v.patch == patch && !v.prerelease)
}

// ---------------------------------------------------------------------------
// Dialects.
// ---------------------------------------------------------------------------

/// A package manager together with what its version implies for the
/// commands it accepts. npm's version may be unknown (`latest`).
#[derive(Debug, Clone, PartialEq, Eq)]
pub enum Dialect {
    Npm { version: Option<SemVersion> },
    Pnpm { version: SemVersion },
    Yarn { version: SemVersion },
    Bun { version: SemVersion },
}

impl Dialect {
    /// The command name of the dialect.
    pub fn command_name(&self) -> (res: &'static str)
        ensures
            res@ == pm_name(dialect_type(*self)),
    {
        match self {
            Dialect::Npm { .. } => "npm",
            Dialect::Pnpm { .. } => "pnpm",
            Dialect::Yarn { .. } => "yarn",
            Dialect::Bun { .. } => "bun",
        }
    }

    /// Whether this is yarn 2 or later ("berry").
    pub fn is_berry(&self) -> (res: bool)
        ensures
            res == is_berry(*self),
    {
        match self {
            Dialect::Yarn { version } => version.major >= 2,
            _ => false,
        }
    }

    /// Whether this is bun 1.4 or later.
    pub fn supports_v1_4_commands(&self) -> (res: bool)
        ensures
            res == supports_v1_4(*self),
    {
        match self {
            Dialect::Bun { version } => version.major > 1 || (version.major == 1 && (version.minor
                > 4 || (version.minor == 4 && (version.patch > 0 || !version.prerelease)))),
            _ => false,
        }
    }
}

pub open spec fn dialect_type(d: Dialect) -> PackageManagerType {
    match d {
        Dialect::Npm { .. } => PackageManagerType::Npm,
        Dialect::Pnpm { .. } => PackageManagerType::Pnpm,
        Dialect::Yarn { .. } => PackageManagerType::Yarn,
        Dialect::Bun { .. } => PackageManagerType::Bun,
    }
}

pub open spec fn is_berry(d: Dialect) -> bool {
    match d {
        Dialect::Yarn { version } => version.major >= 2,
        _ => false,
    }
}

pub open spec fn supports_v1_4(d: Dialect) -> bool {
    match d {
        Dialect::Bun { version } => at_least(version, 1, 4, 0),
        _ => false,
    }
}

/// Errors of package-manager resolution.
#[derive(Debug, Clone, PartialEq, Eq)]
pub enum PmError {
    /// The pinned version of a package manager other than npm is not a
    /// semantic version.
    InvalidPackageManagerVersion { manager: PackageManagerType, version: String },
}

/// The dialect for a detected package manager and its version text: npm
/// tolerates a version that is not a semantic version (such as `latest`);
/// the others require one.
pub open spec fn dialect_for_spec(client: PackageManagerType, version: Seq<char>) -> Option<
    Dialect,
> {
    match (client, semver_model(version)) {
        (PackageManagerType::Npm, None) => Some(Dialect::Npm { version: None }),
        (_, None) => None,
        (_, Some((a, b, c, p))) => {
            let v = SemVersion { major: a, minor: b, patch: c, prerelease: p };
            Some(
                match client {
                    PackageManagerType::Npm => Dialect::Npm { version: Some(v) },
                    PackageManagerType::Pnpm => Dialect::Pnpm { version: v },
                    PackageManagerType::Yarn => Dialect::Yarn { version: v },
                    PackageManagerType::Bun => Dialect::Bun { version: v },
                },
            )
        },
    }
}

/// Builds the dialect of a detected package manager from its version text.
pub fn dialect_for_manager(client: PackageManagerType, version: &str) -> (res: Result<
    Dialect,
    PmError,
>)
    ensures
        match res {
            Ok(d) => dialect_for_spec(client, version@) == Some(d),
            Err(PmError::InvalidPackageManagerVersion { manager, version: v }) => {
                &&& dialect_for_spec(client, version@) is None
                &&& manager == client
                &&& v@ == version@
            },
        },
{
    match parse_version(version) {
        Some(v) => Ok(
            match client {
                PackageManagerType::Npm => Dialect::Npm { version: Some(v) },
                PackageManagerType::Pnpm => Dialect::Pnpm { version: v },
                PackageManagerType::Yarn => Dialect::Yarn { version: v },
                PackageManagerType::Bun => Dialect::Bun { version: v },
            },
        ),
        None => match client {
            PackageManagerType::Npm => Ok(Dialect::Npm { version: None }),
            _ => Err(
                PmError::InvalidPackageManagerVersion {
                    manager: client,
                    version: String::from_str(version),
                },
            ),
        },
    }
}

// ---------------------------------------------------------------------------
// Resolved commands.
// ---------------------------------------------------------------------------

/// Work to do before running a resolved command.
#[derive(Debug, Clone, PartialEq, Eq)]
pub enum PreRunAction {
    CreateDir { path: String },
}

/// A program with its arguments, environment and preparatory actions.
#[derive(Debug, Clone, PartialEq, Eq)]
pub struct ResolvedCommand {
    pub program: String,
    pub args: Vec<String>,
    /// Environment entries; each name occurs at most once.
    pub env: Vec<(String, String)>,
    pub pre_run: Vec<PreRunAction>,
}

impl ResolvedCommand {
    /// A command that runs `program` without arguments.
    pub fn new(program: &str) -> (res: ResolvedCommand)
        ensures
            res.program@ == program@,
            res.args@.len() == 0,
            res.env@.len() == 0,
            res.pre_run@.len() == 0,
    {
        ResolvedCommand {
            program: String::from_str(program),
            args: Vec::new(),
            env: Vec::new(),
            pre_run: Vec::new(),
        }
    }

    /// The value of the environment entry `name`, if any.
    pub fn env_value(&self, name: &str) -> (res: Option<String>)
        ensures
            match res {
                Some(v) => exists|i: int|
                    0 <= i < self.env@.len() && (#[trigger] self.env@[i]).0@ == name@
                        && self.env@[i].1@ == v@,
                None => forall|i: int|
                    0 <= i < self.env@.len() ==> (#[trigger] self.env@[i]).0@ != name@,
            },
    {
        let n = str_chars(name);
        let mut i: usize = 0;
        while i < self.env.len()
            invariant
                i <= self.env@.len(),
                n@ == name@,
                forall|k: int| 0 <= k < i ==> (#[trigger] self.env@[k]).0@ != name@,
            decreases self.env@.len() - i,
        {
            let key = str_chars(self.env[i].0.as_str());
            if chars_eq(key.as_slice(), n.as_slice()) {
                return Some(self.env[i].1.clone());
            }
            i += 1;
        }
        None
    }

    /// Sets the environment entry `name` to `value`, replacing an earlier
    /// value of the same name.
    pub fn set_env(&mut self, name: &str, value: &str)
        ensures
            final(self).program == old(self).program,
            final(self).args == old(self).args,
            final(self).pre_run == old(self).pre_run,
            unique_names(old(self).env@) ==> env_map(final(self).env@) == env_map(
                old(self).env@,
            ).insert(name@, value@),
            unique_names(old(self).env@) ==> unique_names(final(self).env@),
    {
        let n = str_chars(name);
        let mut i: usize = 0;
        while i < self.env.len()
            invariant
                i <= self.env@.len(),
                n@ == name@,
                *self == *old(self),
                forall|k: int| 0 <= k < i ==> (#[trigger] self.env@[k]).0@ != name@,
            decreases self.env@.len() - i,
        {
            let key = str_chars(self.env[i].0.as_str());
            if chars_eq(key.as_slice(), n.as_slice()) {
                let ghost before = self.env@;
                self.env.set(i, (String::from_str(name), String::from_str(value)));
                proof {
                    if unique_names(before) {
                        lemma_env_map_set(before, i as int, name@, value@);
                    }
                }
                return;
            }
            i += 1;
        }
        let ghost before = self.env@;
        self.env.push((String::from_str(name), String::from_str(value)));
        proof {
            lemma_env_map_push(before, name@, value@);
        }
    }
}

/// The environment entries as a map from name to value; a later entry of a
/// name wins.
pub open spec fn env_map(env: Seq<(String, String)>) -> Map<Seq<char>, Seq<char>>
    decreases env.len(),
{
    if env.len() == 0 {
        Map::empty()
    } else {
        env_map(env.drop_last()).insert(env.last().0@, env.last().1@)
    }
}

pub open spec fn unique_names(env: Seq<(String, String)>) -> bool {
    forall|i: int, j: int|
        0 <= i < j < env.len() ==> (#[trigger] env[i]).0@ != (#[trigger] env[j]).0@
}

proof fn lemma_env_map_push(env: Seq<(String, String)>, name: Seq<char>, value: Seq<char>)
    requires
        forall|k: int| 0 <= k < env.len() ==> (#[trigger] env[k]).0@ != name,
    ensures
        forall|e: (String, String)|
            e.0@ == name && e.1@ == value ==> env_map(#[trigger] env.push(e)) == env_map(env).insert(
                name,
                value,
            ),
        unique_names(env) ==> forall|e: (String, String)|
            e.0@ == name ==> unique_names(#[trigger] env.push(e)),
{
    assert forall|e: (String, String)| e.0@ == name && e.1@ == value implies env_map(
        #[trigger] env.push(e),
    ) == env_map(env).insert(name, value) by {
        assert(env.push(e).drop_last() =~= env);
    }
}

proof fn lemma_env_map_set(
    env: Seq<(String, String)>,
    i: int,
    name: Seq<char>,
    value: Seq<char>,
)
    requires
        0 <= i < env.len(),
        env[i].0@ == name,
        unique_names(env),
    ensures
        forall|e: (String, String)|
            e.0@ == name && e.1@ == value ==> env_map(#[trigger] env.update(i, e)) == env_map(
                env,
            ).insert(name, value),
        unique_names(env) ==> forall|e: (String, String)|
            e.0@ == name ==> unique_names(#[trigger] env.update(i, e)),
    decreases env.len(),
{
    assert forall|e: (String, String)| e.0@ == name && e.1@ == value implies env_map(
        #[trigger] env.update(i, e),
    ) == env_map(env).insert(name, value) by {
        let u = env.update(i, e);
        if i == env.len() - 1 {
            assert(u.drop_last() =~= env.drop_last());
            assert(env_map(env).insert(name, value) =~= env_map(env.drop_last()).insert(
                name,
                value,
            ));
        } else {
            lemma_env_map_set(env.drop_last(), i, name, value);
            assert(u.drop_last() =~= env.drop_last().update(i, e));
            assert(env[i].0@ != env[env.len() - 1].0@);
            assert(env_map(u) =~= env_map(env).insert(name, value));
        }
    }
}

/// A command builder that appends arguments in order.
#[derive(Debug, Clone)]
pub struct CommandBuilder {
    pub command: ResolvedCommand,
}

impl CommandBuilder {
    /// A builder for `program` without arguments.
    pub fn new(program: &str) -> (res: CommandBuilder)
        ensures
            res.command.program@ == program@,
            res.command.args@.len() == 0,
            res.command.env@.len() == 0,
            res.command.pre_run@.len() == 0,
    {
        CommandBuilder { command: ResolvedCommand::new(program) }
    }

    /// Appends one argument.
    pub fn arg(&mut self, arg: &str)
        ensures
            strs(final(self).command.args@) == strs(old(self).command.args@).push(arg@),
            final(self).command.program == old(self).command.program,
            final(self).command.env == old(self).command.env,
            final(self).command.pre_run == old(self).command.pre_run,
    {
        let ghost before = self.command.args@;
        self.command.args.push(String::from_str(arg));
        proof {
            assert(strs(self.command.args@) =~= strs(before).push(arg@));
        }
    }

    /// Appends `arg` when `condition` holds.
    pub fn arg_if(&mut self, arg: &str, condition: bool)
        ensures
            strs(final(self).command.args@) == (if condition {
                strs(old(self).command.args@).push(arg@)
            } else {
                strs(old(self).command.args@)
            }),
            final(self).command.program == old(self).command.program,
            final(self).command.env == old(self).command.env,
            final(self).command.pre_run == old(self).command.pre_run,
    {
        if condition {
            self.arg(arg);
        }
    }

    /// Appends `flag` and `value` when a value is given.
    pub fn option(&mut self, flag: &str, value: Option<&str>)
        ensures
            strs(final(self).command.args@) == (match value {
                Some(v) => strs(old(self).command.args@).push(flag@).push(v@),
                None => strs(old(self).command.args@),
            }),
            final(self).command.program == old(self).command.program,
            final(self).command.env == old(self).command.env,
            final(self).command.pre_run == old(self).command.pre_run,
    {
        if let Some(v) = value {
            self.arg(flag);
            self.arg(v);
        }
    }

    /// Appends `flag value` for each value.
    pub fn repeated(&mut self, flag: &str, values: &[String])
        ensures
            strs(final(self).command.args@) == strs(old(self).command.args@) + interleave(
                flag@,
                strs(values@),
            ),
            final(self).command.program == old(self).command.program,
            final(self).command.env == old(self).command.env,
            final(self).command.pre_run == old(self).command.pre_run,
    {
        let ghost start = strs(self.command.args@);
        let mut k: usize = 0;
        while k < values.len()
            invariant
                k <= values.len(),
                strs(self.command.args@) == start + interleave(flag@, strs(values@.take(k as int))),
                self.command.program == old(self).command.program,
                self.command.env == old(self).command.env,
                self.command.pre_run == old(self).command.pre_run,
            decreases values.len() - k,
        {
            self.arg(flag);
            self.arg(values[k].as_str());
            proof {
                assert(strs(values@.take(k + 1)) =~= strs(values@.take(k as int)).push(
                    values@[k as int]@,
                ));
                assert(strs(values@.take(k + 1)).drop_last() =~= strs(values@.take(k as int)));
            }
            k += 1;
        }
        proof {
            assert(values@.take(values.len() as int) =~= values@);
        }
    }

    /// Appends each value.
    pub fn extend(&mut self, values: &[String])
        ensures
            strs(final(self).command.args@) == strs(old(self).command.args@) + strs(values@),
            final(self).command.program == old(self).command.program,
            final(self).command.env == old(self).command.env,
            final(self).command.pre_run == old(self).command.pre_run,
    {
        let ghost start = strs(self.command.args@);
        let mut k: usize = 0;
        while k < values.len()
            invariant
                k <= values.len(),
                strs(self.command.args@) == start + strs(values@.take(k as int)),
                self.command.program == old(self).command.program,
                self.command.env == old(self).command.env,
                self.command.pre_run == old(self).command.pre_run,
            decreases values.len() - k,
        {
            self.arg(values[k].as_str());
            proof {
                assert(strs(values@.take(k + 1)) =~= strs(values@.take(k as int)).push(
                    values@[k as int]@,
                ));
            }
            k += 1;
        }
        proof {
            assert(values@.take(values.len() as int) =~= values@);
        }
    }

    /// Adds a directory to create before running the command.
    pub fn create_dir(&mut self, path: &str)
        ensures
            final(self).command.pre_run@ == old(self).command.pre_run@.push(
                final(self).command.pre_run@.last(),
            ),
            final(self).command.pre_run@.last() matches PreRunAction::CreateDir { path: p }
                && p@ == path@,
            final(self).command.program == old(self).command.program,
            final(self).command.args == old(self).command.args,
            final(self).command.env == old(self).command.env,
    {
        self.command.pre_run.push(PreRunAction::CreateDir { path: String::from_str(path) });
    }

    /// The built command.
    pub fn build(self) -> (res: ResolvedCommand)
        ensures
            res == self.command,
    {
        self.command
    }
}

/// `flag v` for each `v`.
pub open spec fn interleave(flag: Seq<char>, values: Seq<Seq<char>>) -> Seq<Seq<char>>
    decreases values.len(),
{
    if values.len() == 0 {
        seq![]
    } else {
        interleave(flag, values.drop_last()) + seq![flag, values.last()]
    }
}

/// What a package-manager command resolves to.
#[derive(Debug, Clone, PartialEq, Eq)]
pub enum CommandResolution {
    Run(ResolvedCommand),
    Noop,
    InvalidArgument(String),
}

/// Kinds of compatibility diagnostics.
#[derive(Debug, Clone, Copy, PartialEq, Eq)]
pub enum DiagnosticKind {
    /// The package manager has no such command, so nothing runs.
    UnsupportedCommandNoop,
    /// The package manager does not support an option, which is dropped.
    UnsupportedOption,
}

/// One compatibility diagnostic.
#[derive(Debug, Clone, PartialEq, Eq)]
pub struct Diagnostic {
    pub kind: DiagnosticKind,
    pub message: String,
}

/// The diagnostics of one resolution, in the order they were reported.
pub type Diagnostics = Vec<Diagnostic>;

/// Model of a diagnostic: its kind and message.
pub open spec fn diag_model(d: Diagnostic) -> (DiagnosticKind, Seq<char>) {
    (d.kind, d.message@)
}

pub open spec fn diags(v: Seq<Diagnostic>) -> Seq<(DiagnosticKind, Seq<char>)> {
    v.map_values(|d: Diagnostic| diag_model(d))
}

/// Reports a warning.
pub fn warn(diag: &mut Diagnostics, kind: DiagnosticKind, message: &str)
    ensures
        diags(final(diag)@) == diags(old(diag)@).push((kind, message@)),
{
    let ghost before = diag@;
    diag.push(Diagnostic { kind, message: String::from_str(message) });
    proof {
        assert(diags(diag@) =~= diags(before).push((kind, message@)));
    }
}

/// The outcome of resolving one command, with its diagnostics.
#[derive(Debug, Clone, PartialEq, Eq)]
pub struct Resolution {
    pub outcome: CommandResolution,
    pub diagnostics: Diagnostics,
}

/// Whether a resolution runs `program` with exactly `args`.
pub open spec fn runs(r: CommandResolution, program: Seq<char>, args: Seq<Seq<char>>) -> bool {
    r matches CommandResolution::Run(c) && c.program@ == program && strs(c.args@) == args
        && c.env@.len() == 0 && c.pre_run@.len() == 0
}

// ---------------------------------------------------------------------------
// `vp pm ci`.
// ---------------------------------------------------------------------------

/// Arguments of `vp pm ci`.
#[derive(Debug, Clone, Default, PartialEq, Eq)]
pub struct CiArgs {
    /// Additional arguments to pass through to the package manager.
    pub pass_through_args: Vec<String>,
}

/// The arguments of a clean install under each dialect.
pub open spec fn ci_command(d: Dialect, pass: Seq<Seq<char>>) -> (Seq<char>, Seq<Seq<char>>) {
    match d {
        Dialect::Npm { .. } => ("npm"@, seq!["ci"@] + pass),
        Dialect::Pnpm { .. } => ("pnpm"@, seq!["install"@, "--frozen-lockfile"@] + pass),
        Dialect::Yarn { .. } => (
            "yarn"@,
            seq![
                "install"@,
                if is_berry(d) {
                    "--immutable"@
                } else {
                    "--frozen-lockfile"@
                },
            ] + pass,
        ),
        Dialect::Bun { .. } => ("bun"@, seq!["install"@, "--frozen-lockfile"@] + pass),
    }
}

/// A yarn dialect is berry (yarn 2 or later) exactly when its major version
/// is at least 2, and its clean install asks for `--immutable` then, else
/// (yarn classic) for `--frozen-lockfile`; only npm keeps `ci`.
pub proof fn law_yarn_ci_follows_major(version: SemVersion, pass: Seq<Seq<char>>)
    ensures
        is_berry(Dialect::Yarn { version }) <==> version.major >= 2,
        ci_command(Dialect::Yarn { version }, pass).0 == "yarn"@,
        ci_command(Dialect::Yarn { version }, pass).1[0] == "install"@,
        ci_command(Dialect::Yarn { version }, pass).1[1] == (if version.major >= 2 {
            "--immutable"@
        } else {
            "--frozen-lockfile"@
        }),
        ci_command(Dialect::Yarn { version }, pass).1.skip(2) == pass,
        ci_command(Dialect::Npm { version: Some(version) }, pass) == ("npm"@, seq!["ci"@] + pass),
        ci_command(Dialect::Pnpm { version }, pass) == ("pnpm"@, seq!["install"@, "--frozen-lockfile"@] + pass),
        ci_command(Dialect::Bun { version }, pass) == ("bun"@, seq!["install"@, "--frozen-lockfile"@] + pass),
{
    let args = ci_command(Dialect::Yarn { version }, pass).1;
    assert(args.skip(2) =~= pass);
}

/// Resolves `vp pm ci`: npm keeps its native `ci`; the others install with a
/// frozen lockfile (`--immutable` on yarn berry). No diagnostics.
pub fn resolve_ci(dialect: &Dialect, args: CiArgs) -> (res: Resolution)
    ensures
        runs(
            res.outcome,
            ci_command(*dialect, strs(args.pass_through_args@)).0,
            ci_command(*dialect, strs(args.pass_through_args@)).1,
        ),
        res.diagnostics@.len() == 0,
{
    let mut cmd;
    match dialect {
        Dialect::Npm { .. } => {
            cmd = CommandBuilder::new("npm");
            cmd.arg("ci");
        },
        Dialect::Pnpm { .. } => {
            cmd = CommandBuilder::new("pnpm");
            cmd.arg("install");
            cmd.arg("--frozen-lockfile");
        },
        Dialect::Yarn { .. } => {
            cmd = CommandBuilder::new("yarn");
            cmd.arg("install");
            if dialect.is_berry() {
                cmd.arg("--immutable");
            } else {
                cmd.arg("--frozen-lockfile");
            }
        },
        Dialect::Bun { .. } => {
            cmd = CommandBuilder::new("bun");
            cmd.arg("install");
            cmd.arg("--frozen-lockfile");
        },
    }
    cmd.extend(args.pass_through_args.as_slice());
    proof {
        let pass = strs(args.pass_through_args@);
        assert(strs(cmd.command.args@) =~= ci_command(*dialect, pass).1);
    }
    Resolution { outcome: CommandResolution::Run(cmd.build()), diagnostics: Vec::new() }
}

// ---------------------------------------------------------------------------
// `vp pm prune`.
// ---------------------------------------------------------------------------

/// Arguments of `vp pm prune`.
#[derive(Debug, Clone, Default, PartialEq, Eq)]
pub struct PruneArgs {
    /// Remove devDependencies.
    pub prod: bool,
    /// Remove optional dependencies (not supported by bun).
    pub no_optional: bool,
    /// Additional arguments.
    pub pass_through_args: Vec<String>,
}

pub const YARN_PRUNE_MESSAGE: &'static str = "yarn does not have 'prune' command. yarn install will prune extraneous packages automatically.";

pub const BUN_PRUNE_MESSAGE: &'static str = "bun prune requires bun >= 1.4. bun install will prune extraneous packages automatically.";

pub const BUN_NO_OPTIONAL_MESSAGE: &'static str = "bun does not support --no-optional.";

/// The diagnostics of `prune` options the dialect does not support.
pub open spec fn prune_option_diags(d: Dialect, args: PruneArgs) -> Seq<
    (DiagnosticKind, Seq<char>),
> {
    if dialect_type(d) == PackageManagerType::Bun && args.no_optional {
        seq![(DiagnosticKind::UnsupportedOption, BUN_NO_OPTIONAL_MESSAGE@)]
    } else {
        seq![]
    }
}

/// The outcome of `prune` under each dialect, after unsupported options are
/// dropped.
pub open spec fn prune_outcome(d: Dialect, args: PruneArgs, r: CommandResolution) -> bool {
    let pass = strs(args.pass_through_args@);
    match d {
        Dialect::Pnpm { .. } => runs(
            r,
            "pnpm"@,
            seq!["prune"@] + (if args.prod {
                seq!["--prod"@]
            } else {
                seq![]
            }) + (if args.no_optional {
                seq!["--no-optional"@]
            } else {
                seq![]
            }) + pass,
        ),
        Dialect::Npm { .. } => runs(
            r,
            "npm"@,
            seq!["prune"@] + (if args.prod {
                seq!["--omit=dev"@]
            } else {
                seq![]
            }) + (if args.no_optional {
                seq!["--omit=optional"@]
            } else {
                seq![]
            }) + pass,
        ),
        Dialect::Yarn { .. } => r == CommandResolution::Noop,
        Dialect::Bun { .. } => if supports_v1_4(d) {
            runs(
                r,
                "bun"@,
                seq!["prune"@] + (if args.prod {
                    seq!["--production"@]
                } else {
                    seq![]
                }) + pass,
            )
        } else {
            r == CommandResolution::Noop
        },
    }
}

/// The diagnostics of the command itself under each dialect.
pub open spec fn prune_command_diags(d: Dialect) -> Seq<(DiagnosticKind, Seq<char>)> {
    match d {
        Dialect::Yarn { .. } => seq![(DiagnosticKind::UnsupportedCommandNoop, YARN_PRUNE_MESSAGE@)],
        Dialect::Bun { .. } => if supports_v1_4(d) {
            seq![]
        } else {
            seq![(DiagnosticKind::UnsupportedCommandNoop, BUN_PRUNE_MESSAGE@)]
        },
        _ => seq![],
    }
}

fn warn_unsupported_yarn(diag: &mut Diagnostics)
    ensures
        diags(final(diag)@) == diags(old(diag)@).push(
            (DiagnosticKind::UnsupportedCommandNoop, YARN_PRUNE_MESSAGE@),
        ),
{
    warn(diag, DiagnosticKind::UnsupportedCommandNoop, YARN_PRUNE_MESSAGE);
}

/// Resolves `vp pm prune`: bun does not support `--no-optional` (reported
/// and dropped); yarn has no prune and bun only from 1.4 (reported, nothing
/// runs); otherwise the native prune with the mapped flags.
pub fn resolve_prune(dialect: &Dialect, args: PruneArgs) -> (res: Resolution)
    ensures
        prune_outcome(
            *dialect,
            PruneArgs {
                no_optional: args.no_optional && dialect_type(*dialect)
                    != PackageManagerType::Bun,
                ..args
            },
            res.outcome,
        ),
        diags(res.diagnostics@) == prune_option_diags(*dialect, args) + prune_command_diags(
            *dialect,
        ),
{
    let mut diagnostics: Diagnostics = Vec::new();
    let mut args = args;
    let ghost original = args;
    if let Dialect::Bun { .. } = dialect {
        if args.no_optional {
            warn(&mut diagnostics, DiagnosticKind::UnsupportedOption, BUN_NO_OPTIONAL_MESSAGE);
            args.no_optional = false;
        }
    }
    proof {
        assert(diags(diagnostics@) =~= prune_option_diags(*dialect, original));
    }
    let ghost after_options = diags(diagnostics@);
    let outcome = match dialect {
        Dialect::Pnpm { .. } => {
            let mut cmd = CommandBuilder::new("pnpm");
            cmd.arg("prune");
            cmd.arg_if("--prod", args.prod);
            cmd.arg_if("--no-optional", args.no_optional);
            cmd.extend(args.pass_through_args.as_slice());
            CommandResolution::Run(cmd.build())
        },
        Dialect::Npm { .. } => {
            let mut cmd = CommandBuilder::new("npm");
            cmd.arg("prune");
            cmd.arg_if("--omit=dev", args.prod);
            cmd.arg_if("--omit=optional", args.no_optional);
            cmd.extend(args.pass_through_args.as_slice());
            CommandResolution::Run(cmd.build())
        },
        Dialect::Yarn { .. } => {
            warn_unsupported_yarn(&mut diagnostics);
            CommandResolution::Noop
        },
        Dialect::Bun { .. } => {
            if !dialect.supports_v1_4_commands() {
                warn(&mut diagnostics, DiagnosticKind::UnsupportedCommandNoop, BUN_PRUNE_MESSAGE);
                CommandResolution::Noop
            } else {
                let mut cmd = CommandBuilder::new("bun");
                cmd.arg("prune");
                cmd.arg_if("--production", args.prod);
                cmd.extend(args.pass_through_args.as_slice());
                CommandResolution::Run(cmd.build())
            }
        },
    };
    proof {
        let pass = strs(args.pass_through_args@);
        match outcome {
            CommandResolution::Run(ref c) => {
                assert(strs(c.args@) =~= (seq!["prune"@] + (if args.prod {
                    seq![
                        if dialect_type(*dialect) == PackageManagerType::Npm {
                            "--omit=dev"@
                        } else if dialect_type(*dialect) == PackageManagerType::Bun {
                            "--production"@
                        } else {
                            "--prod"@
                        },
                    ]
                } else {
                    seq![]
                }) + (if args.no_optional {
                    seq![
                        if dialect_type(*dialect) == PackageManagerType::Npm {
                            "--omit=optional"@
                        } else {
                            "--no-optional"@
                        },
                    ]
                } else {
                    seq![]
                }) + pass));
            },
            _ => {},
        }
        assert(diags(diagnostics@) =~= after_options + prune_command_diags(*dialect));
    }
    Resolution { outcome, diagnostics }
}

// ---------------------------------------------------------------------------
// Argument lists of `ci` and `prune`.
// ---------------------------------------------------------------------------

/// Why an argument list was rejected.
#[derive(Debug, Clone, PartialEq, Eq)]
pub enum ArgError {
    /// An argument that the command does not accept.
    UnexpectedArgument(String),
    /// A flag given more than once.
    RepeatedFlag(String),
}

/// Index of the first `--` at or after `i`, or the length of the list.
pub open spec fn terminator_from(argv: Seq<Seq<char>>, i: int) -> int
    decreases argv.len() - i,
{
    if i < 0 || i >= argv.len() {
        argv.len() as int
    } else if argv[i] == "--"@ {
        i
    } else {
        terminator_from(argv, i + 1)
    }
}

pub(crate) fn terminator_index(argv: &[String]) -> (res: usize)
    ensures
        res == terminator_from(strs(argv@), 0),
        res <= argv.len(),
{
    let dd = str_chars("--");
    let mut i: usize = 0;
    while i < argv.len()
        invariant
            i <= argv.len(),
            dd@ == "--"@,
            terminator_from(strs(argv@), i as int) == terminator_from(strs(argv@), 0),
        decreases argv.len() - i,
    {
        let a = str_chars(argv[i].as_str());
        if chars_eq(a.as_slice(), dd.as_slice()) {
            return i;
        }
        i += 1;
    }
    argv.len()
}

/// The pass-through arguments: everything after the terminator at `t`.
pub open spec fn after_terminator(argv: Seq<Seq<char>>, t: int) -> Seq<Seq<char>> {
    if t < argv.len() {
        argv.skip(t + 1)
    } else {
        seq![]
    }
}

/// Reads the arguments of `vp pm ci`: a leading `--` passes everything after
/// it through; any other first argument is rejected.
pub fn parse_ci_args(argv: &[String]) -> (res: Result<CiArgs, ArgError>)
    ensures
        argv@.len() == 0 ==> (res matches Ok(a) && a.pass_through_args@.len() == 0),
        argv@.len() > 0 && argv@[0]@ == "--"@ ==> (res matches Ok(a) && strs(a.pass_through_args@)
            == strs(argv@).skip(1)),
        argv@.len() > 0 && argv@[0]@ != "--"@ ==> (res matches Err(
            ArgError::UnexpectedArgument(x),
        ) && x@ == argv@[0]@),
{
    if argv.len() == 0 {
        return Ok(CiArgs { pass_through_args: Vec::new() });
    }
    let first = str_chars(argv[0].as_str());
    let dd = str_chars("--");
    if !chars_eq(first.as_slice(), dd.as_slice()) {
        return Err(ArgError::UnexpectedArgument(argv[0].clone()));
    }
    let pass = clone_strings(&argv[1..argv.len()]);
    proof {
        assert(strs(argv@.subrange(1, argv@.len() as int)) =~= strs(argv@).skip(1));
    }
    Ok(CiArgs { pass_through_args: pass })
}

/// Scans the arguments before the terminator `t` of a `prune` argument list:
/// the flags seen, or the first argument that is not an accepted flag, or the
/// first repetition of a flag.
pub open spec fn prune_scan(argv: Seq<Seq<char>>, i: int, t: int, prod: bool, no_opt: bool) -> Result<
    (bool, bool),
    (bool, Seq<char>),
>
    decreases t - i,
{
    if i < 0 || i >= t || t > argv.len() {
        Ok((prod, no_opt))
    } else if argv[i] == "--prod"@ {
        if prod {
            Err((true, argv[i]))
        } else {
            prune_scan(argv, i + 1, t, true, no_opt)
        }
    } else if argv[i] == "--no-optional"@ {
        if no_opt {
            Err((true, argv[i]))
        } else {
            prune_scan(argv, i + 1, t, prod, true)
        }
    } else {
        Err((false, argv[i]))
    }
}

/// Reads the arguments of `vp pm prune`: the flags `--prod` and
/// `--no-optional`, each at most once, before the first `--`; everything after
/// it is passed through.
pub fn parse_prune_args(argv: &[String]) -> (res: Result<PruneArgs, ArgError>)
    ensures
        ({
            let a = strs(argv@);
            let t = terminator_from(a, 0);
            match (prune_scan(a, 0, t, false, false), res) {
                (Ok((prod, no_opt)), Ok(r)) => r.prod == prod && r.no_optional == no_opt && strs(
                    r.pass_through_args@,
                ) == after_terminator(a, t),
                (Err((true, x)), Err(ArgError::RepeatedFlag(y))) => x == y@,
                (Err((false, x)), Err(ArgError::UnexpectedArgument(y))) => x == y@,
                _ => false,
            }
        }),
{
    let t = terminator_index(argv);
    let ghost a = strs(argv@);
    let prod_flag = str_chars("--prod");
    let no_optional_flag = str_chars("--no-optional");
    let mut prod = false;
    let mut no_optional = false;
    let mut i: usize = 0;
    while i < t
        invariant
            i <= t <= argv.len(),
            a == strs(argv@),
            t == terminator_from(a, 0),
            prod_flag@ == "--prod"@,
            no_optional_flag@ == "--no-optional"@,
            prune_scan(a, i as int, t as int, prod, no_optional) == prune_scan(
                a,
                0,
                t as int,
                false,
                false,
            ),
        decreases t - i,
    {
        let x = str_chars(argv[i].as_str());
        proof {
            assert(a[i as int] == argv@[i as int]@);
        }
        if chars_eq(x.as_slice(), prod_flag.as_slice()) {
            if prod {
                return Err(ArgError::RepeatedFlag(argv[i].clone()));
            }
            prod = true;
        } else if chars_eq(x.as_slice(), no_optional_flag.as_slice()) {
            if no_optional {
                return Err(ArgError::RepeatedFlag(argv[i].clone()));
            }
            no_optional = true;
        } else {
            return Err(ArgError::UnexpectedArgument(argv[i].clone()));
        }
        i += 1;
    }
    let pass = if t < argv.len() {
        let p = clone_strings(&argv[t + 1..argv.len()]);
        proof {
            assert(strs(argv@.subrange(t + 1, argv@.len() as int)) =~= a.skip(t + 1));
        }
        p
    } else {
        Vec::new()
    };
    proof {
        assert(strs(pass@) =~= after_terminator(a, t as int));
    }
    Ok(PruneArgs { prod, no_optional, pass_through_args: pass })
}

// ---------------------------------------------------------------------------
// Environment of resolved commands.
// ---------------------------------------------------------------------------

/// The update-notice settings a managed package manager runs with: pnpm's
/// update notifier off; for the `yarn` program, classic yarn (0.x, 1.x) skips
/// its self-update check and yarn 4 and later turn off its tips; yarn 2 and 3
/// accept neither setting.
pub open spec fn manager_env_settings(
    client: PackageManagerType,
    program: Seq<char>,
    major: u64,
) -> Seq<(Seq<char>, Seq<char>)> {
    match client {
        PackageManagerType::Pnpm => seq![("PNPM_CONFIG_UPDATE_NOTIFIER"@, "false"@)],
        PackageManagerType::Yarn => if program == "yarn"@ {
            if major <= 1 {
                seq![("YARN_DISABLE_SELF_UPDATE_CHECK"@, "true"@)]
            } else if major >= 4 {
                seq![("YARN_ENABLE_TIPS"@, "false"@)]
            } else {
                seq![]
            }
        } else {
            seq![]
        },
        _ => seq![],
    }
}

/// Adds the update-notice settings of the managed package manager to a
/// resolved command.
pub fn apply_manager_env(command: &mut ResolvedCommand, client: PackageManagerType, major: u64)
    ensures
        final(command).program == old(command).program,
        final(command).args == old(command).args,
        final(command).pre_run == old(command).pre_run,
        manager_env_settings(client, old(command).program@, major).len() == 0 ==> final(command).env == old(command).env,
        manager_env_settings(client, old(command).program@, major).len() == 1 && unique_names(
            old(command).env@,
        ) ==> env_map(final(command).env@) == env_map(old(command).env@).insert(
            manager_env_settings(client, old(command).program@, major)[0].0,
            manager_env_settings(client, old(command).program@, major)[0].1,
        ),
        unique_names(old(command).env@) ==> unique_names(final(command).env@),
{
    match client {
        PackageManagerType::Pnpm => {
            command.set_env("PNPM_CONFIG_UPDATE_NOTIFIER", "false");
        },
        PackageManagerType::Yarn => {
            let p = str_chars(command.program.as_str());
            let yarn = str_chars("yarn");
            if chars_eq(p.as_slice(), yarn.as_slice()) {
                if major <= 1 {
                    command.set_env("YARN_DISABLE_SELF_UPDATE_CHECK", "true");
                } else if major >= 4 {
                    command.set_env("YARN_ENABLE_TIPS", "false");
                }
            }
        },
        _ => {},
    }
}

/// The major version a dialect was detected with (0 for npm of unknown
/// version).
pub open spec fn dialect_major(d: Dialect) -> u64 {
    match d {
        Dialect::Npm { version } => match version {
            Some(v) => v.major,
            None => 0,
        },
        Dialect::Pnpm { version } => version.major,
        Dialect::Yarn { version } => version.major,
        Dialect::Bun { version } => version.major,
    }
}

/// The environment after the manager's update-notice settings (at most one).
pub open spec fn with_settings(env: Map<Seq<char>, Seq<char>>, settings: Seq<(Seq<char>, Seq<char>)>) -> Map<
    Seq<char>,
    Seq<char>,
> {
    if settings.len() == 0 {
        env
    } else {
        env.insert(settings[0].0, settings[0].1)
    }
}

/// The `PATH` of a command run by the detected package manager: its bin
/// directory in front, then the caller's other entries, joined by the
/// platform's conventions.
pub open spec fn manager_path(p: Platform, path: Seq<char>, bin_prefix: Seq<char>) -> Seq<char> {
    join_paths(
        p,
        seq![bin_prefix] + crate::path_env::kept_entries(p, split_paths(p, path), bin_prefix),
    ).unwrap()
}

/// A command after `finish_for_manager`: the same program, arguments and
/// preparations; the manager's bin directory first on `PATH`; the injected
/// tools, sorted, extended by the manager's binaries; the update-notice
/// settings.
pub open spec fn finished_run(
    p: Platform,
    c: ResolvedCommand,
    c2: ResolvedCommand,
    path: Seq<char>,
    tools0: Set<Seq<char>>,
    bin_prefix: Seq<char>,
    bin_names: Seq<Seq<char>>,
    dialect: Dialect,
) -> bool {
    &&& c2.program == c.program
    &&& c2.args == c.args
    &&& c2.pre_run == c.pre_run
    &&& unique_names(c2.env@)
    &&& (p == Platform::Unix || bin_prefix.len() > 0) ==> split_paths(p, manager_path(p, path, bin_prefix))[0]
        == bin_prefix
    &&& exists|tools: Seq<Seq<char>>|
        crate::path_env::strictly_sorted(tools) && tools.to_set() == tools0 + bin_names.to_set()
            && env_map(c2.env@) == with_settings(
            env_map(c.env@).insert("PATH"@, manager_path(p, path, bin_prefix)).insert(
                "VP_PATH_INJECTED_TOOLS"@,
                crate::text::joined(tools, ","@),
            ),
            manager_env_settings(dialect_type(dialect), c.program@, dialect_major(dialect)),
        )
}

/// Finishes a resolution for the detected package manager: a command that
/// runs gets the manager's bin directory first on `PATH` (the caller's
/// `PATH` and injected tools given as `path_env`), the manager's binaries
/// recorded as injected tools, and the manager's update-notice settings
/// (pnpm's notifier off; yarn 1's self-update check off, yarn 4's tips
/// off). Other outcomes are left as they are. `Err` when the bin directory
/// cannot be a `PATH` entry on the platform.
pub fn finish_for_manager(
    resolution: Resolution,
    dialect: &Dialect,
    path_env: crate::path_env::ToolPathEnv,
    bin_prefix: &str,
    bin_names: &[&str],
    platform: Platform,
) -> (res: Result<Resolution, crate::path_env::JoinPathsError>)
    requires
        resolution.outcome matches CommandResolution::Run(c) ==> unique_names(c.env@),
    ensures
        match resolution.outcome {
            CommandResolution::Run(c) => if !entry_fits(platform, bin_prefix@) {
                res is Err
            } else {
                res matches Ok(r) && r.diagnostics == resolution.diagnostics && (r.outcome matches CommandResolution::Run(c2)
                    && finished_run(platform, c, c2, path_env.path_of(), path_env.tools_of(), bin_prefix@, bin_names@.map_values(|t: &str| t@), *dialect))
            },
            _ => res matches Ok(r) && r == resolution,
        },
{
    let Resolution { outcome, diagnostics } = resolution;
    match outcome {
        CommandResolution::Run(mut command) => {
            let mut env = path_env;
            let ghost p0 = env.path_of();
            let ghost t0 = env.tools_of();
            match env.prepend(
                bin_prefix,
                bin_names,
                crate::path_env::PrependOptions { dedupe_anywhere: false },
                platform,
            ) {
                Err(e) => return Err(e),
                Ok(()) => {},
            }
            proof {
                if platform == Platform::Unix || bin_prefix@.len() > 0 {
                    crate::path_env::lemma_prepended_entries(platform, p0, bin_prefix@);
                }
            }
            let ghost t1 = env.tools_of();
            let envs = env.into_envs();
            command.set_env(envs[0].0, envs[0].1.as_str());
            command.set_env(envs[1].0, envs[1].1.as_str());
            let (client, major): (PackageManagerType, u64) = match dialect {
                Dialect::Npm { version } => match version {
                    Some(v) => (PackageManagerType::Npm, v.major),
                    None => (PackageManagerType::Npm, 0),
                },
                Dialect::Pnpm { version } => (PackageManagerType::Pnpm, version.major),
                Dialect::Yarn { version } => (PackageManagerType::Yarn, version.major),
                Dialect::Bun { version } => (PackageManagerType::Bun, version.major),
            };
            let ghost before = command;
            apply_manager_env(&mut command, client, major);
            proof {
                let st = manager_env_settings(dialect_type(*dialect), before.program@, major);
                assert(st.len() <= 1);
                if st.len() == 1 {
                    assert(env_map(command.env@) == env_map(before.env@).insert(st[0].0, st[0].1));
                }
            }
            Ok(Resolution { outcome: CommandResolution::Run(command), diagnostics })
        },
        CommandResolution::Noop => Ok(Resolution { outcome: CommandResolution::Noop, diagnostics }),
        CommandResolution::InvalidArgument(m) => Ok(
            Resolution { outcome: CommandResolution::InvalidArgument(m), diagnostics },
        ),
    }
}

// ---------------------------------------------------------------------------
// Registry URLs.
// ---------------------------------------------------------------------------

pub const DEFAULT_NPM_REGISTRY: &'static str = "https://registry.npmjs.org";

/// `s` without trailing `'/'` characters.
pub open spec fn trim_trailing_slashes(s: Seq<char>) -> Seq<char>
    decreases s.len(),
{
    if s.len() > 0 && s.last() == '/' {
        trim_trailing_slashes(s.drop_last())
    } else {
        s
    }
}

/// The configured npm registry from the values of `npm_config_registry` and
/// `NPM_CONFIG_REGISTRY` (the first that is set, else the public registry),
/// without trailing slashes.
pub open spec fn npm_registry_spec(lower: Option<Seq<char>>, upper: Option<Seq<char>>) -> Seq<
    char,
> {
    trim_trailing_slashes(
        match lower {
            Some(v) => v,
            None => match upper {
                Some(v) => v,
                None => DEFAULT_NPM_REGISTRY@,
            },
        },
    )
}

/// Get the configured NPM registry URL from the environment values.
pub fn npm_registry(lower: Option<&str>, upper: Option<&str>) -> (res: String)
    ensures
        res@ == npm_registry_spec(
            match lower {
                Some(v) => Some(v@),
                None => None,
            },
            match upper {
                Some(v) => Some(v@),
                None => None,
            },
        ),
{
    let chosen = match lower {
        Some(v) => v,
        None => match upper {
            Some(v) => v,
            None => DEFAULT_NPM_REGISTRY,
        },
    };
    let c = str_chars(chosen);
    let mut end: usize = c.len();
    proof {
        assert(c@.take(c@.len() as int) =~= c@);
    }
    while end > 0 && c[end - 1] == '/'
        invariant
            end <= c@.len(),
            trim_trailing_slashes(c@.take(end as int)) == trim_trailing_slashes(c@),
        decreases end,
    {
        proof {
            assert(c@.take(end as int).drop_last() =~= c@.take(end - 1));
        }
        end -= 1;
    }
    proof {
        assert(c@.take(c@.len() as int) =~= c@);
    }
    let t = crate::text::sub_chars(c.as_slice(), 0, end);
    proof {
        assert(t@ =~= c@.take(end as int));
        if end > 0 {
            assert(t@.last() == c@[end - 1]);
        }
    }
    chars_to_string(t.as_slice())
}

/// The part of a package name after its last `/` (`@scope/name` -> `name`).
pub open spec fn unscoped_name(name: Seq<char>) -> Seq<char>
    decreases name.len(),
{
    if name.len() == 0 {
        name
    } else if name.last() == '/' {
        seq![]
    } else {
        unscoped_name(name.drop_last()).push(name.last())
    }
}

fn unscoped_chars(name: &[char]) -> (res: Vec<char>)
    ensures
        res@ == unscoped_name(name@),
{
    let mut start: usize = name.len();
    while start > 0 && name[start - 1] != '/'
        invariant
            start <= name.len(),
            forall|j: int| start <= j < name.len() ==> name@[j] != '/',
        decreases start,
    {
        start -= 1;
    }
    let res = crate::text::sub_chars(name, start, name.len());
    proof {
        lemma_unscoped(name@, start as int);
    }
    res
}

proof fn lemma_unscoped(name: Seq<char>, start: int)
    requires
        0 <= start <= name.len(),
        forall|j: int| start <= j < name.len() ==> name[j] != '/',
        start == 0 || name[start - 1] == '/',
    ensures
        unscoped_name(name) == name.subrange(start, name.len() as int),
    decreases name.len(),
{
    if name.len() > start {
        lemma_unscoped(name.drop_last(), start);
        assert(name.drop_last().subrange(start, name.len() - 1).push(name.last()) =~= name.subrange(
            start,
            name.len() as int,
        ));
    } else if name.len() > 0 {
        assert(name.subrange(start, name.len() as int) =~= Seq::<char>::empty());
    }
}

/// The tarball URL of a package version in a registry:
/// `{registry}/{name}/-/{unscoped name}-{version}.tgz`.
pub fn get_npm_package_tgz_url(registry: &str, name: &str, version: &str) -> (res: String)
    ensures
        res@ == registry@ + "/"@ + name@ + "/-/"@ + unscoped_name(name@) + "-"@ + version@
            + ".tgz"@,
{
    let n = str_chars(name);
    let file = unscoped_chars(n.as_slice());
    let mut out = str_chars(registry);
    push_all(&mut out, str_chars("/").as_slice());
    push_all(&mut out, n.as_slice());
    push_all(&mut out, str_chars("/-/").as_slice());
    push_all(&mut out, file.as_slice());
    push_all(&mut out, str_chars("-").as_slice());
    push_all(&mut out, str_chars(version).as_slice());
    push_all(&mut out, str_chars(".tgz").as_slice());
    chars_to_string(out.as_slice())
}

/// The URL of a package version or dist-tag: `{registry}/{name}/{version}`.
pub fn get_npm_package_version_url(registry: &str, name: &str, version_or_tag: &str) -> (res:
    String)
    ensures
        res@ == registry@ + "/"@ + name@ + "/"@ + version_or_tag@,
{
    let mut out = str_chars(registry);
    push_all(&mut out, str_chars("/").as_slice());
    push_all(&mut out, str_chars(name).as_slice());
    push_all(&mut out, str_chars("/").as_slice());
    push_all(&mut out, str_chars(version_or_tag).as_slice());
    chars_to_string(out.as_slice())
}

/// The metadata URL of a package (all published versions): `{registry}/{name}`.
pub fn get_npm_package_metadata_url(registry: &str, name: &str) -> (res: String)
    ensures
        res@ == registry@ + "/"@ + name@,
{
    let mut out = str_chars(registry);
    push_all(&mut out, str_chars("/").as_slice());
    push_all(&mut out, str_chars(name).as_slice());
    chars_to_string(out.as_slice())
}

// ---------------------------------------------------------------------------
// Numeric option values.
// ---------------------------------------------------------------------------

/// Reads a positive count such as `--concurrency`: a decimal `usize` of at
/// least 1, else the reason as text.
pub fn parse_positive_usize(value: &str) -> (res: Result<usize, String>)
    ensures
        match parse_usize_spec(value@) {
            Ok(v) => if v > 0 {
                res == Ok::<usize, String>(v as usize)
            } else {
                res matches Err(m) && m@ == "value must be at least 1"@
            },
            Err(kind) => res matches Err(m) && m@ == int_error_message(kind),
        },
{
    let c = str_chars(value);
    match parse_usize(c.as_slice()) {
        Ok(v) => if v > 0 {
            Ok(v)
        } else {
            Err(String::from_str("value must be at least 1"))
        },
        Err(kind) => Err(kind.message()),
    }
}

} // verus!
