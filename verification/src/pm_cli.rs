//! The parsed package-manager commands, as far as the dispatcher reads them
//! before resolution: which commands go to Vite+'s managed global-package
//! store (and with which values), which ask for quiet or machine-readable
//! output, and which packages the `why` hint names.
use vstd::prelude::*;

use crate::pm::PackageManagerType;
use crate::text::{has_prefix, starts_with, str_chars, sub_chars};

verus! {

/// The output format of `outdated`.
#[derive(Debug, Clone, Copy, PartialEq, Eq)]
pub enum OutdatedFormat {
    Table,
    List,
    Json,
}

#[derive(Debug, Clone, PartialEq, Eq)]
pub struct InstallArgs {
    pub packages: Vec<String>,
    pub global: bool,
    pub node: Option<String>,
    pub force: bool,
    pub concurrency: Option<usize>,
    pub silent: bool,
}

#[derive(Debug, Clone, PartialEq, Eq)]
pub struct AddArgs {
    pub packages: Vec<String>,
    pub global: bool,
    pub node: Option<String>,
    pub concurrency: Option<usize>,
}

#[derive(Debug, Clone, PartialEq, Eq)]
pub struct RemoveArgs {
    pub packages: Vec<String>,
    pub global: bool,
    pub dry_run: bool,
}

#[derive(Debug, Clone, PartialEq, Eq)]
pub struct UpdateArgs {
    pub packages: Vec<String>,
    pub global: bool,
    pub latest: bool,
    pub concurrency: Option<usize>,
    pub reinstall_node_mismatch: bool,
    pub ignore_node_mismatch: bool,
}

#[derive(Debug, Clone, PartialEq, Eq)]
pub struct OutdatedArgs {
    pub packages: Vec<String>,
    pub global: bool,
    pub long: bool,
    pub format: Option<OutdatedFormat>,
    pub concurrency: Option<usize>,
}

/// `why`: the packages, its own `--json` and `--parseable`, and the
/// arguments passed through to the package manager after `--`.
#[derive(Debug, Clone, PartialEq, Eq)]
pub struct WhyArgs {
    pub packages: Vec<String>,
    pub json: bool,
    pub parseable: bool,
    pub pass_through_args: Vec<String>,
}

#[derive(Debug, Clone, PartialEq, Eq)]
pub struct DlxArgs {
    pub package: Vec<String>,
    pub shell_mode: bool,
    pub silent: bool,
    pub args: Vec<String>,
}

#[derive(Debug, Clone, PartialEq, Eq)]
pub struct ListArgs {
    pub global: bool,
    pub json: bool,
    pub parseable: bool,
    pub pattern: Option<String>,
}

/// `pm config` and whether it asks for JSON.
#[derive(Debug, Clone, Copy, PartialEq, Eq)]
pub enum ConfigCommand {
    List { json: bool },
    Get { json: bool },
    Assign { json: bool },
    Delete,
}

/// `pm token` and whether it asks for JSON.
#[derive(Debug, Clone, Copy, PartialEq, Eq)]
pub enum TokenCommand {
    List { json: bool },
    Create { json: bool },
    Revoke,
}

/// `pm stage` and whether it asks for JSON.
#[derive(Debug, Clone, Copy, PartialEq, Eq)]
pub enum StageCommand {
    Publish { json: bool },
    List { json: bool },
    View { json: bool },
    Download,
    Approve,
    Reject,
}

/// A `vp pm` subcommand, with what the dispatcher reads of it.
#[derive(Debug, Clone, PartialEq, Eq)]
pub enum PmCommand {
    Ci,
    ApproveBuilds,
    Prune,
    Patch,
    PatchCommit,
    Pack { json: bool },
    List(ListArgs),
    View { json: bool },
    Version { json: bool },
    Publish { json: bool },
    Stage(StageCommand),
    Owner,
    Cache,
    Config(ConfigCommand),
    Login,
    Logout,
    Whoami,
    Token(TokenCommand),
    Audit { json: bool },
    DistTag,
    Deprecate,
    Search { json: bool },
    Rebuild,
    Fund { json: bool },
    Ping,
}

/// A parsed package-manager command.
#[derive(Debug, Clone, PartialEq, Eq)]
pub enum PackageManagerCommand {
    Install(InstallArgs),
    Add(AddArgs),
    Remove(RemoveArgs),
    Update(UpdateArgs),
    Dedupe,
    Outdated(OutdatedArgs),
    Why(WhyArgs),
    Info { json: bool },
    Link,
    Unlink,
    Dlx(DlxArgs),
    Pm(PmCommand),
}

/// A package-manager command handled by Vite+'s managed global-package
/// store, with the values its dispatcher needs.
#[derive(Debug, Clone, PartialEq, Eq)]
pub enum ManagedGlobalCommand {
    /// Install packages into the managed global store.
    Install { packages: Vec<String>, node: Option<String>, force: bool, concurrency: Option<usize> },
    /// Remove packages from the managed global store.
    Remove { packages: Vec<String>, dry_run: bool },
    /// Update packages in the managed global store.
    Update {
        packages: Vec<String>,
        latest: bool,
        concurrency: Option<usize>,
        reinstall_node_mismatch: bool,
        ignore_node_mismatch: bool,
    },
    /// Check managed global packages for updates.
    Outdated {
        packages: Vec<String>,
        long: bool,
        format: Option<OutdatedFormat>,
        concurrency: Option<usize>,
    },
    /// List packages in the managed global store.
    List { json: bool, pattern: Option<String> },
}

/// What a managed global command holds, with its packages as a sequence.
pub enum ManagedGlobalModel {
    Install { packages: Seq<String>, node: Option<String>, force: bool, concurrency: Option<usize> },
    Remove { packages: Seq<String>, dry_run: bool },
    Update {
        packages: Seq<String>,
        latest: bool,
        concurrency: Option<usize>,
        reinstall_node_mismatch: bool,
        ignore_node_mismatch: bool,
    },
    Outdated {
        packages: Seq<String>,
        long: bool,
        format: Option<OutdatedFormat>,
        concurrency: Option<usize>,
    },
    List { json: bool, pattern: Option<String> },
}

impl View for ManagedGlobalCommand {
    type V = ManagedGlobalModel;

    open spec fn view(&self) -> ManagedGlobalModel {
        match *self {
            ManagedGlobalCommand::Install { packages, node, force, concurrency } => ManagedGlobalModel::Install {
                packages: packages@,
                node,
                force,
                concurrency,
            },
            ManagedGlobalCommand::Remove { packages, dry_run } => ManagedGlobalModel::Remove {
                packages: packages@,
                dry_run,
            },
            ManagedGlobalCommand::Update {
                packages,
                latest,
                concurrency,
                reinstall_node_mismatch,
                ignore_node_mismatch,
            } => ManagedGlobalModel::Update {
                packages: packages@,
                latest,
                concurrency,
                reinstall_node_mismatch,
                ignore_node_mismatch,
            },
            ManagedGlobalCommand::Outdated { packages, long, format, concurrency } => ManagedGlobalModel::Outdated {
                packages: packages@,
                long,
                format,
                concurrency,
            },
            ManagedGlobalCommand::List { json, pattern } => ManagedGlobalModel::List { json, pattern },
        }
    }
}

/// The managed global command of a parsed command: `install`, `add`,
/// `remove`, `update` and `outdated` with `-g`, and `pm list -g`; `add`
/// never forces.
pub open spec fn managed_global_spec(c: PackageManagerCommand) -> Option<ManagedGlobalModel> {
    match c {
        PackageManagerCommand::Install(a) => if a.global {
            Some(
                ManagedGlobalModel::Install {
                    packages: a.packages@,
                    node: a.node,
                    force: a.force,
                    concurrency: a.concurrency,
                },
            )
        } else {
            None
        },
        PackageManagerCommand::Add(a) => if a.global {
            Some(
                ManagedGlobalModel::Install {
                    packages: a.packages@,
                    node: a.node,
                    force: false,
                    concurrency: a.concurrency,
                },
            )
        } else {
            None
        },
        PackageManagerCommand::Remove(a) => if a.global {
            Some(ManagedGlobalModel::Remove { packages: a.packages@, dry_run: a.dry_run })
        } else {
            None
        },
        PackageManagerCommand::Update(a) => if a.global {
            Some(
                ManagedGlobalModel::Update {
                    packages: a.packages@,
                    latest: a.latest,
                    concurrency: a.concurrency,
                    reinstall_node_mismatch: a.reinstall_node_mismatch,
                    ignore_node_mismatch: a.ignore_node_mismatch,
                },
            )
        } else {
            None
        },
        PackageManagerCommand::Outdated(a) => if a.global {
            Some(
                ManagedGlobalModel::Outdated {
                    packages: a.packages@,
                    long: a.long,
                    format: a.format,
                    concurrency: a.concurrency,
                },
            )
        } else {
            None
        },
        PackageManagerCommand::Pm(PmCommand::List(a)) => if a.global {
            Some(ManagedGlobalModel::List { json: a.json, pattern: a.pattern })
        } else {
            None
        },
        _ => None,
    }
}

/// Whether a pass-through argument turns `flag` on: the bare flag, or the
/// flag with a value other than `false`.
pub open spec fn flag_on(arg: Seq<char>, flag: Seq<char>) -> bool {
    arg == flag || (has_prefix(arg, flag + "="@) && arg.skip(flag.len() + 1int) != "false"@)
}

/// Whether `why` asks for JSON or parseable output, itself or through the
/// package manager's own flags after `--`.
pub open spec fn why_machine_readable(a: WhyArgs) -> bool {
    a.json || a.parseable || exists|i: int|
        0 <= i < a.pass_through_args@.len() && (flag_on(
            #[trigger] a.pass_through_args@[i]@,
            "--json"@,
        ) || flag_on(a.pass_through_args@[i]@, "--parseable"@))
}

pub open spec fn pm_quiet_spec(c: PmCommand) -> bool {
    match c {
        PmCommand::List(a) => a.json || a.parseable,
        PmCommand::Pack { json } => json,
        PmCommand::View { json } => json,
        PmCommand::Version { json } => json,
        PmCommand::Publish { json } => json,
        PmCommand::Audit { json } => json,
        PmCommand::Search { json } => json,
        PmCommand::Fund { json } => json,
        PmCommand::Config(cc) => match cc {
            ConfigCommand::List { json } | ConfigCommand::Get { json } | ConfigCommand::Assign { json } => json,
            ConfigCommand::Delete => false,
        },
        PmCommand::Token(t) => match t {
            TokenCommand::List { json } | TokenCommand::Create { json } => json,
            TokenCommand::Revoke => false,
        },
        PmCommand::Stage(s) => match s {
            StageCommand::Publish { json } | StageCommand::List { json } | StageCommand::View {
                json,
            } => json,
            _ => false,
        },
        _ => false,
    }
}

/// Whether informational output would pollute the requested output.
pub open spec fn quiet_spec(c: PackageManagerCommand) -> bool {
    match c {
        PackageManagerCommand::Install(a) => a.silent,
        PackageManagerCommand::Dlx(a) => a.silent,
        PackageManagerCommand::Outdated(a) => a.format == Some(OutdatedFormat::Json) || a.format == Some(
            OutdatedFormat::List,
        ),
        PackageManagerCommand::Why(a) => why_machine_readable(a),
        PackageManagerCommand::Info { json } => json,
        PackageManagerCommand::Pm(p) => pm_quiet_spec(p),
        _ => false,
    }
}

fn clone_strings(v: &Vec<String>) -> (res: Vec<String>)
    ensures
        res@ == v@,
{
    let mut out: Vec<String> = Vec::new();
    let mut i: usize = 0;
    while i < v.len()
        invariant
            i <= v@.len(),
            out@ == v@.take(i as int),
        decreases v@.len() - i,
    {
        out.push(v[i].clone());
        proof {
            assert(v@.take(i + 1) =~= v@.take(i as int).push(v@[i as int]));
        }
        i += 1;
    }
    proof {
        assert(v@.take(v@.len() as int) =~= v@);
    }
    out
}

fn clone_opt(o: &Option<String>) -> (res: Option<String>)
    ensures
        res == *o,
{
    match o {
        Some(s) => Some(s.clone()),
        None => None,
    }
}

fn flag_on_exec(arg: &str, flag: &str) -> (res: bool)
    ensures
        res == flag_on(arg@, flag@),
{
    let a = str_chars(arg);
    let f = str_chars(flag);
    if crate::text::chars_eq(a.as_slice(), f.as_slice()) {
        return true;
    }
    let mut p = str_chars(flag);
    p.push('=');
    proof {
        assert(p@ =~= flag@ + "="@) by {
            reveal_strlit("=");
        }
    }
    if !starts_with(a.as_slice(), p.as_slice()) {
        return false;
    }
    let value = sub_chars(a.as_slice(), p.len(), a.len());
    proof {
        assert(value@ =~= arg@.skip(flag@.len() + 1int));
    }
    !crate::text::chars_eq(value.as_slice(), str_chars("false").as_slice())
}

impl WhyArgs {
    /// Whether `why` asks for JSON or parseable output.
    pub fn is_machine_readable(&self) -> (res: bool)
        ensures
            res == why_machine_readable(*self),
    {
        if self.json || self.parseable {
            return true;
        }
        let mut i: usize = 0;
        while i < self.pass_through_args.len()
            invariant
                i <= self.pass_through_args@.len(),
                forall|j: int|
                    0 <= j < i ==> !flag_on(#[trigger] self.pass_through_args@[j]@, "--json"@)
                        && !flag_on(self.pass_through_args@[j]@, "--parseable"@),
            decreases self.pass_through_args@.len() - i,
        {
            let a = self.pass_through_args[i].as_str();
            if flag_on_exec(a, "--json") || flag_on_exec(a, "--parseable") {
                return true;
            }
            i += 1;
        }
        false
    }
}

impl PackageManagerCommand {
    /// A `dlx` command built without the parser.
    pub fn dlx(package: Vec<String>, shell_mode: bool, silent: bool, args: Vec<String>) -> (res: Self)
        ensures
            res == PackageManagerCommand::Dlx(DlxArgs { package, shell_mode, silent, args }),
    {
        PackageManagerCommand::Dlx(DlxArgs { package, shell_mode, silent, args })
    }

    /// The values the managed global-package dispatcher needs; `None` when
    /// the normal package-manager dispatch applies.
    pub fn managed_global_command(&self) -> (res: Option<ManagedGlobalCommand>)
        ensures
            match res {
                Some(m) => managed_global_spec(*self) == Some(m@),
                None => managed_global_spec(*self) is None,
            },
    {
        match self {
            PackageManagerCommand::Install(a) => if a.global {
                Some(
                    ManagedGlobalCommand::Install {
                        packages: clone_strings(&a.packages),
                        node: clone_opt(&a.node),
                        force: a.force,
                        concurrency: a.concurrency,
                    },
                )
            } else {
                None
            },
            PackageManagerCommand::Add(a) => if a.global {
                Some(
                    ManagedGlobalCommand::Install {
                        packages: clone_strings(&a.packages),
                        node: clone_opt(&a.node),
                        force: false,
                        concurrency: a.concurrency,
                    },
                )
            } else {
                None
            },
            PackageManagerCommand::Remove(a) => if a.global {
                Some(ManagedGlobalCommand::Remove { packages: clone_strings(&a.packages), dry_run: a.dry_run })
            } else {
                None
            },
            PackageManagerCommand::Update(a) => if a.global {
                Some(
                    ManagedGlobalCommand::Update {
                        packages: clone_strings(&a.packages),
                        latest: a.latest,
                        concurrency: a.concurrency,
                        reinstall_node_mismatch: a.reinstall_node_mismatch,
                        ignore_node_mismatch: a.ignore_node_mismatch,
                    },
                )
            } else {
                None
            },
            PackageManagerCommand::Outdated(a) => if a.global {
                Some(
                    ManagedGlobalCommand::Outdated {
                        packages: clone_strings(&a.packages),
                        long: a.long,
                        format: a.format,
                        concurrency: a.concurrency,
                    },
                )
            } else {
                None
            },
            PackageManagerCommand::Pm(PmCommand::List(a)) => if a.global {
                Some(ManagedGlobalCommand::List { json: a.json, pattern: clone_opt(&a.pattern) })
            } else {
                None
            },
            _ => None,
        }
    }

    /// Whether this command goes to Vite+'s managed global-package store.
    pub fn is_managed_global(&self) -> (res: bool)
        ensures
            res == managed_global_spec(*self) is Some,
    {
        self.managed_global_command().is_some()
    }

    /// Whether normal informational output would corrupt or pollute the
    /// command's requested output format.
    pub fn is_quiet_or_machine_readable(&self) -> (res: bool)
        ensures
            res == quiet_spec(*self),
    {
        match self {
            PackageManagerCommand::Install(a) => a.silent,
            PackageManagerCommand::Dlx(a) => a.silent,
            PackageManagerCommand::Outdated(a) => match a.format {
                Some(OutdatedFormat::Json) | Some(OutdatedFormat::List) => true,
                _ => false,
            },
            PackageManagerCommand::Why(a) => a.is_machine_readable(),
            PackageManagerCommand::Info { json } => *json,
            PackageManagerCommand::Pm(p) => p.is_quiet_or_machine_readable(),
            _ => false,
        }
    }

    /// Whether compatibility diagnostics are shown: all but an explicitly
    /// silent `install` or `dlx` (machine-readable output goes to stdout,
    /// diagnostics to stderr).
    pub fn should_render_diagnostics(&self) -> (res: bool)
        ensures
            res == match *self {
                PackageManagerCommand::Install(a) => !a.silent,
                PackageManagerCommand::Dlx(a) => !a.silent,
                _ => true,
            },
    {
        match self {
            PackageManagerCommand::Install(a) => !a.silent,
            PackageManagerCommand::Dlx(a) => !a.silent,
            _ => true,
        }
    }

    /// The `--silent` value of `install`, `None` for other commands.
    pub fn install_silent(&self) -> (res: Option<bool>)
        ensures
            res == match *self {
                PackageManagerCommand::Install(a) => Some(a.silent),
                _ => None,
            },
    {
        match self {
            PackageManagerCommand::Install(a) => Some(a.silent),
            _ => None,
        }
    }

    /// The packages that the Vite+ toolchain hint after `why` names: none
    /// for other commands or machine-readable output; under yarn only the
    /// first package (none when there is none), else all of them.
    pub fn why_hint_packages(&self, manager: PackageManagerType) -> (res: Option<Vec<String>>)
        ensures
            match *self {
                PackageManagerCommand::Why(a) => if why_machine_readable(a) {
                    res is None
                } else if manager == PackageManagerType::Yarn {
                    if a.packages@.len() >= 1 {
                        res matches Some(v) && v@ == a.packages@.take(1)
                    } else {
                        res is None
                    }
                } else {
                    res matches Some(v) && v@ == a.packages@
                },
                _ => res is None,
            },
    {
        match self {
            PackageManagerCommand::Why(a) => {
                let yarn = match manager {
                    PackageManagerType::Yarn => true,
                    _ => false,
                };
                if a.is_machine_readable() {
                    None
                } else if yarn {
                    if a.packages.len() >= 1 {
                        let mut first: Vec<String> = Vec::new();
                        first.push(a.packages[0].clone());
                        proof {
                            assert(first@ =~= a.packages@.take(1));
                        }
                        Some(first)
                    } else {
                        None
                    }
                } else {
                    Some(clone_strings(&a.packages))
                }
            },
            _ => None,
        }
    }
}

impl PmCommand {
    /// Whether a `vp pm` subcommand asks for JSON or parseable output.
    pub fn is_quiet_or_machine_readable(&self) -> (res: bool)
        ensures
            res == pm_quiet_spec(*self),
    {
        match self {
            PmCommand::List(a) => a.json || a.parseable,
            PmCommand::Pack { json } => *json,
            PmCommand::View { json } => *json,
            PmCommand::Version { json } => *json,
            PmCommand::Publish { json } => *json,
            PmCommand::Audit { json } => *json,
            PmCommand::Search { json } => *json,
            PmCommand::Fund { json } => *json,
            PmCommand::Config(cc) => match cc {
                ConfigCommand::List { json } | ConfigCommand::Get { json } | ConfigCommand::Assign {
                    json,
                } => *json,
                ConfigCommand::Delete => false,
            },
            PmCommand::Token(t) => match t {
                TokenCommand::List { json } | TokenCommand::Create { json } => *json,
                TokenCommand::Revoke => false,
            },
            PmCommand::Stage(s) => match s {
                StageCommand::Publish { json } | StageCommand::List { json } | StageCommand::View {
                    json,
                } => *json,
                _ => false,
            },
            _ => false,
        }
    }
}

/// A managed global command is exactly a command with `-g` of those the
/// store handles: `install`, `add`, `remove`, `update`, `outdated` and
/// `pm list`.
pub proof fn law_managed_global_needs_the_global_flag(c: PackageManagerCommand)
    ensures
        managed_global_spec(c) is Some <==> match c {
            PackageManagerCommand::Install(a) => a.global,
            PackageManagerCommand::Add(a) => a.global,
            PackageManagerCommand::Remove(a) => a.global,
            PackageManagerCommand::Update(a) => a.global,
            PackageManagerCommand::Outdated(a) => a.global,
            PackageManagerCommand::Pm(PmCommand::List(a)) => a.global,
            _ => false,
        },
{
}

} // verus!
