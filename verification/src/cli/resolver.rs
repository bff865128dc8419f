//! What a built-in subcommand resolves to: the program, its arguments, its
//! cache settings and its environment, given the entry point that the
//! JavaScript side resolved for the subcommand's tool.
use vstd::prelude::*;

use crate::cli::help::{prepends_run, should_prepend_vitest_run};
use crate::cli::types::{command_name_text, SynthesizableSubcommand};
use crate::pm::{clone_strings, strs};

verus! {

/// The JavaScript-side tool whose entry point a subcommand runs.
#[derive(Debug, Clone, Copy, PartialEq, Eq)]
pub enum Tool {
    Lint,
    Fmt,
    Vite,
    Test,
    Pack,
    Doc,
}

pub open spec fn tool_spec(s: SynthesizableSubcommand) -> Option<Tool> {
    match s {
        SynthesizableSubcommand::Lint { .. } => Some(Tool::Lint),
        SynthesizableSubcommand::Fmt { .. } => Some(Tool::Fmt),
        SynthesizableSubcommand::Build { .. } => Some(Tool::Vite),
        SynthesizableSubcommand::Test { .. } => Some(Tool::Test),
        SynthesizableSubcommand::Pack { .. } => Some(Tool::Pack),
        SynthesizableSubcommand::Dev { .. } => Some(Tool::Vite),
        SynthesizableSubcommand::Preview { .. } => Some(Tool::Vite),
        SynthesizableSubcommand::Doc { .. } => Some(Tool::Doc),
        _ => None,
    }
}

/// The tool a subcommand runs; `check` and `install` run none.
pub fn tool_for(subcommand: &SynthesizableSubcommand) -> (res: Option<Tool>)
    ensures
        res == tool_spec(*subcommand),
{
    match subcommand {
        SynthesizableSubcommand::Lint { .. } => Some(Tool::Lint),
        SynthesizableSubcommand::Fmt { .. } => Some(Tool::Fmt),
        SynthesizableSubcommand::Build { .. } => Some(Tool::Vite),
        SynthesizableSubcommand::Test { .. } => Some(Tool::Test),
        SynthesizableSubcommand::Pack { .. } => Some(Tool::Pack),
        SynthesizableSubcommand::Dev { .. } => Some(Tool::Vite),
        SynthesizableSubcommand::Preview { .. } => Some(Tool::Vite),
        SynthesizableSubcommand::Doc { .. } => Some(Tool::Doc),
        _ => None,
    }
}

/// Whether resolving the subcommand reads the project's Vite config (lint
/// and fmt pass its path to the tool).
pub fn needs_vite_config(subcommand: &SynthesizableSubcommand) -> (res: bool)
    ensures
        res == (*subcommand is Lint || *subcommand is Fmt),
{
    match subcommand {
        SynthesizableSubcommand::Lint { .. } | SynthesizableSubcommand::Fmt { .. } => true,
        _ => false,
    }
}

/// What the resolved Vite config says that resolution uses: its file, and
/// whether it has a `lint` and an `fmt` section.
#[derive(Debug, Clone)]
pub struct ViteConfigFacts {
    pub config_file: Option<String>,
    pub has_lint: bool,
    pub has_fmt: bool,
}

/// Where a cache input glob is rooted.
#[derive(Debug, Clone, Copy, PartialEq, Eq)]
pub enum InputBase {
    Workspace,
    Package,
}

/// A cache input: the automatic inputs, or a glob.
#[derive(Debug, Clone)]
pub enum InputEntry {
    Auto,
    Glob(String, InputBase),
}

/// The cache settings of a resolved subcommand.
#[derive(Debug, Clone)]
pub enum CacheConfig {
    Disabled,
    Enabled { env: Option<Vec<String>>, input: Option<Vec<InputEntry>> },
}

pub enum InputModel {
    Auto,
    Glob(Seq<char>, InputBase),
}

pub enum CacheModel {
    Disabled,
    Enabled { env: Option<Seq<Seq<char>>>, input: Option<Seq<InputModel>> },
}

pub open spec fn input_view(e: InputEntry) -> InputModel {
    match e {
        InputEntry::Auto => InputModel::Auto,
        InputEntry::Glob(p, b) => InputModel::Glob(p@, b),
    }
}

pub open spec fn cache_view(c: CacheConfig) -> CacheModel {
    match c {
        CacheConfig::Disabled => CacheModel::Disabled,
        CacheConfig::Enabled { env, input } => CacheModel::Enabled {
            env: match env {
                Some(v) => Some(strs(v@)),
                None => None,
            },
            input: match input {
                Some(v) => Some(v@.map_values(|e: InputEntry| input_view(e))),
                None => None,
            },
        },
    }
}

/// Build and pack inputs: all but the config temp files and `dist`.
pub open spec fn build_pack_inputs() -> Seq<InputModel> {
    seq![
        InputModel::Auto,
        InputModel::Glob("!node_modules/.vite-temp/**"@, InputBase::Workspace),
        InputModel::Glob("!node_modules/.vite-temp/**"@, InputBase::Package),
        InputModel::Glob("!dist/**"@, InputBase::Package),
    ]
}

/// Test inputs: all but the config temp files and vitest's results.
pub open spec fn test_inputs() -> Seq<InputModel> {
    seq![
        InputModel::Auto,
        InputModel::Glob("!node_modules/.vite-temp/**"@, InputBase::Package),
        InputModel::Glob("!node_modules/.vite/vitest/**/results.json"@, InputBase::Package),
    ]
}

/// The inputs of the `vp check` task: all but the config temp files and
/// the task cache's own state.
pub open spec fn check_inputs() -> Seq<InputModel> {
    seq![
        InputModel::Auto,
        InputModel::Glob("!node_modules/.vite-temp/**"@, InputBase::Workspace),
        InputModel::Glob("!node_modules/.vite-temp/**"@, InputBase::Package),
        InputModel::Glob("!node_modules/.vite/task-cache/**"@, InputBase::Workspace),
        InputModel::Glob("!node_modules/.vite/task-cache/**"@, InputBase::Package),
    ]
}

fn glob(pattern: &str, base: InputBase) -> (res: InputEntry)
    ensures
        input_view(res) == InputModel::Glob(pattern@, base),
{
    InputEntry::Glob(String::from_str(pattern), base)
}

fn push_input(v: &mut Vec<InputEntry>, e: InputEntry)
    ensures
        final(v)@.map_values(|x: InputEntry| input_view(x)) == old(v)@.map_values(
            |x: InputEntry| input_view(x),
        ).push(input_view(e)),
{
    let ghost before = v@;
    v.push(e);
    proof {
        assert(v@.map_values(|x: InputEntry| input_view(x)) =~= before.map_values(
            |x: InputEntry| input_view(x),
        ).push(input_view(e)));
    }
}

fn build_pack_cache_inputs() -> (res: Vec<InputEntry>)
    ensures
        res@.map_values(|x: InputEntry| input_view(x)) == build_pack_inputs(),
{
    let mut v: Vec<InputEntry> = Vec::new();
    push_input(&mut v, InputEntry::Auto);
    push_input(&mut v, glob("!node_modules/.vite-temp/**", InputBase::Workspace));
    push_input(&mut v, glob("!node_modules/.vite-temp/**", InputBase::Package));
    push_input(&mut v, glob("!dist/**", InputBase::Package));
    proof {
        assert(v@.map_values(|x: InputEntry| input_view(x)) =~= build_pack_inputs());
    }
    v
}

fn test_cache_inputs() -> (res: Vec<InputEntry>)
    ensures
        res@.map_values(|x: InputEntry| input_view(x)) == test_inputs(),
{
    let mut v: Vec<InputEntry> = Vec::new();
    push_input(&mut v, InputEntry::Auto);
    push_input(&mut v, glob("!node_modules/.vite-temp/**", InputBase::Package));
    push_input(&mut v, glob("!node_modules/.vite/vitest/**/results.json", InputBase::Package));
    proof {
        assert(v@.map_values(|x: InputEntry| input_view(x)) =~= test_inputs());
    }
    v
}

/// The cache inputs of the `vp check` task.
pub fn check_cache_inputs() -> (res: Vec<InputEntry>)
    ensures
        res@.map_values(|x: InputEntry| input_view(x)) == check_inputs(),
{
    let mut v: Vec<InputEntry> = Vec::new();
    push_input(&mut v, InputEntry::Auto);
    push_input(&mut v, glob("!node_modules/.vite-temp/**", InputBase::Workspace));
    push_input(&mut v, glob("!node_modules/.vite-temp/**", InputBase::Package));
    push_input(&mut v, glob("!node_modules/.vite/task-cache/**", InputBase::Workspace));
    push_input(&mut v, glob("!node_modules/.vite/task-cache/**", InputBase::Package));
    proof {
        assert(v@.map_values(|x: InputEntry| input_view(x)) =~= check_inputs());
    }
    v
}

// ---------------------------------------------------------------------------
// Environments.
// ---------------------------------------------------------------------------

/// The variables of an environment list (a later entry replaces an earlier
/// one of the same name).
pub open spec fn env_of(env: Seq<(String, String)>) -> Map<Seq<char>, Seq<char>>
    decreases env.len(),
{
    if env.len() == 0 {
        Map::empty()
    } else {
        env_of(env.drop_last()).insert(env.last().0@, env.last().1@)
    }
}

/// No name occurs twice.
pub open spec fn distinct_names(env: Seq<(String, String)>) -> bool {
    forall|i: int, j: int| 0 <= i < j < env.len() ==> (#[trigger] env[i]).0@ != (#[trigger] env[j]).0@
}

/// The variables `extra` adds where their names are not set yet, in order
/// (the first of two entries with the same name wins).
pub open spec fn merged_env(base: Map<Seq<char>, Seq<char>>, extra: Seq<(String, String)>) -> Map<
    Seq<char>,
    Seq<char>,
>
    decreases extra.len(),
{
    if extra.len() == 0 {
        base
    } else {
        let prev = merged_env(base, extra.drop_last());
        if prev.dom().contains(extra.last().0@) {
            prev
        } else {
            prev.insert(extra.last().0@, extra.last().1@)
        }
    }
}

proof fn lemma_env_of_dom(env: Seq<(String, String)>)
    ensures
        forall|k: Seq<char>|
            #[trigger] env_of(env).dom().contains(k) <==> exists|i: int|
                0 <= i < env.len() && (#[trigger] env[i]).0@ == k,
    decreases env.len(),
{
    if env.len() > 0 {
        lemma_env_of_dom(env.drop_last());
        assert forall|k: Seq<char>| #[trigger]
            env_of(env).dom().contains(k) <==> exists|i: int|
                0 <= i < env.len() && (#[trigger] env[i]).0@ == k by {
            if env_of(env).dom().contains(k) {
                if k == env.last().0@ {
                    assert(env[env.len() - 1].0@ == k);
                } else {
                    assert(env_of(env.drop_last()).dom().contains(k));
                    let i = choose|i: int|
                        0 <= i < env.drop_last().len() && (#[trigger] env.drop_last()[i]).0@ == k;
                    assert(env.drop_last()[i] == env[i]);
                }
            }
            if exists|i: int| 0 <= i < env.len() && (#[trigger] env[i]).0@ == k {
                let i = choose|i: int| 0 <= i < env.len() && (#[trigger] env[i]).0@ == k;
                if i < env.len() - 1 {
                    assert(env.drop_last()[i] == env[i]);
                    assert(env_of(env.drop_last()).dom().contains(k));
                }
            }
        }
    }
}

proof fn lemma_env_of_update(env: Seq<(String, String)>, i: int, e: (String, String))
    requires
        distinct_names(env),
        0 <= i < env.len(),
        e.0@ == env[i].0@,
    ensures
        env_of(env.update(i, e)) == env_of(env).insert(e.0@, e.1@),
        distinct_names(env.update(i, e)),
    decreases env.len(),
{
    let u = env.update(i, e);
    if i == env.len() - 1 {
        assert(u.drop_last() =~= env.drop_last());
    } else {
        assert(u.drop_last() =~= env.drop_last().update(i, e));
        lemma_env_of_update(env.drop_last(), i, e);
        lemma_env_of_dom(env.drop_last());
        assert(env.last().0@ != e.0@) by {
            assert(env[i].0@ != env[env.len() - 1].0@);
        }
        assert(env_of(u) =~= env_of(env).insert(e.0@, e.1@));
    }
    assert forall|a: int, b: int| 0 <= a < b < u.len() implies (#[trigger] u[a]).0@ != (#[trigger] u[b]).0@ by {
        assert(env[a].0@ != env[b].0@);
    }
}

/// What an environment list gives for a name: the value of its entry.
pub proof fn lemma_env_of_lookup(env: Seq<(String, String)>, k: Seq<char>)
    requires
        distinct_names(env),
    ensures
        forall|i: int|
            0 <= i < env.len() && (#[trigger] env[i]).0@ == k ==> env_of(env).dom().contains(k)
                && env_of(env)[k] == env[i].1@,
        (forall|i: int| 0 <= i < env.len() ==> (#[trigger] env[i]).0@ != k) ==> !env_of(
            env,
        ).dom().contains(k),
    decreases env.len(),
{
    if env.len() > 0 {
        let rest = env.drop_last();
        assert(distinct_names(rest)) by {
            assert forall|a: int, b: int| 0 <= a < b < rest.len() implies (#[trigger] rest[a]).0@
                != (#[trigger] rest[b]).0@ by {
                assert(rest[a] == env[a] && rest[b] == env[b]);
            }
        }
        lemma_env_of_lookup(rest, k);
        assert forall|i: int| 0 <= i < env.len() && (#[trigger] env[i]).0@ == k implies env_of(
            env,
        ).dom().contains(k) && env_of(env)[k] == env[i].1@ by {
            if i < env.len() - 1 {
                assert(rest[i] == env[i]);
                assert(env[i].0@ != env[env.len() - 1].0@);
            }
        }
        if forall|i: int| 0 <= i < env.len() ==> (#[trigger] env[i]).0@ != k {
            assert forall|i: int| 0 <= i < rest.len() implies (#[trigger] rest[i]).0@ != k by {
                assert(rest[i] == env[i]);
            }
            assert(env[env.len() - 1].0@ != k);
        }
    }
}

pub(crate) fn find_env(env: &Vec<(String, String)>, name: &String) -> (res: Option<usize>)
    ensures
        match res {
            Some(i) => i < env@.len() && env@[i as int].0@ == name@,
            None => forall|i: int| 0 <= i < env@.len() ==> (#[trigger] env@[i]).0@ != name@,
        },
{
    let mut i: usize = 0;
    while i < env.len()
        invariant
            i <= env@.len(),
            forall|j: int| 0 <= j < i ==> (#[trigger] env@[j]).0@ != name@,
        decreases env@.len() - i,
    {
        if env[i].0 == *name {
            return Some(i);
        }
        i += 1;
    }
    None
}

/// Sets `name` to `value` unless it is set.
fn env_or_insert(env: &mut Vec<(String, String)>, name: &String, value: &String)
    requires
        distinct_names(old(env)@),
    ensures
        distinct_names(final(env)@),
        env_of(final(env)@) == (if env_of(old(env)@).dom().contains(name@) {
            env_of(old(env)@)
        } else {
            env_of(old(env)@).insert(name@, value@)
        }),
{
    proof {
        lemma_env_of_dom(env@);
    }
    match find_env(env, name) {
        Some(_) => {},
        None => {
            let ghost before = env@;
            env.push((name.clone(), value.clone()));
            proof {
                assert(env@.drop_last() =~= before);
                assert forall|a: int, b: int| 0 <= a < b < env@.len() implies (#[trigger] env@[a]).0@
                    != (#[trigger] env@[b]).0@ by {
                    if b == env@.len() - 1 {
                        assert(before[a].0@ != name@);
                    } else {
                        assert(before[a].0@ != before[b].0@);
                    }
                }
            }
        },
    }
}

/// Sets `name` to `value`.
pub(crate) fn env_insert(env: &mut Vec<(String, String)>, name: &String, value: &String)
    requires
        distinct_names(old(env)@),
    ensures
        distinct_names(final(env)@),
        env_of(final(env)@) == env_of(old(env)@).insert(name@, value@),
{
    match find_env(env, name) {
        Some(i) => {
            let ghost before = env@;
            env.set(i, (name.clone(), value.clone()));
            proof {
                lemma_env_of_update(before, i as int, env@[i as int]);
            }
        },
        None => {
            let ghost before = env@;
            env.push((name.clone(), value.clone()));
            proof {
                assert(env@.drop_last() =~= before);
                assert forall|a: int, b: int| 0 <= a < b < env@.len() implies (#[trigger] env@[a]).0@
                    != (#[trigger] env@[b]).0@ by {
                    if b == env@.len() - 1 {
                        assert(before[a].0@ != name@);
                    } else {
                        assert(before[a].0@ != before[b].0@);
                    }
                }
            }
        },
    }
}

fn clone_env(env: &Vec<(String, String)>) -> (res: Vec<(String, String)>)
    ensures
        res@ == env@,
{
    let mut out: Vec<(String, String)> = Vec::new();
    let mut i: usize = 0;
    while i < env.len()
        invariant
            i <= env@.len(),
            out@ == env@.take(i as int),
        decreases env@.len() - i,
    {
        out.push((env[i].0.clone(), env[i].1.clone()));
        proof {
            assert(env@.take(i + 1) =~= env@.take(i as int).push(env@[i as int]));
        }
        i += 1;
    }
    proof {
        assert(env@.take(env@.len() as int) =~= env@);
    }
    out
}

/// The environment with the resolved variables added where unset.
pub fn merge_resolved_envs(envs: &Vec<(String, String)>, resolved: &Vec<(String, String)>) -> (res: Vec<
    (String, String),
>)
    requires
        distinct_names(envs@),
    ensures
        distinct_names(res@),
        env_of(res@) == merged_env(env_of(envs@), resolved@),
{
    let mut out = clone_env(envs);
    let mut i: usize = 0;
    while i < resolved.len()
        invariant
            i <= resolved@.len(),
            distinct_names(out@),
            env_of(out@) == merged_env(env_of(envs@), resolved@.take(i as int)),
        decreases resolved@.len() - i,
    {
        env_or_insert(&mut out, &resolved[i].0, &resolved[i].1);
        proof {
            assert(resolved@.take(i + 1).drop_last() =~= resolved@.take(i as int));
        }
        i += 1;
    }
    proof {
        assert(resolved@.take(resolved@.len() as int) =~= resolved@);
    }
    out
}

/// As `merge_resolved_envs`, and `VP_VERSION` set to `version` where unset
/// (the branding of rolldown-vite).
pub open spec fn merged_env_with_version(
    base: Map<Seq<char>, Seq<char>>,
    extra: Seq<(String, String)>,
    version: Seq<char>,
) -> Map<Seq<char>, Seq<char>> {
    let m = merged_env(base, extra);
    if m.dom().contains("VP_VERSION"@) {
        m
    } else {
        m.insert("VP_VERSION"@, version)
    }
}

pub fn merge_resolved_envs_with_version(
    envs: &Vec<(String, String)>,
    resolved: &Vec<(String, String)>,
    version: &str,
) -> (res: Vec<(String, String)>)
    requires
        distinct_names(envs@),
    ensures
        distinct_names(res@),
        env_of(res@) == merged_env_with_version(env_of(envs@), resolved@, version@),
{
    let mut out = merge_resolved_envs(envs, resolved);
    env_or_insert(&mut out, &String::from_str("VP_VERSION"), &String::from_str(version));
    out
}

// ---------------------------------------------------------------------------
// Resolution.
// ---------------------------------------------------------------------------

/// A resolved subcommand: the program with its arguments, cache settings and
/// environment.
#[derive(Debug, Clone)]
pub struct ResolvedPlan {
    pub program: String,
    pub args: Vec<String>,
    pub cache: CacheConfig,
    pub envs: Vec<(String, String)>,
}

/// Why a subcommand does not resolve to one program.
#[derive(Debug, Clone, Copy, PartialEq, Eq)]
pub enum ResolveError {
    /// `check` runs the formatter and the linter in turn.
    Composite,
    /// `install` goes to the package manager.
    PackageManager,
    /// The tool resolvers are not available (running without NAPI).
    NoCliOptions,
}

impl ResolveError {
    pub fn message(&self) -> (res: &'static str)
        ensures
            res@ == (match *self {
                ResolveError::Composite => "Check is a composite command and cannot be resolved to a single subcommand"@,
                ResolveError::PackageManager => "Install is resolved by the package manager"@,
                ResolveError::NoCliOptions => "CLI options not available (running without NAPI?)"@,
            }),
    {
        match self {
            ResolveError::Composite => "Check is a composite command and cannot be resolved to a single subcommand",
            ResolveError::PackageManager => "Install is resolved by the package manager",
            ResolveError::NoCliOptions => "CLI options not available (running without NAPI?)",
        }
    }
}

/// `-c <config file>` when the config has the tool's section and a file.
pub open spec fn config_args(has_section: bool, config_file: Option<String>) -> Seq<Seq<char>> {
    match config_file {
        Some(f) => if has_section {
            seq!["-c"@, f@]
        } else {
            seq![]
        },
        None => seq![],
    }
}

/// The arguments of `node` for a subcommand with entry point `js`.
pub open spec fn plan_args(s: SynthesizableSubcommand, js: Seq<char>, c: ViteConfigFacts) -> Seq<
    Seq<char>,
> {
    match s {
        SynthesizableSubcommand::Lint { args } => seq![
            "--disable-warning=MODULE_TYPELESS_PACKAGE_JSON"@,
            js,
        ] + config_args(c.has_lint, c.config_file) + strs(args@),
        SynthesizableSubcommand::Fmt { args } => seq![js] + config_args(c.has_fmt, c.config_file)
            + strs(args@),
        SynthesizableSubcommand::Build { args } => seq![js, "build"@] + strs(args@),
        SynthesizableSubcommand::Test { args } => seq![js] + (if prepends_run(strs(args@)) {
            seq!["run"@]
        } else {
            seq![]
        }) + strs(args@),
        SynthesizableSubcommand::Pack { args } => seq![js] + strs(args@),
        SynthesizableSubcommand::Dev { args } => seq![js, "dev"@] + strs(args@),
        SynthesizableSubcommand::Preview { args } => seq![js, "preview"@] + strs(args@),
        SynthesizableSubcommand::Doc { args } => seq![js] + strs(args@),
        _ => seq![],
    }
}

/// The node command line of the Vite commands: the tool's entry point,
/// then the verb of the command (`build`, `dev`, `preview`), then the
/// user's arguments unchanged; `pack` and `doc` pass the arguments right
/// after the entry point.
pub proof fn law_vite_verbs(args: Vec<String>, js: Seq<char>, c: ViteConfigFacts)
    ensures
        ({
            let r = plan_args(SynthesizableSubcommand::Preview { args }, js, c);
            r.len() == args@.len() + 2 && r[0] == js && r[1] == "preview"@ && r.skip(2) == strs(args@)
        }),
        ({
            let r = plan_args(SynthesizableSubcommand::Dev { args }, js, c);
            r.len() == args@.len() + 2 && r[0] == js && r[1] == "dev"@ && r.skip(2) == strs(args@)
        }),
        ({
            let r = plan_args(SynthesizableSubcommand::Build { args }, js, c);
            r.len() == args@.len() + 2 && r[0] == js && r[1] == "build"@ && r.skip(2) == strs(args@)
        }),
        ({
            let r = plan_args(SynthesizableSubcommand::Pack { args }, js, c);
            r.len() == args@.len() + 1 && r[0] == js && r.skip(1) == strs(args@)
        }),
        ({
            let r = plan_args(SynthesizableSubcommand::Doc { args }, js, c);
            r.len() == args@.len() + 1 && r[0] == js && r.skip(1) == strs(args@)
        }),
{
    let a = strs(args@);
    assert(plan_args(SynthesizableSubcommand::Preview { args }, js, c).skip(2) =~= a);
    assert(plan_args(SynthesizableSubcommand::Dev { args }, js, c).skip(2) =~= a);
    assert(plan_args(SynthesizableSubcommand::Build { args }, js, c).skip(2) =~= a);
    assert(plan_args(SynthesizableSubcommand::Pack { args }, js, c).skip(1) =~= a);
    assert(plan_args(SynthesizableSubcommand::Doc { args }, js, c).skip(1) =~= a);
}

/// The cache settings of a subcommand.
pub open spec fn plan_cache(s: SynthesizableSubcommand) -> CacheModel {
    match s {
        SynthesizableSubcommand::Lint { .. } => CacheModel::Enabled {
            env: Some(seq!["OXLINT_TSGOLINT_PATH"@]),
            input: None,
        },
        SynthesizableSubcommand::Build { .. } => CacheModel::Enabled {
            env: Some(seq!["VITE_*"@]),
            input: Some(build_pack_inputs()),
        },
        SynthesizableSubcommand::Test { .. } => CacheModel::Enabled {
            env: None,
            input: Some(test_inputs()),
        },
        SynthesizableSubcommand::Pack { .. } => CacheModel::Enabled {
            env: None,
            input: Some(build_pack_inputs()),
        },
        SynthesizableSubcommand::Dev { .. } => CacheModel::Disabled,
        SynthesizableSubcommand::Preview { .. } => CacheModel::Disabled,
        _ => CacheModel::Enabled { env: None, input: None },
    }
}

/// The environment of a subcommand: the given one with the resolved
/// variables added where unset, `VP_VERSION` too except for pack and doc,
/// and `VP_COMMAND` set to the subcommand's name.
pub open spec fn plan_env(
    s: SynthesizableSubcommand,
    envs: Map<Seq<char>, Seq<char>>,
    resolved: Seq<(String, String)>,
    version: Seq<char>,
) -> Map<Seq<char>, Seq<char>> {
    (if s is Pack || s is Doc {
        merged_env(envs, resolved)
    } else {
        merged_env_with_version(envs, resolved, version)
    }).insert("VP_COMMAND"@, command_name_text(s))
}

fn prepend_all(front: Vec<String>, rest: &Vec<String>) -> (res: Vec<String>)
    ensures
        strs(res@) == strs(front@) + strs(rest@),
{
    let mut out = front;
    let ghost start = strs(out@);
    let mut i: usize = 0;
    while i < rest.len()
        invariant
            i <= rest@.len(),
            strs(out@) == start + strs(rest@.take(i as int)),
        decreases rest@.len() - i,
    {
        let ghost before = out@;
        out.push(rest[i].clone());
        proof {
            assert(strs(out@) =~= strs(before).push(rest@[i as int]@));
            assert(strs(rest@.take(i + 1)) =~= strs(rest@.take(i as int)).push(rest@[i as int]@));
        }
        i += 1;
    }
    proof {
        assert(rest@.take(rest@.len() as int) =~= rest@);
    }
    out
}

fn lead(parts: &[&str]) -> (res: Vec<String>)
    ensures
        strs(res@) == parts@.map_values(|s: &str| s@),
{
    let mut out: Vec<String> = Vec::new();
    let mut i: usize = 0;
    while i < parts.len()
        invariant
            i <= parts@.len(),
            strs(out@) == parts@.take(i as int).map_values(|s: &str| s@),
        decreases parts@.len() - i,
    {
        let ghost before = out@;
        out.push(String::from_str(parts[i]));
        proof {
            assert(strs(out@) =~= strs(before).push(parts@[i as int]@));
            assert(parts@.take(i + 1).map_values(|s: &str| s@) =~= parts@.take(i as int).map_values(
                |s: &str| s@,
            ).push(parts@[i as int]@));
        }
        i += 1;
    }
    proof {
        assert(parts@.take(parts@.len() as int) =~= parts@);
    }
    out
}

fn config_prefix(has_section: bool, config_file: &Option<String>) -> (res: Vec<String>)
    ensures
        strs(res@) == config_args(has_section, *config_file),
{
    let mut out: Vec<String> = Vec::new();
    match config_file {
        Some(f) => {
            if has_section {
                out.push(String::from_str("-c"));
                out.push(f.clone());
                proof {
                    assert(strs(out@) =~= seq!["-c"@, f@]);
                }
            } else {
                proof {
                    assert(strs(out@) =~= Seq::<Seq<char>>::empty());
                }
            }
        },
        None => {
            proof {
                assert(strs(out@) =~= Seq::<Seq<char>>::empty());
            }
        },
    }
    out
}

fn args_for(s: &SynthesizableSubcommand, js: &str, c: &ViteConfigFacts) -> (res: Vec<String>)
    requires
        tool_spec(*s) is Some,
    ensures
        strs(res@) == plan_args(*s, js@, *c),
{
    match s {
        SynthesizableSubcommand::Lint { args } => {
            let head = lead(&["--disable-warning=MODULE_TYPELESS_PACKAGE_JSON", js]);
            let withcfg = prepend_all(head, &config_prefix(c.has_lint, &c.config_file));
            let res = prepend_all(withcfg, args);
            proof {
                assert(strs(res@) =~= plan_args(*s, js@, *c));
            }
            res
        },
        SynthesizableSubcommand::Fmt { args } => {
            let head = lead(&[js]);
            let withcfg = prepend_all(head, &config_prefix(c.has_fmt, &c.config_file));
            let res = prepend_all(withcfg, args);
            proof {
                assert(strs(res@) =~= plan_args(*s, js@, *c));
            }
            res
        },
        SynthesizableSubcommand::Build { args } => {
            let res = prepend_all(lead(&[js, "build"]), args);
            proof {
                assert(strs(res@) =~= plan_args(*s, js@, *c));
            }
            res
        },
        SynthesizableSubcommand::Test { args } => {
            let head = if should_prepend_vitest_run(args.as_slice()) {
                lead(&[js, "run"])
            } else {
                lead(&[js])
            };
            let res = prepend_all(head, args);
            proof {
                assert(strs(res@) =~= plan_args(*s, js@, *c));
            }
            res
        },
        SynthesizableSubcommand::Pack { args } => {
            let res = prepend_all(lead(&[js]), args);
            proof {
                assert(strs(res@) =~= plan_args(*s, js@, *c));
            }
            res
        },
        SynthesizableSubcommand::Dev { args } => {
            let res = prepend_all(lead(&[js, "dev"]), args);
            proof {
                assert(strs(res@) =~= plan_args(*s, js@, *c));
            }
            res
        },
        SynthesizableSubcommand::Preview { args } => {
            let res = prepend_all(lead(&[js, "preview"]), args);
            proof {
                assert(strs(res@) =~= plan_args(*s, js@, *c));
            }
            res
        },
        SynthesizableSubcommand::Doc { args } => {
            let res = prepend_all(lead(&[js]), args);
            proof {
                assert(strs(res@) =~= plan_args(*s, js@, *c));
            }
            res
        },
        _ => Vec::new(),
    }
}

fn cache_for(s: &SynthesizableSubcommand) -> (res: CacheConfig)
    ensures
        cache_view(res) == plan_cache(*s),
{
    match s {
        SynthesizableSubcommand::Lint { .. } => {
            let env = lead(&["OXLINT_TSGOLINT_PATH"]);
            proof {
                assert(strs(env@) =~= seq!["OXLINT_TSGOLINT_PATH"@]);
            }
            CacheConfig::Enabled { env: Some(env), input: None }
        },
        SynthesizableSubcommand::Build { .. } => {
            let env = lead(&["VITE_*"]);
            proof {
                assert(strs(env@) =~= seq!["VITE_*"@]);
            }
            CacheConfig::Enabled { env: Some(env), input: Some(build_pack_cache_inputs()) }
        },
        SynthesizableSubcommand::Test { .. } => CacheConfig::Enabled {
            env: None,
            input: Some(test_cache_inputs()),
        },
        SynthesizableSubcommand::Pack { .. } => CacheConfig::Enabled {
            env: None,
            input: Some(build_pack_cache_inputs()),
        },
        SynthesizableSubcommand::Dev { .. } | SynthesizableSubcommand::Preview { .. } => CacheConfig::Disabled,
        _ => CacheConfig::Enabled { env: None, input: None },
    }
}

/// Resolves a subcommand whose tool's entry point is `js`, with the tool's
/// own environment variables `resolved`, into `node` with its arguments,
/// cache settings and environment. `check` and `install` do not resolve.
pub fn resolve_subcommand(
    subcommand: &SynthesizableSubcommand,
    js: &str,
    config: &ViteConfigFacts,
    envs: &Vec<(String, String)>,
    resolved: &Vec<(String, String)>,
    version: &str,
) -> (res: Result<ResolvedPlan, ResolveError>)
    requires
        distinct_names(envs@),
    ensures
        match res {
            Ok(p) => tool_spec(*subcommand) is Some && p.program@ == "node"@ && strs(p.args@)
                == plan_args(*subcommand, js@, *config) && cache_view(p.cache) == plan_cache(
                *subcommand,
            ) && distinct_names(p.envs@) && env_of(p.envs@) == plan_env(
                *subcommand,
                env_of(envs@),
                resolved@,
                version@,
            ),
            Err(e) => tool_spec(*subcommand) is None && e == (if *subcommand is Check {
                ResolveError::Composite
            } else {
                ResolveError::PackageManager
            }),
        },
{
    match subcommand {
        SynthesizableSubcommand::Check { .. } => return Err(ResolveError::Composite),
        SynthesizableSubcommand::Install { .. } => return Err(ResolveError::PackageManager),
        _ => {},
    }
    let args = args_for(subcommand, js, config);
    let cache = cache_for(subcommand);
    let with_version = match subcommand {
        SynthesizableSubcommand::Pack { .. } | SynthesizableSubcommand::Doc { .. } => false,
        _ => true,
    };
    let mut env = if with_version {
        merge_resolved_envs_with_version(envs, resolved, version)
    } else {
        merge_resolved_envs(envs, resolved)
    };
    env_insert(
        &mut env,
        &String::from_str("VP_COMMAND"),
        &String::from_str(subcommand.command_name()),
    );
    Ok(ResolvedPlan { program: String::from_str("node"), args, cache, envs: env })
}

/// Resolves a subcommand where the tool's entry point comes from the tool
/// resolvers, which are absent when running without NAPI (`js` is `None`):
/// `check` and `install` do not resolve, whatever the resolvers; any other
/// subcommand needs them, and then resolves as `resolve_subcommand` says.
pub fn resolve_with_tool_entry(
    subcommand: &SynthesizableSubcommand,
    js: Option<&str>,
    config: &ViteConfigFacts,
    envs: &Vec<(String, String)>,
    resolved: &Vec<(String, String)>,
    version: &str,
) -> (res: Result<ResolvedPlan, ResolveError>)
    requires
        distinct_names(envs@),
    ensures
        *subcommand is Check ==> res == Err::<ResolvedPlan, ResolveError>(ResolveError::Composite),
        *subcommand is Install ==> res == Err::<ResolvedPlan, ResolveError>(ResolveError::PackageManager),
        tool_spec(*subcommand) is Some && js is None ==> res == Err::<ResolvedPlan, ResolveError>(
            ResolveError::NoCliOptions,
        ),
        tool_spec(*subcommand) is Some && js is Some ==> (res matches Ok(p) && p.program@ == "node"@
            && strs(p.args@) == plan_args(*subcommand, js->0@, *config) && cache_view(p.cache)
            == plan_cache(*subcommand) && distinct_names(p.envs@) && env_of(p.envs@) == plan_env(
            *subcommand,
            env_of(envs@),
            resolved@,
            version@,
        )),
{
    match subcommand {
        SynthesizableSubcommand::Check { .. } => return Err(ResolveError::Composite),
        SynthesizableSubcommand::Install { .. } => return Err(ResolveError::PackageManager),
        _ => {},
    }
    match js {
        None => Err(ResolveError::NoCliOptions),
        Some(j) => resolve_subcommand(subcommand, j, config, envs, resolved, version),
    }
}

} // verus!
