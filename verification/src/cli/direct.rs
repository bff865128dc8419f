//! A built-in subcommand run directly (no task graph, no cache): which of
//! its output streams is filtered and how, and the environment its tool gets
//! (`PWD` after a retarget, the package manager's bin directory on `PATH`,
//! split and joined by the platform's conventions).
use vstd::prelude::*;

use crate::cli::help::{should_suppress_subcommand_stdout, suppresses_stdout};
use crate::cli::resolver::{distinct_names, env_insert, env_of, find_env};
use crate::cli::types::SynthesizableSubcommand;
use crate::dirs::{join, join_path};
use crate::path_env::JoinPathsError;
use crate::path_list::{
    entry_text, join_path_entries, join_paths, law_split_join_round_trip, lemma_same_path_refl,
    same_path, same_path_exec, split_path_list, split_paths, Platform,
};
use crate::text::{chars_eq, chars_to_string, joined, push_all, replace_all, replace_text, str_chars, views};

verus! {

/// How a direct subcommand runs.
#[derive(Debug, Clone, Copy, PartialEq, Eq)]
pub enum DirectRoute {
    /// `vp check` runs its own sequence of tools.
    Check,
    /// The tool runs with its stdout dropped (`lint --init`, `fmt --init`,
    /// `fmt --migrate`).
    SuppressStdout,
    /// The formatter runs with the `oxfmt --init` hint in its stderr
    /// rewritten as `vp fmt --init`.
    RewriteFmtHint,
    /// The tool runs as it is.
    Plain,
}

pub open spec fn route_spec(s: SynthesizableSubcommand) -> DirectRoute {
    match s {
        SynthesizableSubcommand::Check { .. } => DirectRoute::Check,
        _ => if suppresses_stdout(s) {
            DirectRoute::SuppressStdout
        } else if s is Fmt {
            DirectRoute::RewriteFmtHint
        } else {
            DirectRoute::Plain
        },
    }
}

pub fn direct_route(subcommand: &SynthesizableSubcommand) -> (res: DirectRoute)
    ensures
        res == route_spec(*subcommand),
{
    match subcommand {
        SynthesizableSubcommand::Check { .. } => DirectRoute::Check,
        _ => {
            if should_suppress_subcommand_stdout(subcommand) {
                DirectRoute::SuppressStdout
            } else if matches!(subcommand, SynthesizableSubcommand::Fmt { .. }) {
                DirectRoute::RewriteFmtHint
            } else {
                DirectRoute::Plain
            }
        },
    }
}

/// The output stream that a route filters.
#[derive(Debug, Clone, Copy, PartialEq, Eq)]
pub enum FilterStream {
    Stdout,
    Stderr,
}

pub fn filter_stream(route: DirectRoute) -> (res: Option<FilterStream>)
    ensures
        res == match route {
            DirectRoute::SuppressStdout => Some(FilterStream::Stdout),
            DirectRoute::RewriteFmtHint => Some(FilterStream::Stderr),
            _ => None,
        },
{
    match route {
        DirectRoute::SuppressStdout => Some(FilterStream::Stdout),
        DirectRoute::RewriteFmtHint => Some(FilterStream::Stderr),
        _ => None,
    }
}

pub open spec fn filtered_spec(route: DirectRoute, text: Seq<char>) -> Seq<char> {
    match route {
        DirectRoute::SuppressStdout => seq![],
        DirectRoute::RewriteFmtHint => replace_all(text, "oxfmt --init"@, "vp fmt --init"@),
        _ => text,
    }
}

/// The filtered text of the route's stream.
pub fn filter_output(route: DirectRoute, text: &str) -> (res: String)
    ensures
        res@ == filtered_spec(route, text@),
{
    match route {
        DirectRoute::SuppressStdout => String::new(),
        DirectRoute::RewriteFmtHint => {
            proof {
                reveal_strlit("oxfmt --init");
            }
            replace_text(text, "oxfmt --init", "vp fmt --init")
        },
        _ => String::from_str(text),
    }
}

fn clone_env(env: &Vec<(String, String)>) -> (res: Vec<(String, String)>)
    ensures
        res@ == env@,
{
    let mut out: Vec<(String, String)> = Vec::new();
    let mut i: usize = 0;
    while i < env.len()
        invariant
            i <= env@.len(),
            out@ == env@.take(i as int),
        decreases env@.len() - i,
    {
        out.push((env[i].0.clone(), env[i].1.clone()));
        proof {
            assert(env@.take(i + 1) =~= env@.take(i as int).push(env@[i as int]));
        }
        i += 1;
    }
    proof {
        assert(env@.take(env@.len() as int) =~= env@);
    }
    out
}

/// The environment of a direct run: the caller's, with `PWD` set to the
/// target directory when the command was retargeted there (like a `cd`),
/// which only Unix shells keep.
pub fn direct_envs(envs: Vec<(String, String)>, retargeted: bool, cwd: &str, platform: Platform) -> (res: Vec<
    (String, String),
>)
    requires
        distinct_names(envs@),
    ensures
        distinct_names(res@),
        env_of(res@) == (if platform == Platform::Unix && retargeted {
            env_of(envs@).insert("PWD"@, cwd@)
        } else {
            env_of(envs@)
        }),
{
    let mut out = envs;
    if platform == Platform::Unix && retargeted {
        env_insert(&mut out, &String::from_str("PWD"), &String::from_str(cwd));
    }
    out
}

/// Whether a variable's name is `PATH` on the platform: exactly on Unix,
/// ignoring ASCII case on Windows.
pub open spec fn is_path_key(p: Platform, k: Seq<char>) -> bool {
    match p {
        Platform::Unix => k == "PATH"@,
        Platform::Windows => k.len() == 4 && (k[0] == 'P' || k[0] == 'p') && (k[1] == 'A' || k[1]
            == 'a') && (k[2] == 'T' || k[2] == 't') && (k[3] == 'H' || k[3] == 'h'),
    }
}

/// The name under which the environment holds `PATH`: the first variable
/// whose name is `PATH` on the platform, else `PATH` itself.
pub open spec fn path_name(p: Platform, envs: Seq<(String, String)>) -> Seq<char>
    decreases envs.len(),
{
    if envs.len() == 0 {
        "PATH"@
    } else if is_path_key(p, envs[0].0@) {
        envs[0].0@
    } else {
        path_name(p, envs.drop_first())
    }
}

fn is_path_key_exec(p: Platform, k: &str) -> (res: bool)
    ensures
        res == is_path_key(p, k@),
{
    let c = str_chars(k);
    match p {
        Platform::Unix => {
            proof {
                reveal_strlit("PATH");
            }
            chars_eq(c.as_slice(), str_chars("PATH").as_slice())
        },
        Platform::Windows => c.len() == 4 && (c[0] == 'P' || c[0] == 'p') && (c[1] == 'A' || c[1]
            == 'a') && (c[2] == 'T' || c[2] == 't') && (c[3] == 'H' || c[3] == 'h'),
    }
}

fn find_path_name(p: Platform, envs: &Vec<(String, String)>) -> (res: String)
    ensures
        res@ == path_name(p, envs@),
{
    let mut i: usize = 0;
    proof {
        assert(envs@.skip(0) =~= envs@);
    }
    while i < envs.len()
        invariant
            i <= envs@.len(),
            path_name(p, envs@.skip(i as int)) == path_name(p, envs@),
        decreases envs@.len() - i,
    {
        proof {
            assert(envs@.skip(i as int)[0] == envs@[i as int]);
            assert(envs@.skip(i as int).drop_first() =~= envs@.skip(i + 1));
        }
        if is_path_key_exec(p, envs[i].0.as_str()) {
            return envs[i].0.clone();
        }
        i += 1;
    }
    proof {
        assert(envs@.skip(i as int) =~= Seq::<(String, String)>::empty());
    }
    String::from_str("PATH")
}

/// The value of `key` in an environment (empty when unset).
pub open spec fn value_of(env: Map<Seq<char>, Seq<char>>, key: Seq<char>) -> Seq<char> {
    if env.dom().contains(key) {
        env[key]
    } else {
        seq![]
    }
}

/// The entries of a `PATH` value: none for an empty value.
pub open spec fn listed_paths(p: Platform, v: Seq<char>) -> Seq<Seq<char>> {
    if v.len() == 0 {
        seq![]
    } else {
        split_paths(p, v)
    }
}

/// What prepending `bin` to the `PATH` held under `key` gives: the same
/// environment when `bin` already comes first; no environment when the new
/// entries cannot be joined; else `PATH` with `bin` in front of the old
/// entries.
pub open spec fn prepended_env(
    p: Platform,
    env: Map<Seq<char>, Seq<char>>,
    key: Seq<char>,
    bin: Seq<char>,
) -> Option<Map<Seq<char>, Seq<char>>> {
    let parts = listed_paths(p, value_of(env, key));
    if parts.len() > 0 && same_path(p, parts[0], bin) {
        Some(env)
    } else {
        match join_paths(p, seq![bin] + parts) {
            Some(t) => Some(env.insert(key, t)),
            None => None,
        }
    }
}

/// Puts `bin_prefix` in front of the environment's `PATH` (the variable
/// whose name is `PATH` on the platform; `PATH` is created when there is
/// none), split and joined by the platform's conventions.
pub fn try_prepend_to_env_path(envs: &Vec<(String, String)>, bin_prefix: &str, platform: Platform) -> (res: Result<
    Vec<(String, String)>,
    JoinPathsError,
>)
    requires
        distinct_names(envs@),
    ensures
        match (res, prepended_env(platform, env_of(envs@), path_name(platform, envs@), bin_prefix@)) {
            (Ok(r), Some(m)) => distinct_names(r@) && env_of(r@) == m,
            (Err(_), None) => true,
            _ => false,
        },
{
    let key = find_path_name(platform, envs);
    let found = find_env(envs, &key);
    let current: Vec<char> = match found {
        Some(i) => str_chars(envs[i].1.as_str()),
        None => Vec::new(),
    };
    proof {
        crate::cli::resolver::lemma_env_of_lookup(envs@, key@);
        assert(current@ == value_of(env_of(envs@), key@));
    }
    let pieces: Vec<Vec<char>> = if current.len() == 0 {
        Vec::new()
    } else {
        split_path_list(platform, current.as_slice())
    };
    let bin = str_chars(bin_prefix);
    let ghost parts = listed_paths(platform, value_of(env_of(envs@), key@));
    proof {
        assert(views(pieces@) == parts);
    }
    let first_is_bin = if pieces.len() > 0 {
        same_path_exec(platform, pieces[0].as_slice(), bin.as_slice())
    } else {
        false
    };
    proof {
        if pieces@.len() > 0 {
            assert(views(pieces@)[0] == pieces@[0]@);
        }
        assert(first_is_bin == (parts.len() > 0 && same_path(platform, parts[0], bin_prefix@)));
    }
    if first_is_bin {
        return Ok(clone_env(envs));
    }
    let mut entries: Vec<Vec<char>> = Vec::new();
    entries.push(bin);
    let mut k: usize = 0;
    while k < pieces.len()
        invariant
            k <= pieces@.len(),
            views(entries@) == seq![bin_prefix@] + views(pieces@).take(k as int),
        decreases pieces@.len() - k,
    {
        let ghost before = entries@;
        let mut copy: Vec<char> = Vec::new();
        push_all(&mut copy, pieces[k].as_slice());
        entries.push(copy);
        proof {
            assert(views(entries@) =~= views(before).push(pieces@[k as int]@));
            assert(views(pieces@).take(k + 1) =~= views(pieces@).take(k as int).push(pieces@[k as int]@));
        }
        k += 1;
    }
    proof {
        assert(views(pieces@).take(pieces@.len() as int) =~= views(pieces@));
        assert(views(entries@) =~= seq![bin_prefix@] + parts);
    }
    match join_path_entries(platform, &entries) {
        Some(t) => {
            let mut out = clone_env(envs);
            env_insert(&mut out, &key, &chars_to_string(t.as_slice()));
            Ok(out)
        },
        None => Err(JoinPathsError),
    }
}

/// As `try_prepend_to_env_path`, keeping the environment as it is when
/// `PATH` cannot be formed.
pub fn prepend_to_env_path(envs: &Vec<(String, String)>, bin_prefix: &str, platform: Platform) -> (res: Vec<
    (String, String),
>)
    requires
        distinct_names(envs@),
    ensures
        distinct_names(res@),
        env_of(res@) == match prepended_env(platform, env_of(envs@), path_name(platform, envs@), bin_prefix@) {
            Some(m) => m,
            None => env_of(envs@),
        },
{
    match try_prepend_to_env_path(envs, bin_prefix, platform) {
        Ok(updated) => updated,
        Err(_) => clone_env(envs),
    }
}

/// What came of making sure the project's pinned package manager is
/// installed.
#[derive(Debug, Clone)]
pub enum PmInstall {
    /// Installed (or already present) in this directory.
    Installed(String),
    /// The download does not match the pinned integrity hash.
    IntegrityFailure,
    /// Not available for another reason (no network, unknown version...).
    Unavailable,
}

/// The direct run stops: the pinned package manager failed its integrity
/// check.
#[derive(Debug, Clone, Copy, PartialEq, Eq)]
pub struct IntegrityFailure;

/// The environment of a direct run after the package manager was seen to:
/// its `bin` directory first on `PATH`; unchanged when it is unavailable
/// (the command still runs from `PATH`); an error when its integrity check
/// failed, so that the user is not left with a missing command.
pub fn envs_after_pm_install(envs: &Vec<(String, String)>, install: &PmInstall, platform: Platform) -> (res: Result<
    Vec<(String, String)>,
    IntegrityFailure,
>)
    requires
        distinct_names(envs@),
    ensures
        match install {
            PmInstall::Installed(dir) => res matches Ok(r) && distinct_names(r@) && env_of(r@)
                == match prepended_env(platform, env_of(envs@), path_name(platform, envs@), join(dir@, "bin"@)) {
                Some(m) => m,
                None => env_of(envs@),
            },
            PmInstall::IntegrityFailure => res is Err,
            PmInstall::Unavailable => res matches Ok(r) && r@ == envs@,
        },
{
    match install {
        PmInstall::Installed(dir) => {
            let bin = join_path(dir.as_str(), "bin");
            Ok(prepend_to_env_path(envs, bin.as_str(), platform))
        },
        PmInstall::IntegrityFailure => Err(IntegrityFailure),
        PmInstall::Unavailable => Ok(clone_env(envs)),
    }
}

/// Prepending a directory twice gives what prepending it once gives: the
/// second time it already comes first on `PATH`. (On Windows a `PATH` that
/// starts with an empty entry has no entries, so the directory is taken to
/// be non-empty there.)
pub proof fn law_prepend_is_idempotent(
    p: Platform,
    env: Map<Seq<char>, Seq<char>>,
    key: Seq<char>,
    bin: Seq<char>,
)
    requires
        prepended_env(p, env, key, bin) is Some,
        p == Platform::Windows ==> bin.len() > 0,
    ensures
        prepended_env(p, prepended_env(p, env, key, bin).unwrap(), key, bin) == prepended_env(p, env, key, bin),
{
    let once = prepended_env(p, env, key, bin).unwrap();
    let parts = listed_paths(p, value_of(env, key));
    lemma_same_path_refl(p, bin);
    if !(parts.len() > 0 && same_path(p, parts[0], bin)) {
        let es = seq![bin] + parts;
        let t = join_paths(p, es).unwrap();
        assert(once == env.insert(key, t));
        assert(value_of(once, key) == t);
        if t.len() == 0 {
            assert(p == Platform::Unix);
            assert(es.map_values(|e: Seq<char>| entry_text(p, e)) =~= es);
            if parts.len() > 0 {
                assert(joined(es, seq![':']) == joined(es.drop_last(), seq![':']) + seq![':'] + es.last());
                assert(joined(es, seq![':']).len() > 0);
            }
            assert(es =~= seq![bin]);
            assert(bin.len() == 0);
            assert(listed_paths(p, t) =~= Seq::<Seq<char>>::empty());
            assert(seq![bin] + listed_paths(p, t) =~= es);
            assert(once.insert(key, t) =~= once);
        } else {
            law_split_join_round_trip(p, es);
            assert(listed_paths(p, t) == es);
            assert(listed_paths(p, t)[0] == bin);
        }
    }
}

} // verus!
