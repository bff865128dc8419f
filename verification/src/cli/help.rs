//! Help requests and the flag rules of the pass-through subcommands.
use vstd::prelude::*;

use crate::cli::types::SynthesizableSubcommand;
use crate::pm::{clone_strings, strs, terminator_from, terminator_index};
use crate::similarity::{is_best_index, pick_best_suggestion};
use crate::text::{chars_to_string, contains, find_chars, has_prefix, push_str, starts_with, str_chars};

verus! {

/// `help` alone asks for the general help; `help <command> ...` asks for the
/// command's help (`<command> --help ...`).
pub open spec fn normalized_help_args(a: Seq<Seq<char>>) -> Seq<Seq<char>> {
    if a.len() == 1 && a[0] == "help"@ {
        seq!["--help"@]
    } else if a.len() >= 2 && a[0] == "help"@ {
        seq![a[1], "--help"@] + a.skip(2)
    } else {
        a
    }
}

pub fn normalize_help_args(args: Vec<String>) -> (res: Vec<String>)
    ensures
        strs(res@) == normalized_help_args(strs(args@)),
{
    let help = String::from_str("help");
    if args.len() == 1 && args[0] == help {
        let mut out: Vec<String> = Vec::new();
        out.push(String::from_str("--help"));
        proof {
            assert(strs(out@) =~= seq!["--help"@]);
        }
        return out;
    }
    if args.len() >= 2 && args[0] == help {
        let mut out: Vec<String> = Vec::new();
        out.push(args[1].clone());
        out.push(String::from_str("--help"));
        let mut k: usize = 2;
        while k < args.len()
            invariant
                2 <= k <= args@.len(),
                strs(out@) == seq![args@[1]@, "--help"@] + strs(args@).subrange(2, k as int),
            decreases args@.len() - k,
        {
            let ghost before = out@;
            out.push(args[k].clone());
            proof {
                assert(strs(out@) =~= strs(before).push(args@[k as int]@));
                assert(strs(args@).subrange(2, k + 1) =~= strs(args@).subrange(2, k as int).push(
                    args@[k as int]@,
                ));
            }
            k += 1;
        }
        proof {
            assert(strs(args@).subrange(2, args@.len() as int) =~= strs(args@).skip(2));
        }
        return out;
    }
    args
}

pub open spec fn is_vitest_help(a: Seq<char>) -> bool {
    a == "-h"@ || a == "--help"@
}

pub open spec fn is_vitest_watch(a: Seq<char>) -> bool {
    a == "-w"@ || a == "--watch"@
}

pub open spec fn is_vitest_subcommand(a: Seq<char>) -> bool {
    a == "run"@ || a == "watch"@ || a == "dev"@ || a == "related"@ || a == "bench"@ || a
        == "init"@ || a == "list"@
}

fn is_one_of(arg: &String, options: &[&str]) -> (res: bool)
    ensures
        res == exists|i: int| 0 <= i < options@.len() && arg@ == (#[trigger] options@[i])@,
{
    let mut i: usize = 0;
    while i < options.len()
        invariant
            i <= options@.len(),
            forall|j: int| 0 <= j < i ==> arg@ != (#[trigger] options@[j])@,
        decreases options@.len() - i,
    {
        if *arg == String::from_str(options[i]) {
            return true;
        }
        i += 1;
    }
    false
}

fn is_vitest_help_flag(arg: &String) -> (res: bool)
    ensures
        res == is_vitest_help(arg@),
{
    let options = ["-h", "--help"];
    let r = is_one_of(arg, &options);
    proof {
        if is_vitest_help(arg@) {
            if arg@ == "-h"@ {
                assert(arg@ == options@[0]@);
            } else {
                assert(arg@ == options@[1]@);
            }
        }
    }
    r
}

fn is_vitest_watch_flag(arg: &String) -> (res: bool)
    ensures
        res == is_vitest_watch(arg@),
{
    let options = ["-w", "--watch"];
    let r = is_one_of(arg, &options);
    proof {
        if is_vitest_watch(arg@) {
            if arg@ == "-w"@ {
                assert(arg@ == options@[0]@);
            } else {
                assert(arg@ == options@[1]@);
            }
        }
    }
    r
}

fn is_vitest_test_subcommand(arg: &String) -> (res: bool)
    ensures
        res == is_vitest_subcommand(arg@),
{
    let options = ["run", "watch", "dev", "related", "bench", "init", "list"];
    let r = is_one_of(arg, &options);
    proof {
        if is_vitest_subcommand(arg@) {
            if arg@ == "run"@ {
                assert(arg@ == options@[0]@);
            } else if arg@ == "watch"@ {
                assert(arg@ == options@[1]@);
            } else if arg@ == "dev"@ {
                assert(arg@ == options@[2]@);
            } else if arg@ == "related"@ {
                assert(arg@ == options@[3]@);
            } else if arg@ == "bench"@ {
                assert(arg@ == options@[4]@);
            } else if arg@ == "init"@ {
                assert(arg@ == options@[5]@);
            } else {
                assert(arg@ == options@[6]@);
            }
        }
    }
    r
}

/// Whether `arg` is `flag` or `flag=<value>`.
pub open spec fn is_flag(arg: Seq<char>, flag: Seq<char>) -> bool {
    arg == flag || has_prefix(arg, flag + "="@)
}

/// Whether some argument before the first `--` is the flag.
pub open spec fn flag_before_terminator(a: Seq<Seq<char>>, flag: Seq<char>) -> bool {
    exists|i: int| 0 <= i < terminator_from(a, 0) && is_flag(#[trigger] a[i], flag)
}

proof fn lemma_terminator_bound(a: Seq<Seq<char>>, i: int)
    requires
        0 <= i,
    ensures
        i <= terminator_from(a, i) <= a.len() || (i > a.len() && terminator_from(a, i) == a.len()),
        forall|j: int| i <= j < terminator_from(a, i) ==> a[j] != "--"@,
        terminator_from(a, i) < a.len() ==> a[terminator_from(a, i)] == "--"@,
    decreases a.len() - i,
{
    if i < a.len() && a[i] != "--"@ {
        lemma_terminator_bound(a, i + 1);
    }
}

pub fn has_flag_before_terminator(args: &[String], flag: &str) -> (res: bool)
    ensures
        res == flag_before_terminator(strs(args@), flag@),
{
    let t = terminator_index(args);
    let f = String::from_str(flag);
    let mut with_eq = str_chars(flag);
    push_str(&mut with_eq, "=");
    let mut i: usize = 0;
    while i < t
        invariant
            i <= t <= args@.len(),
            t == terminator_from(strs(args@), 0),
            f@ == flag@,
            with_eq@ == flag@ + "="@,
            forall|j: int| 0 <= j < i ==> !is_flag(#[trigger] strs(args@)[j], flag@),
        decreases t - i,
    {
        let a = str_chars(args[i].as_str());
        if args[i] == f || starts_with(a.as_slice(), with_eq.as_slice()) {
            proof {
                assert(is_flag(strs(args@)[i as int], flag@));
            }
            return true;
        }
        i += 1;
    }
    false
}

/// `lint --init`, `fmt --init` and `fmt --migrate` write their own files;
/// what they print is hidden.
pub open spec fn suppresses_stdout(s: SynthesizableSubcommand) -> bool {
    match s {
        SynthesizableSubcommand::Lint { args } => flag_before_terminator(strs(args@), "--init"@),
        SynthesizableSubcommand::Fmt { args } => flag_before_terminator(strs(args@), "--init"@)
            || flag_before_terminator(strs(args@), "--migrate"@),
        _ => false,
    }
}

pub fn should_suppress_subcommand_stdout(subcommand: &SynthesizableSubcommand) -> (res: bool)
    ensures
        res == suppresses_stdout(*subcommand),
{
    match subcommand {
        SynthesizableSubcommand::Lint { args } => has_flag_before_terminator(args.as_slice(), "--init"),
        SynthesizableSubcommand::Fmt { args } => has_flag_before_terminator(args.as_slice(), "--init")
            || has_flag_before_terminator(args.as_slice(), "--migrate"),
        _ => false,
    }
}

/// `vp test` runs vitest once (`vitest run`) unless the arguments start
/// with a vitest subcommand, or ask, before `--`, for help, watch mode or
/// `--run` themselves.
pub open spec fn prepends_run(a: Seq<Seq<char>>) -> bool {
    if a.len() == 0 {
        true
    } else if is_vitest_subcommand(a[0]) {
        false
    } else {
        !exists|i: int|
            0 <= i < terminator_from(a, 0) && (is_vitest_help(#[trigger] a[i]) || is_vitest_watch(
                a[i],
            ) || a[i] == "--run"@)
    }
}

pub fn should_prepend_vitest_run(args: &[String]) -> (res: bool)
    ensures
        res == prepends_run(strs(args@)),
{
    if args.len() == 0 {
        return true;
    }
    if is_vitest_test_subcommand(&args[0]) {
        return false;
    }
    let t = terminator_index(args);
    let run = String::from_str("--run");
    let mut i: usize = 0;
    while i < t
        invariant
            i <= t <= args@.len(),
            t == terminator_from(strs(args@), 0),
            run@ == "--run"@,
            forall|j: int|
                0 <= j < i ==> !(is_vitest_help(#[trigger] strs(args@)[j]) || is_vitest_watch(
                    strs(args@)[j],
                ) || strs(args@)[j] == "--run"@),
        decreases t - i,
    {
        if is_vitest_help_flag(&args[i]) || is_vitest_watch_flag(&args[i]) || args[i] == run {
            proof {
                assert(strs(args@)[i as int] == args@[i as int]@);
            }
            return false;
        }
        i += 1;
    }
    true
}

/// The general help shows for no arguments or a lone `-h`/`--help`.
pub open spec fn prints_help(a: Seq<Seq<char>>) -> bool {
    a.len() == 0 || (a.len() == 1 && (a[0] == "-h"@ || a[0] == "--help"@))
}

pub fn should_print_help(args: &[String]) -> (res: bool)
    ensures
        res == prints_help(strs(args@)),
{
    args.len() == 0 || (args.len() == 1 && (args[0] == String::from_str("-h") || args[0]
        == String::from_str("--help")))
}

// ---------------------------------------------------------------------------
// Parse errors.
// ---------------------------------------------------------------------------

/// The subcommands a parse error suggests for an unknown one.
#[derive(Debug, Clone)]
pub enum Suggested {
    Nothing,
    One(String),
    Many(Vec<String>),
}

pub open spec fn did_you_mean(s: Seq<char>) -> Seq<char> {
    "Did you mean `vp "@ + s + "`?"@
}

/// The messages of an unknown subcommand: `Command '<name>' not found`,
/// then, when there is a suggestion (the closest of several), `Did you
/// mean `vp <suggestion>`?`.
pub fn invalid_subcommand_messages(invalid: &str, suggested: &Suggested) -> (res: (String, Option<String>))
    requires
        invalid@.len() < usize::MAX,
        suggested matches Suggested::Many(v) ==> forall|j: int|
            0 <= j < v@.len() ==> (#[trigger] v@[j])@.len() < usize::MAX
                && vstd::utf8::encode_utf8(v@[j]@).len() <= usize::MAX,
    ensures
        res.0@ == "Command '"@ + invalid@ + "' not found"@,
        match suggested {
            Suggested::Nothing => res.1 is None,
            Suggested::One(s) => res.1 matches Some(m) && m@ == did_you_mean(s@),
            Suggested::Many(v) => if v@.len() == 0 {
                res.1 is None
            } else {
                exists|k: int|
                    is_best_index(invalid@, v@, k) && (res.1 matches Some(m) && m@ == did_you_mean(
                        v@[k]@,
                    ))
            },
        },
{
    let mut first = str_chars("Command '");
    push_str(&mut first, invalid);
    push_str(&mut first, "' not found");
    let suggestion: Option<String> = match suggested {
        Suggested::Nothing => None,
        Suggested::One(s) => Some(s.clone()),
        Suggested::Many(v) => pick_best_suggestion(invalid, v.as_slice()),
    };
    let second = match suggestion {
        Some(s) => {
            let mut m = str_chars("Did you mean `vp ");
            push_str(&mut m, s.as_str());
            push_str(&mut m, "`?");
            Some(chars_to_string(m.as_slice()))
        },
        None => None,
    };
    (chars_to_string(first.as_slice()), second)
}

/// The messages of an unexpected argument: `Unexpected argument '<arg>'`,
/// then, when one of the parser's suggestions is to pass it as a value, how
/// to pass it after `--`.
pub fn unknown_argument_messages(invalid: &str, suggestions: &[String]) -> (res: (String, Option<String>))
    ensures
        res.0@ == "Unexpected argument '"@ + invalid@ + "'"@,
        res.1 is Some <==> exists|i: int|
            0 <= i < suggestions@.len() && contains(#[trigger] suggestions@[i]@, "as a value"@),
        res.1 matches Some(m) ==> m@ == "Use `-- "@ + invalid@ + "` to pass the argument as a value"@,
{
    let mut first = str_chars("Unexpected argument '");
    push_str(&mut first, invalid);
    push_str(&mut first, "'");
    let pat = str_chars("as a value");
    let mut found = false;
    let mut i: usize = 0;
    while i < suggestions.len()
        invariant
            i <= suggestions@.len(),
            pat@ == "as a value"@,
            found == exists|j: int| 0 <= j < i && contains(#[trigger] suggestions@[j]@, "as a value"@),
        decreases suggestions@.len() - i,
    {
        let s = str_chars(suggestions[i].as_str());
        if find_chars(s.as_slice(), pat.as_slice()).is_some() {
            found = true;
        }
        i += 1;
    }
    let second = if found {
        let mut m = str_chars("Use `-- ");
        push_str(&mut m, invalid);
        push_str(&mut m, "` to pass the argument as a value");
        Some(chars_to_string(m.as_slice()))
    } else {
        None
    };
    (chars_to_string(first.as_slice()), second)
}

} // verus!
