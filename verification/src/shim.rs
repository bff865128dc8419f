//! The shell, Command Prompt and PowerShell wrappers that put a package
//! manager's entry point on a bin directory: the texts of the three files,
//! and the relative path they run.
use vstd::prelude::*;

use crate::path_env::components;
use crate::path_list::slashed;
use crate::text::{chars_to_string, joined, push_all, push_str, replace_all, replace_text, str_chars};

verus! {

/// Injected leading arguments as the wrappers write them: the arguments
/// joined by spaces with a trailing space, or nothing.
pub open spec fn injected_args_text(args: Seq<Seq<char>>) -> Seq<char> {
    if args.len() == 0 {
        seq![]
    } else {
        joined(args, " "@) + " "@
    }
}

pub open spec fn arg_texts(args: Seq<&str>) -> Seq<Seq<char>> {
    args.map_values(|a: &str| a@)
}

/// Renders injected arguments.
pub fn format_injected_args(args: &[&str]) -> (res: String)
    ensures
        res@ == injected_args_text(arg_texts(args@)),
{
    if args.len() == 0 {
        return String::new();
    }
    let mut out: Vec<char> = Vec::new();
    let mut i: usize = 0;
    while i < args.len()
        invariant
            i <= args@.len(),
            out@ == joined(arg_texts(args@).take(i as int), " "@),
        decreases args@.len() - i,
    {
        proof {
            assert(arg_texts(args@).take(i + 1) =~= arg_texts(args@).take(i as int).push(args@[i as int]@));
            crate::text::lemma_joined_push(arg_texts(args@).take(i as int), " "@, args@[i as int]@);
        }
        if i > 0 {
            push_str(&mut out, " ");
        }
        push_str(&mut out, args[i]);
        i += 1;
    }
    proof {
        assert(arg_texts(args@).take(args@.len() as int) =~= arg_texts(args@));
    }
    push_str(&mut out, " ");
    chars_to_string(out.as_slice())
}

/// The start shared by both shell wrappers: find the wrapper's directory
/// (a Windows path under Cygwin, MinGW or MSYS).
pub open spec fn sh_prelude() -> Seq<char> {
    "#!/bin/sh\nbasedir=$(dirname \"$(echo \"$0\" | sed -e 's,\\\\,/,g')\")\n\ncase `uname` in\n    *CYGWIN*|*MINGW*|*MSYS*)\n        if command -v cygpath > /dev/null 2>&1; then\n            basedir=`cygpath -w \"$basedir\"`\n        fi\n    ;;\nesac\n\n"@
}

/// The shell wrapper of a native binary: it executes the binary with the
/// injected arguments, then its own.
pub open spec fn native_sh_text(relative_file: Seq<char>, injected: Seq<char>) -> Seq<char> {
    sh_prelude() + "exec \"$basedir/"@ + relative_file + "\" "@ + injected + "\"$@\"\n"@
}

/// Windows line ends.
pub open spec fn crlf(text: Seq<char>) -> Seq<char> {
    replace_all(text, "\n"@, "\r\n"@)
}

/// A relative path with Windows separators.
pub open spec fn backslashed(path: Seq<char>) -> Seq<char> {
    replace_all(path, "/"@, "\\"@)
}

/// The Command Prompt wrapper of a native binary.
pub open spec fn native_cmd_text(relative_file: Seq<char>, injected: Seq<char>) -> Seq<char> {
    crlf("@SETLOCAL\n@\"%~dp0\\"@ + backslashed(relative_file) + "\" "@ + injected + "%*\n"@)
}

/// The PowerShell wrapper of a native binary (input piped through when
/// there is some).
pub open spec fn native_pwsh_text(relative_file: Seq<char>, injected: Seq<char>) -> Seq<char> {
    "#!/usr/bin/env pwsh\n$basedir=Split-Path $MyInvocation.MyCommand.Definition -Parent\n\n$ret=0\n# Support pipeline input\nif ($MyInvocation.ExpectingInput) {\n    $input | & \"$basedir/"@
        + relative_file + "\" "@ + injected + "$args\n} else {\n    & \"$basedir/"@ + relative_file
        + "\" "@ + injected + "$args\n}\n$ret=$LASTEXITCODE\nexit $ret\n"@
}

/// The shell wrapper of a JavaScript entry point: it runs the script with
/// the `node` beside the wrapper, else the one on `PATH`.
pub open spec fn sh_text(relative_file: Seq<char>) -> Seq<char> {
    sh_prelude() + "if [ -x \"$basedir/node\" ]; then\n    exec \"$basedir/node\" \"$basedir/"@
        + relative_file + "\" \"$@\"\nelse\n    exec node \"$basedir/"@ + relative_file
        + "\" \"$@\"\nfi\n"@
}

/// The Command Prompt wrapper of a JavaScript entry point.
pub open spec fn cmd_text(relative_file: Seq<char>) -> Seq<char> {
    crlf(
        "@SETLOCAL\n@IF EXIST \"%~dp0\\node.exe\" (\n    \"%~dp0\\node.exe\" \"%~dp0\\"@ + backslashed(
            relative_file,
        ) + "\" %*\n) ELSE (\n@SET PATHEXT=%PATHEXT:;.JS;=;%\n    node \"%~dp0\\"@ + backslashed(
            relative_file,
        ) + "\" %*\n)\n"@,
    )
}

/// The PowerShell wrapper of a JavaScript entry point.
pub open spec fn pwsh_text(relative_file: Seq<char>) -> Seq<char> {
    "#!/usr/bin/env pwsh\n$basedir=Split-Path $MyInvocation.MyCommand.Definition -Parent\n\n$exe=\"\"\nif ($PSVersionTable.PSVersion -lt \"6.0\" -or $IsWindows) {\n    # Fix case when both the Windows and Linux builds of Node\n    # are installed in the same directory\n    $exe=\".exe\"\n}\n$ret=0\nif (Test-Path \"$basedir/node$exe\") {\n    # Support pipeline input\n    if ($MyInvocation.ExpectingInput) {\n        $input | & \"$basedir/node$exe\" \"$basedir/"@
        + relative_file + "\" $args\n    } else {\n        & \"$basedir/node$exe\" \"$basedir/"@
        + relative_file
        + "\" $args\n    }\n    $ret=$LASTEXITCODE\n} else {\n    # Support pipeline input\n    if ($MyInvocation.ExpectingInput) {\n        $input | & \"node$exe\" \"$basedir/"@
        + relative_file + "\" $args\n    } else {\n        & \"node$exe\" \"$basedir/"@ + relative_file
        + "\" $args\n    }\n    $ret=$LASTEXITCODE\n}\nexit $ret\n"@
}

fn to_crlf(text: &Vec<char>) -> (res: String)
    ensures
        res@ == crlf(text@),
{
    proof {
        reveal_strlit("\n");
    }
    replace_text(chars_to_string(text.as_slice()).as_str(), "\n", "\r\n")
}

fn to_backslashes(path: &str) -> (res: String)
    ensures
        res@ == backslashed(path@),
{
    proof {
        reveal_strlit("/");
    }
    replace_text(path, "/", "\\")
}

pub fn native_sh_shim(relative_file: &str, args: &[&str]) -> (res: String)
    ensures
        res@ == native_sh_text(relative_file@, injected_args_text(arg_texts(args@))),
{
    let injected = format_injected_args(args);
    let mut out = str_chars(
        "#!/bin/sh\nbasedir=$(dirname \"$(echo \"$0\" | sed -e 's,\\\\,/,g')\")\n\ncase `uname` in\n    *CYGWIN*|*MINGW*|*MSYS*)\n        if command -v cygpath > /dev/null 2>&1; then\n            basedir=`cygpath -w \"$basedir\"`\n        fi\n    ;;\nesac\n\n",
    );
    push_str(&mut out, "exec \"$basedir/");
    push_str(&mut out, relative_file);
    push_str(&mut out, "\" ");
    push_str(&mut out, injected.as_str());
    push_str(&mut out, "\"$@\"\n");
    chars_to_string(out.as_slice())
}

pub fn native_cmd_shim(relative_file: &str, args: &[&str]) -> (res: String)
    ensures
        res@ == native_cmd_text(relative_file@, injected_args_text(arg_texts(args@))),
{
    let injected = format_injected_args(args);
    let windows_path = to_backslashes(relative_file);
    let mut out = str_chars("@SETLOCAL\n@\"%~dp0\\");
    push_str(&mut out, windows_path.as_str());
    push_str(&mut out, "\" ");
    push_str(&mut out, injected.as_str());
    push_str(&mut out, "%*\n");
    to_crlf(&out)
}

pub fn native_pwsh_shim(relative_file: &str, args: &[&str]) -> (res: String)
    ensures
        res@ == native_pwsh_text(relative_file@, injected_args_text(arg_texts(args@))),
{
    let injected = format_injected_args(args);
    let mut out = str_chars(
        "#!/usr/bin/env pwsh\n$basedir=Split-Path $MyInvocation.MyCommand.Definition -Parent\n\n$ret=0\n# Support pipeline input\nif ($MyInvocation.ExpectingInput) {\n    $input | & \"$basedir/",
    );
    push_str(&mut out, relative_file);
    push_str(&mut out, "\" ");
    push_str(&mut out, injected.as_str());
    push_str(&mut out, "$args\n} else {\n    & \"$basedir/");
    push_str(&mut out, relative_file);
    push_str(&mut out, "\" ");
    push_str(&mut out, injected.as_str());
    push_str(&mut out, "$args\n}\n$ret=$LASTEXITCODE\nexit $ret\n");
    chars_to_string(out.as_slice())
}

pub fn sh_shim(relative_file: &str) -> (res: String)
    ensures
        res@ == sh_text(relative_file@),
{
    let mut out = str_chars(
        "#!/bin/sh\nbasedir=$(dirname \"$(echo \"$0\" | sed -e 's,\\\\,/,g')\")\n\ncase `uname` in\n    *CYGWIN*|*MINGW*|*MSYS*)\n        if command -v cygpath > /dev/null 2>&1; then\n            basedir=`cygpath -w \"$basedir\"`\n        fi\n    ;;\nesac\n\n",
    );
    push_str(&mut out, "if [ -x \"$basedir/node\" ]; then\n    exec \"$basedir/node\" \"$basedir/");
    push_str(&mut out, relative_file);
    push_str(&mut out, "\" \"$@\"\nelse\n    exec node \"$basedir/");
    push_str(&mut out, relative_file);
    push_str(&mut out, "\" \"$@\"\nfi\n");
    chars_to_string(out.as_slice())
}

pub fn cmd_shim(relative_file: &str) -> (res: String)
    ensures
        res@ == cmd_text(relative_file@),
{
    let windows_path = to_backslashes(relative_file);
    let mut out = str_chars(
        "@SETLOCAL\n@IF EXIST \"%~dp0\\node.exe\" (\n    \"%~dp0\\node.exe\" \"%~dp0\\",
    );
    push_str(&mut out, windows_path.as_str());
    push_str(&mut out, "\" %*\n) ELSE (\n@SET PATHEXT=%PATHEXT:;.JS;=;%\n    node \"%~dp0\\");
    push_str(&mut out, windows_path.as_str());
    push_str(&mut out, "\" %*\n)\n");
    to_crlf(&out)
}

pub fn pwsh_shim(relative_file: &str) -> (res: String)
    ensures
        res@ == pwsh_text(relative_file@),
{
    let mut out = str_chars(
        "#!/usr/bin/env pwsh\n$basedir=Split-Path $MyInvocation.MyCommand.Definition -Parent\n\n$exe=\"\"\nif ($PSVersionTable.PSVersion -lt \"6.0\" -or $IsWindows) {\n    # Fix case when both the Windows and Linux builds of Node\n    # are installed in the same directory\n    $exe=\".exe\"\n}\n$ret=0\nif (Test-Path \"$basedir/node$exe\") {\n    # Support pipeline input\n    if ($MyInvocation.ExpectingInput) {\n        $input | & \"$basedir/node$exe\" \"$basedir/",
    );
    push_str(&mut out, relative_file);
    push_str(&mut out, "\" $args\n    } else {\n        & \"$basedir/node$exe\" \"$basedir/");
    push_str(&mut out, relative_file);
    push_str(
        &mut out,
        "\" $args\n    }\n    $ret=$LASTEXITCODE\n} else {\n    # Support pipeline input\n    if ($MyInvocation.ExpectingInput) {\n        $input | & \"node$exe\" \"$basedir/",
    );
    push_str(&mut out, relative_file);
    push_str(&mut out, "\" $args\n    } else {\n        & \"node$exe\" \"$basedir/");
    push_str(&mut out, relative_file);
    push_str(&mut out, "\" $args\n    }\n    $ret=$LASTEXITCODE\n}\nexit $ret\n");
    chars_to_string(out.as_slice())
}

/// The three wrapper files beside a bin entry: the shell script (at the
/// entry itself), `.cmd` and `.ps1`.
#[derive(Debug, Clone, PartialEq, Eq)]
pub struct ShimFiles {
    pub sh: String,
    pub cmd: String,
    pub ps1: String,
}

/// The wrappers of a JavaScript entry point.
pub fn node_shim_files(relative_file: &str) -> (res: ShimFiles)
    ensures
        res.sh@ == sh_text(relative_file@),
        res.cmd@ == cmd_text(relative_file@),
        res.ps1@ == pwsh_text(relative_file@),
{
    ShimFiles { sh: sh_shim(relative_file), cmd: cmd_shim(relative_file), ps1: pwsh_shim(relative_file) }
}

/// The wrappers of a native binary with injected leading arguments.
pub fn native_shim_files(relative_file: &str, args: &[&str]) -> (res: ShimFiles)
    ensures
        res.sh@ == native_sh_text(relative_file@, injected_args_text(arg_texts(args@))),
        res.cmd@ == native_cmd_text(relative_file@, injected_args_text(arg_texts(args@))),
        res.ps1@ == native_pwsh_text(relative_file@, injected_args_text(arg_texts(args@))),
{
    ShimFiles {
        sh: native_sh_shim(relative_file, args),
        cmd: native_cmd_shim(relative_file, args),
        ps1: native_pwsh_shim(relative_file, args),
    }
}

/// Why the relative path a wrapper runs cannot be formed.
#[derive(Debug, Clone, Copy, PartialEq, Eq)]
pub enum ShimPathError {
    /// The wrapper's path has no parent directory.
    NoParent,
    /// No relative path leads from the wrapper's directory to the target.
    NoRelativePath,
}

/// A path that is relative on every platform: it does not start with a
/// separator (`/` or `\\`) and holds no `:` (so no Windows drive or UNC
/// prefix and no root).
pub open spec fn plainly_relative(p: Seq<char>) -> bool {
    &&& p.len() > 0 ==> p[0] != '/' && p[0] != '\\'
    &&& !p.contains(':')
}

/// A path without two dots in a row, so without a `..` component on any
/// platform.
pub open spec fn no_double_dot(p: Seq<char>) -> bool {
    forall|i: int| 0 <= i && i + 1 < p.len() ==> !(#[trigger] p[i] == '.' && p[i + 1] == '.')
}

/// A relative path written with `/` only, none of whose components is
/// `.`: its components are the same on every platform.
pub open spec fn plain_components(p: Seq<char>) -> bool {
    &&& plainly_relative(p)
    &&& !p.contains('\\')
    &&& !components(p).contains("."@)
}

/// The number of leading components that two component lists share.
pub open spec fn common_prefix_len(a: Seq<Seq<char>>, b: Seq<Seq<char>>) -> nat
    decreases a.len(),
{
    if a.len() > 0 && b.len() > 0 && a[0] == b[0] {
        1 + common_prefix_len(a.drop_first(), b.drop_first())
    } else {
        0
    }
}

/// The components of the way from directory `base` to `path`: one `..`
/// for each component of `base` past the shared ones, then the rest of
/// `path`.
pub open spec fn relative_components(path: Seq<Seq<char>>, base: Seq<Seq<char>>) -> Seq<Seq<char>> {
    let k = common_prefix_len(path, base);
    Seq::new((base.len() - k) as nat, |i: int| ".."@) + path.skip(k as int)
}

/// `Path::parent` of a path, as text. Its documentation: `None` for the
/// empty path and for a path that ends in a root or prefix, else the path
/// without its final component (`""` for a relative path of one component).
/// Stated here: `None` for the empty path; `Some` for a non-empty path that
/// is relative on every platform; a result is a shorter prefix of the path;
/// for a non-empty path of `plain_components`, the result's components are
/// the path's without the last. The text of the result otherwise follows
/// the separators of the platform the library is built for.
#[verifier::external_body]
fn path_parent(path: &str) -> (res: Option<String>)
    ensures
        path@.len() == 0 ==> res is None,
        path@.len() > 0 && plainly_relative(path@) ==> res is Some,
        res matches Some(p) ==> p@.len() < path@.len() && p@ == path@.take(p@.len() as int),
        path@.len() > 0 && plain_components(path@) ==> res is Some && components(res.unwrap()@) == components(path@).drop_last(),
{
    match std::path::Path::new(path).parent() {
        Some(p) => Some(p.to_string_lossy().into_owned()),
        None => None,
    }
}

/// `pathdiff::diff_paths(path, base)`, as text. Per its source: when both
/// paths are absolute or both relative, `None` only where a `..` component
/// of `base` is reached; a relative `path` from an absolute `base` is
/// `None`; otherwise the path is built from components: those the two share
/// are skipped, each further component of `base` gives `..` (a leading `.`
/// of `base` aside), then the rest of `path` follows. Stated here: `Some`
/// when both paths are relative on every platform and `base` holds no `..`;
/// when both are also of `plain_components`, the result's components (read
/// with `/` and `\` as separators) are `relative_components`. Its
/// separators follow the platform the library is built for.
#[verifier::external_body]
fn diff_paths(path: &str, base: &str) -> (res: Option<String>)
    ensures
        plainly_relative(path@) && plainly_relative(base@) && no_double_dot(base@) ==> res is Some,
        plain_components(path@) && plain_components(base@) && no_double_dot(base@) ==> res is Some && components(slashed(res.unwrap()@)) == relative_components(components(path@), components(base@)),
{
    match pathdiff::diff_paths(path, base) {
        Some(p) => Some(p.to_string_lossy().into_owned()),
        None => None,
    }
}

/// The inputs on which a wrapper's relative path is formed on every
/// platform: a non-empty wrapper path and a source path, both relative on
/// every platform, the wrapper path without `..`.
pub open spec fn shim_path_owed(source_file: Seq<char>, to_bin: Seq<char>) -> bool {
    &&& to_bin.len() > 0
    &&& plainly_relative(to_bin)
    &&& no_double_dot(to_bin)
    &&& plainly_relative(source_file)
}

/// The inputs on which the wrapper's relative path is also stated by its
/// components: those of `shim_path_owed`, both written with `/` only and
/// without `.` components.
pub open spec fn shim_path_plain(source_file: Seq<char>, to_bin: Seq<char>) -> bool {
    &&& shim_path_owed(source_file, to_bin)
    &&& plain_components(source_file)
    &&& plain_components(to_bin)
}

/// The components of the relative path from the directory of the wrapper
/// at `to_bin` to `source_file`.
pub open spec fn shim_relative_components(source_file: Seq<char>, to_bin: Seq<char>) -> Seq<Seq<char>> {
    relative_components(components(source_file), components(to_bin).drop_last())
}

/// The path of `source_file` relative to the directory of the wrapper at
/// `to_bin`: no directory for an empty wrapper path; always formed on the
/// inputs of `shim_path_owed`, with the components of
/// `shim_relative_components` on those of `shim_path_plain`.
fn shim_relative_path(source_file: &str, to_bin: &str) -> (res: Result<String, ShimPathError>)
    ensures
        to_bin@.len() == 0 ==> res == Err::<String, ShimPathError>(ShimPathError::NoParent),
        shim_path_owed(source_file@, to_bin@) ==> res is Ok,
        shim_path_plain(source_file@, to_bin@) ==> (res matches Ok(r) && components(slashed(r@))
            == shim_relative_components(source_file@, to_bin@)),
{
    let parent = match path_parent(to_bin) {
        Some(p) => p,
        None => return Err(ShimPathError::NoParent),
    };
    proof {
        if shim_path_owed(source_file@, to_bin@) {
            assert(parent@.len() > 0 ==> parent@[0] == to_bin@[0]);
            if parent@.contains(':') {
                let k = choose|k: int| 0 <= k < parent@.len() && parent@[k] == ':';
                assert(to_bin@[k] == ':');
            }
            assert forall|i: int| 0 <= i && i + 1 < parent@.len() implies !(#[trigger] parent@[i]
                == '.' && parent@[i + 1] == '.') by {
                assert(parent@[i] == to_bin@[i] && parent@[i + 1] == to_bin@[i + 1]);
            }
            if shim_path_plain(source_file@, to_bin@) {
                crate::path_env::lemma_components_nonempty(to_bin@);
                if parent@.contains('\\') {
                    let k = choose|k: int| 0 <= k < parent@.len() && parent@[k] == '\\';
                    assert(to_bin@[k] == '\\');
                }
                assert(components(parent@) == components(to_bin@).drop_last());
                if components(parent@).contains("."@) {
                    let k = choose|k: int| 0 <= k < components(parent@).len() && components(parent@)[k] == "."@;
                    assert(components(to_bin@).drop_last()[k] == components(to_bin@)[k]);
                    assert(components(to_bin@)[k] == "."@);
                }
            }
        }
    }
    match diff_paths(source_file, parent.as_str()) {
        Some(r) => Ok(r),
        None => Err(ShimPathError::NoRelativePath),
    }
}

/// The wrappers at `to_bin` of the JavaScript entry point `source_file`:
/// whatever relative path leads there, all three run it. An empty wrapper
/// path has no directory; on the inputs of `shim_path_owed` the wrappers
/// are always made.
pub fn shim_files_for(source_file: &str, to_bin: &str) -> (res: Result<ShimFiles, ShimPathError>)
    ensures
        to_bin@.len() == 0 ==> res matches Err(ShimPathError::NoParent),
        shim_path_owed(source_file@, to_bin@) ==> res is Ok,
        res matches Ok(f) ==> exists|r: Seq<char>|
            f.sh@ == sh_text(r) && f.cmd@ == cmd_text(r) && f.ps1@ == pwsh_text(r) && (shim_path_plain(
                source_file@,
                to_bin@,
            ) ==> components(slashed(r)) == shim_relative_components(source_file@, to_bin@)),
{
    match shim_relative_path(source_file, to_bin) {
        Ok(r) => Ok(node_shim_files(r.as_str())),
        Err(e) => Err(e),
    }
}

/// The wrappers at `to_bin` of the native binary `source_file`, with
/// injected leading arguments: whatever relative path leads there, all
/// three run it.
pub fn native_shim_files_for(source_file: &str, to_bin: &str, args: &[&str]) -> (res: Result<
    ShimFiles,
    ShimPathError,
>)
    ensures
        to_bin@.len() == 0 ==> res matches Err(ShimPathError::NoParent),
        shim_path_owed(source_file@, to_bin@) ==> res is Ok,
        res matches Ok(f) ==> exists|r: Seq<char>|
            f.sh@ == native_sh_text(r, injected_args_text(arg_texts(args@))) && f.cmd@
                == native_cmd_text(r, injected_args_text(arg_texts(args@))) && f.ps1@
                == native_pwsh_text(r, injected_args_text(arg_texts(args@))) && (shim_path_plain(
                source_file@,
                to_bin@,
            ) ==> components(slashed(r)) == shim_relative_components(source_file@, to_bin@)),
{
    match shim_relative_path(source_file, to_bin) {
        Ok(r) => Ok(native_shim_files(r.as_str(), args)),
        Err(e) => Err(e),
    }
}

} // verus!
