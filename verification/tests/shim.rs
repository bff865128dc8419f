use vite_plus::shim::{
    cmd_shim, format_injected_args, native_cmd_shim, native_pwsh_shim, native_sh_shim,
    native_shim_files, native_shim_files_for, node_shim_files, pwsh_shim, sh_shim, shim_files_for,
};

fn format_shim(shim: &str) -> String {
    shim.replace(' ', "·")
}

#[test]
fn test_native_shims_without_args() {
    let sh = native_sh_shim("bun.native", &[]);
    assert!(sh.contains("exec \"$basedir/bun.native\" \"$@\""), "{}", format_shim(&sh));

    let cmd = native_cmd_shim("bun.native", &[]);
    assert!(cmd.contains("@\"%~dp0\\bun.native\" %*"), "{}", format_shim(&cmd));

    let ps1 = native_pwsh_shim("bun.native", &[]);
    assert!(ps1.contains("& \"$basedir/bun.native\" $args"), "{}", format_shim(&ps1));
}

#[test]
fn test_native_shims_with_injected_args() {
    let sh = native_sh_shim("pnpm.native", &["dlx"]);
    assert!(sh.contains("exec \"$basedir/pnpm.native\" dlx \"$@\""), "{}", format_shim(&sh));

    let cmd = native_cmd_shim("pnpm.native", &["dlx"]);
    assert!(cmd.contains("@\"%~dp0\\pnpm.native\" dlx %*"), "{}", format_shim(&cmd));

    let ps1 = native_pwsh_shim("pnpm.native", &["dlx"]);
    assert!(
        ps1.contains("$input | & \"$basedir/pnpm.native\" dlx $args"),
        "{}",
        format_shim(&ps1)
    );
    assert!(ps1.contains("    & \"$basedir/pnpm.native\" dlx $args"), "{}", format_shim(&ps1));
}

#[test]
fn test_sh_shim() {
    let shim = sh_shim("pnpm.js");
    assert!(shim.contains("pnpm.js"), "{}", format_shim(&shim));
}

#[test]
fn test_cmd_shim() {
    let shim = cmd_shim("yarn.js");
    assert!(shim.contains("yarn.js"), "{}", format_shim(&shim));
    assert!(
        shim.contains("@SETLOCAL\r\n@IF EXIST \"%~dp0\\node.exe\" (\r\n"),
        "{}",
        format_shim(&shim)
    );

    let shim = cmd_shim("../../../../pnpm.js");
    assert!(
        shim.contains("node \"%~dp0\\..\\..\\..\\..\\pnpm.js\" %*"),
        "{}",
        format_shim(&shim)
    );
    assert!(
        shim.contains("@SETLOCAL\r\n@IF EXIST \"%~dp0\\node.exe\" (\r\n"),
        "{}",
        format_shim(&shim)
    );
}

#[test]
fn test_pwsh_shim() {
    let shim = pwsh_shim("pnpm.cjs");
    assert!(shim.contains("pnpm.cjs"), "{}", format_shim(&shim));
}

#[test]
fn test_sh_shim_content_validation() {
    let shim = sh_shim("lib/cli.js");
    assert!(shim.starts_with("#!/bin/sh"));
    assert!(shim.contains("*CYGWIN*|*MINGW*|*MSYS*)"));
    assert!(shim.contains("cygpath -w"));
    assert!(shim.contains("if [ -x \"$basedir/node\" ]"));
    assert!(shim.contains("exec \"$basedir/node\" \"$basedir/lib/cli.js\" \"$@\""));
    assert!(shim.contains("exec node \"$basedir/lib/cli.js\" \"$@\""));
}

#[test]
fn test_cmd_shim_content_validation() {
    let shim = cmd_shim("lib/cli.js");
    assert!(shim.starts_with("@SETLOCAL"));
    assert!(shim.contains("@IF EXIST \"%~dp0\\node.exe\""));
    assert!(shim.contains("\"%~dp0\\node.exe\" \"%~dp0\\lib\\cli.js\" %*"));
    assert!(shim.contains("@SET PATHEXT=%PATHEXT:;.JS;=;%"));
    assert!(shim.contains("node \"%~dp0\\lib\\cli.js\" %*"));
    assert!(shim.contains("\r\n"));
    assert!(!shim.contains("\n\n"));
}

#[test]
fn test_pwsh_shim_content_validation() {
    let shim = pwsh_shim("lib/cli.js");
    assert!(shim.starts_with("#!/usr/bin/env pwsh"));
    assert!(shim.contains("$PSVersionTable.PSVersion -lt \"6.0\""));
    assert!(shim.contains("$IsWindows"));
    assert!(shim.contains("Test-Path \"$basedir/node$exe\""));
    assert!(shim.contains("& \"$basedir/node$exe\" \"$basedir/lib/cli.js\" $args"));
    assert!(shim.contains("$MyInvocation.ExpectingInput"));
    assert!(shim.contains("$input |"));
    assert!(shim.contains("$ret=$LASTEXITCODE"));
    assert!(shim.contains("exit $ret"));
}

#[test]
fn test_cmd_shim_path_separator_conversion() {
    let shim = cmd_shim("node_modules/.bin/tool.js");
    assert!(shim.contains("node_modules\\.bin\\tool.js"));
    assert!(!shim.contains("node_modules/.bin/tool.js"));

    let shim = cmd_shim("a/b/c/d.js");
    assert!(shim.contains("a\\b\\c\\d.js"));
    assert!(!shim.contains("a/b/c/d.js"));
}

#[test]
fn test_relative_path_formats() {
    let paths = vec![
        "../script.js",
        "../../lib/cli.js",
        "../../../node_modules/.bin/tool.js",
        "script.js",
        "./script.js",
    ];

    for path in paths {
        let sh = sh_shim(path);
        assert!(sh.contains(path));

        let ps1 = pwsh_shim(path);
        assert!(ps1.contains(path));

        let cmd = cmd_shim(path);
        let expected_cmd_path = path.replace('/', "\\");
        assert!(cmd.contains(&expected_cmd_path));
    }
}

#[test]
fn test_native_shim_forwards_subcommand() {
    let files = native_shim_files_for("/tmp/t/bin/bun.native", "/tmp/t/bin/bunx", &["x"]).unwrap();
    assert!(files.sh.contains("exec \"$basedir/bun.native\" x \"$@\""));
    assert!(files.cmd.contains("@\"%~dp0\\bun.native\" x %*"));
    assert!(files.ps1.contains("& \"$basedir/bun.native\" x $args"));
}

#[test]
fn test_write_shims_basic() {
    let files = shim_files_for("/tmp/t/node_modules/.bin/pnpm.js", "/tmp/t/bin/pnpm").unwrap();
    assert!(files.sh.contains("#!/bin/sh"));
    assert!(files.sh.contains("../node_modules/.bin/pnpm.js"));
    assert!(files.cmd.contains("@SETLOCAL"));
    assert!(files.cmd.contains("..\\node_modules\\.bin\\pnpm.js"));
    assert!(files.ps1.contains("#!/usr/bin/env pwsh"));
    assert!(files.ps1.contains("../node_modules/.bin/pnpm.js"));
}

#[test]
fn test_write_shims_relative_paths() {
    let files = shim_files_for("/tmp/t/deep/nested/path/script.js", "/tmp/t/bin/script").unwrap();
    assert!(files.sh.contains("../deep/nested/path/script.js"));
    let files = shim_files_for("/tmp/t/scripts/tool.js", "/tmp/t/bin/tool").unwrap();
    assert!(files.sh.contains("../scripts/tool.js"));
}

#[test]
fn test_write_shims_windows_path_conversion() {
    let files = shim_files_for("/tmp/t/node_modules/package/bin.js", "/tmp/t/bin/package").unwrap();
    assert!(files.sh.contains("../node_modules/package/bin.js"));
    assert!(files.cmd.contains("..\\node_modules\\package\\bin.js"));
    assert!(!files.cmd.contains("../node_modules/package/bin.js"));
    assert!(files.ps1.contains("../node_modules/package/bin.js"));
    assert!(!files.ps1.contains("..\\node_modules\\"));
}

#[test]
fn test_write_shims_complex_relative_path() {
    let files = shim_files_for("/tmp/t/a/b/c/script.js", "/tmp/t/x/y/z/script").unwrap();
    assert!(files.sh.contains("#!/bin/sh"));
    assert!(files.sh.contains("../../a/b/c/script.js"));
    assert!(files.cmd.contains("..\\..\\a\\b\\c\\script.js"));
}

#[test]
fn a_wrapper_without_a_directory_has_no_relative_path() {
    assert!(shim_files_for("/tmp/t/a.js", "/").is_err());
    assert!(shim_files_for("a.js", "/tmp/bin/x").is_err());
}

#[test]
fn injected_arguments_end_with_a_space() {
    assert_eq!(format_injected_args(&[]), "");
    assert_eq!(format_injected_args(&["dlx"]), "dlx ");
    assert_eq!(format_injected_args(&["a", "b"]), "a b ");
}

#[test]
fn native_shell_wrapper_is_exact() {
    let expected = "#!/bin/sh\nbasedir=$(dirname \"$(echo \"$0\" | sed -e 's,\\\\,/,g')\")\n\ncase `uname` in\n    *CYGWIN*|*MINGW*|*MSYS*)\n        if command -v cygpath > /dev/null 2>&1; then\n            basedir=`cygpath -w \"$basedir\"`\n        fi\n    ;;\nesac\n\nexec \"$basedir/pnpm.native\" dlx \"$@\"\n";
    assert_eq!(native_sh_shim("pnpm.native", &["dlx"]), expected);
    assert_eq!(
        native_cmd_shim("sub/pnpm.native", &[]),
        "@SETLOCAL\r\n@\"%~dp0\\sub\\pnpm.native\" %*\r\n"
    );
}

#[test]
fn relative_inputs_always_make_wrappers() {
    let files = shim_files_for("node_modules/pnpm/bin/pnpm.cjs", "bin/pnpm").unwrap();
    assert!(files.sh.contains("pnpm.cjs"));
    assert!(native_shim_files_for("tools/bun.native", "bin/bunx", &["x"]).is_ok());
    assert!(shim_files_for("a.js", "").is_err());
    assert!(native_shim_files_for("a", "", &[]).is_err());
}

#[test]
fn relative_wrappers_run_the_path_from_their_own_directory() {
    let files = shim_files_for("node_modules/pnpm/bin/pnpm.cjs", "node_modules/.bin/pnpm").unwrap();
    assert_eq!(files, node_shim_files("../pnpm/bin/pnpm.cjs"));
    let files = shim_files_for("a/b/tool.js", "a/b/tool").unwrap();
    assert_eq!(files, node_shim_files("tool.js"));
    let files = native_shim_files_for("tools/bun.native", "x/y/bunx", &[]).unwrap();
    assert_eq!(files, native_shim_files("../../tools/bun.native", &[]));
}
