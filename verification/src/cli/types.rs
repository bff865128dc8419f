//! The built-in subcommands of `vp`.
use vstd::prelude::*;

verus! {

/// Built-in subcommands that resolve to a concrete tool (oxlint, vitest,
/// vite, ...). Each but `check` passes its arguments through.
#[derive(Debug, Clone)]
pub enum SynthesizableSubcommand {
    Lint { args: Vec<String> },
    Fmt { args: Vec<String> },
    Build { args: Vec<String> },
    Test { args: Vec<String> },
    Pack { args: Vec<String> },
    Dev { args: Vec<String> },
    Preview { args: Vec<String> },
    Doc { args: Vec<String> },
    Install { args: Vec<String> },
    Check {
        fix: bool,
        no_fmt: bool,
        no_lint: bool,
        no_error_on_unmatched_pattern: bool,
        paths: Vec<String>,
    },
}

/// The name of a subcommand, as `VP_COMMAND` carries it.
pub open spec fn command_name_text(s: SynthesizableSubcommand) -> Seq<char> {
    match s {
        SynthesizableSubcommand::Lint { .. } => "lint"@,
        SynthesizableSubcommand::Fmt { .. } => "fmt"@,
        SynthesizableSubcommand::Build { .. } => "build"@,
        SynthesizableSubcommand::Test { .. } => "test"@,
        SynthesizableSubcommand::Pack { .. } => "pack"@,
        SynthesizableSubcommand::Dev { .. } => "dev"@,
        SynthesizableSubcommand::Preview { .. } => "preview"@,
        SynthesizableSubcommand::Doc { .. } => "doc"@,
        SynthesizableSubcommand::Install { .. } => "install"@,
        SynthesizableSubcommand::Check { .. } => "check"@,
    }
}

impl SynthesizableSubcommand {
    /// The command name for the `VP_COMMAND` environment variable.
    pub fn command_name(&self) -> (res: &'static str)
        ensures
            res@ == command_name_text(*self),
    {
        match self {
            SynthesizableSubcommand::Lint { .. } => "lint",
            SynthesizableSubcommand::Fmt { .. } => "fmt",
            SynthesizableSubcommand::Build { .. } => "build",
            SynthesizableSubcommand::Test { .. } => "test",
            SynthesizableSubcommand::Pack { .. } => "pack",
            SynthesizableSubcommand::Dev { .. } => "dev",
            SynthesizableSubcommand::Preview { .. } => "preview",
            SynthesizableSubcommand::Doc { .. } => "doc",
            SynthesizableSubcommand::Install { .. } => "install",
            SynthesizableSubcommand::Check { .. } => "check",
        }
    }
}

} // verus!
