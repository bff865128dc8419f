use vite_plus::cli::help::{invalid_subcommand_messages, unknown_argument_messages, Suggested};

fn strings(values: &[&str]) -> Vec<String> {
    values.iter().map(|v| v.to_string()).collect()
}

#[test]
fn cli_unknown_argument_detected_without_pass_as_value_hint() {
    let (first, hint) = unknown_argument_messages("--cache", &[]);
    assert_eq!(first, "Unexpected argument '--cache'");
    assert!(hint.is_none());
}

#[test]
fn help_unknown_argument_detected_without_pass_as_value_hint() {
    let (first, hint) =
        unknown_argument_messages("--cache", &strings(&["a similar argument exists: '--cached'"]));
    assert_eq!(first, "Unexpected argument '--cache'");
    assert!(hint.is_none());
}

#[test]
fn pass_as_value_suggestions_get_a_hint() {
    let (_, hint) = unknown_argument_messages(
        "-x",
        &strings(&["to pass '-x' as a value, use '-- -x'"]),
    );
    assert_eq!(hint.as_deref(), Some("Use `-- -x` to pass the argument as a value"));
}

#[test]
fn unknown_subcommands_name_the_closest_command() {
    let (first, hint) = invalid_subcommand_messages("buidl", &Suggested::Nothing);
    assert_eq!(first, "Command 'buidl' not found");
    assert!(hint.is_none());
    let (_, hint) = invalid_subcommand_messages("buidl", &Suggested::One("build".to_string()));
    assert_eq!(hint.as_deref(), Some("Did you mean `vp build`?"));
    let (_, hint) =
        invalid_subcommand_messages("tset", &Suggested::Many(strings(&["test", "dev", "exec"])));
    assert_eq!(hint.as_deref(), Some("Did you mean `vp test`?"));
    let (_, hint) = invalid_subcommand_messages("x", &Suggested::Many(Vec::new()));
    assert!(hint.is_none());
}
