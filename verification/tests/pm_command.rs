use vite_plus::pm_command::{config_options, ConfigCommand, PmCommand};

#[test]
fn test_pm_command_new() {
    let workspace_root = "/test".to_string();
    let cmd = PmCommand::new(workspace_root.clone());
    assert_eq!(cmd.cwd, workspace_root);
}

#[test]
fn global_wins_over_location() {
    let o = config_options(ConfigCommand::Get {
        key: "registry".to_string(),
        json: true,
        global: true,
        location: Some("project".to_string()),
    });
    assert_eq!(o.subcommand, "get");
    assert_eq!(o.key.as_deref(), Some("registry"));
    assert_eq!(o.location.as_deref(), Some("global"));
    assert!(o.json);
}

#[test]
fn config_subcommands_keep_their_fields() {
    let o = config_options(ConfigCommand::List { json: false, global: false, location: None });
    assert_eq!((o.subcommand, o.key, o.value, o.location), ("list", None, None, None));
    let o = config_options(ConfigCommand::Assign {
        key: "k".to_string(),
        value: "v".to_string(),
        json: false,
        global: false,
        location: Some("user".to_string()),
    });
    assert_eq!(o.subcommand, "set");
    assert_eq!(o.value.as_deref(), Some("v"));
    assert_eq!(o.location.as_deref(), Some("user"));
    let o = config_options(ConfigCommand::Delete { key: "k".to_string(), global: false, location: None });
    assert_eq!(o.subcommand, "delete");
    assert!(!o.json);
    assert_eq!(o.location, None);
}
