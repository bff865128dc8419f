use vite_plus::toolchain::{
    build_report, display_node, filter_manifest, node_by_id, render, root_version, toolchain_command,
    unknown_filter_output, OutputLine, ToolchainOutcome,
    validate_manifest, why_hint, Delivery, Edge, Manifest, Node, NodeKind, Relationship, Scope,
    Source, ToolchainError,
};

fn node(id: &str, name: &str, version: &str, kind: NodeKind, aliases: &[&str]) -> Node {
    Node {
        id: id.to_string(),
        name: name.to_string(),
        version: Some(version.to_string()),
        revision: None,
        built_at: None,
        kind,
        delivery: vec![Delivery::Dependency],
        aliases: aliases.iter().map(|a| a.to_string()).collect(),
    }
}

fn edge(from: &str, to: &str, relationship: Relationship) -> Edge {
    Edge { from: from.to_string(), to: to.to_string(), relationship }
}

fn manifest() -> Manifest {
    Manifest {
        schema_version: 1,
        nodes: vec![
            node("vite-plus", "vite-plus", "1.0.0", NodeKind::Package, &[]),
            node("core", "@scope/core", "1.0.0", NodeKind::Package, &["core"]),
            node("vite", "vite", "8.0.0", NodeKind::Tool, &[]),
            node("rolldown", "rolldown", "1.0.0", NodeKind::Tool, &[]),
            node("oxc", "oxc", "0.1.0", NodeKind::Engine, &[]),
            node("oxc-resolver", "oxc-resolver", "1.0.0", NodeKind::Engine, &[]),
            node("vitest", "vitest", "4.0.0", NodeKind::Tool, &[]),
        ],
        edges: vec![
            edge("vite-plus", "core", Relationship::DependsOn),
            edge("core", "vite", Relationship::Bundles),
            edge("vite", "rolldown", Relationship::Uses),
            edge("core", "rolldown", Relationship::Bundles),
            edge("rolldown", "oxc", Relationship::Compiles),
            edge("rolldown", "oxc-resolver", Relationship::Compiles),
            edge("vite-plus", "vitest", Relationship::DependsOn),
        ],
    }
}

fn ids(m: &Manifest) -> Vec<&str> {
    m.nodes.iter().map(|n| n.id.as_str()).collect()
}

fn source() -> Source {
    Source {
        scope: Scope::Local,
        path: "/project/node_modules/vite-plus".to_string(),
        vite_plus_version: "1.0.0".to_string(),
    }
}

#[test]
fn vite_filter_keeps_ownership_and_engine_chain_without_unrelated_edges() {
    let filtered = filter_manifest(&manifest(), &["vite"]).unwrap();
    assert_eq!(ids(&filtered), ["vite-plus", "core", "vite", "rolldown", "oxc", "oxc-resolver"]);
    assert_eq!(
        filtered.edges.iter().map(|e| (e.from.as_str(), e.to.as_str())).collect::<Vec<_>>(),
        [
            ("vite-plus", "core"),
            ("core", "vite"),
            ("vite", "rolldown"),
            ("rolldown", "oxc"),
            ("rolldown", "oxc-resolver")
        ]
    );
}

#[test]
fn multiple_filters_form_a_stable_union() {
    let filtered = filter_manifest(&manifest(), &["vite", "vitest"]).unwrap();
    assert_eq!(
        ids(&filtered),
        ["vite-plus", "core", "vite", "rolldown", "oxc", "oxc-resolver", "vitest"]
    );
}

#[test]
fn overlapping_filters_are_order_independent() {
    let a = filter_manifest(&manifest(), &["oxc", "vite"]).unwrap();
    let b = filter_manifest(&manifest(), &["vite", "oxc"]).unwrap();
    assert_eq!(a, b);
    assert!(a.edges.iter().any(|e| e.from == "rolldown"
        && e.to == "oxc-resolver"
        && e.relationship == Relationship::Compiles));
}

#[test]
fn aliases_match() {
    let filtered = filter_manifest(&manifest(), &["core"]).unwrap();
    assert!(filtered.nodes.iter().any(|n| n.id == "core"));
}

#[test]
fn no_filters_keep_everything() {
    assert_eq!(filter_manifest(&manifest(), &[]).unwrap(), manifest());
}

#[test]
fn unknown_filter_is_an_error() {
    let error = filter_manifest(&manifest(), &["vite", "rollup"]).unwrap_err();
    assert_eq!(error, ToolchainError::UnknownFilter("rollup".to_string()));
    assert_eq!(error.message(), "`rollup` is not in the Vite+ toolchain");
}

#[test]
fn validation_accepts_the_manifest() {
    assert_eq!(validate_manifest(&manifest()), Ok(()));
    let mut m = manifest();
    m.nodes[1].aliases.push("core".to_string());
    assert_eq!(validate_manifest(&m), Ok(()));
}

#[test]
fn validation_rejects_filter_labels_shared_by_different_nodes() {
    let mut m = manifest();
    m.nodes[6].aliases.push("vite".to_string());
    let error = validate_manifest(&m).unwrap_err();
    assert_eq!(
        error.message(),
        "invalid toolchain manifest: filter label `vite` is shared by `vite` and `vitest`"
    );
}

#[test]
fn validation_rejects_bad_schema_duplicates_and_unknown_edges() {
    let mut m = manifest();
    m.schema_version = 2;
    assert_eq!(validate_manifest(&m), Err(ToolchainError::UnsupportedSchema(2)));
    assert_eq!(
        ToolchainError::UnsupportedSchema(2).message(),
        "unsupported toolchain manifest schema version 2"
    );
    let mut m = manifest();
    m.nodes.push(node("vite", "vite-again", "1.0.0", NodeKind::Tool, &[]));
    assert_eq!(
        validate_manifest(&m),
        Err(ToolchainError::InvalidManifest("duplicate node ID `vite`".to_string()))
    );
    let mut m = manifest();
    m.edges.push(edge("vite", "nowhere", Relationship::Uses));
    assert_eq!(
        validate_manifest(&m),
        Err(ToolchainError::InvalidManifest(
            "edge references an unknown node: vite -> nowhere".to_string()
        ))
    );
}

#[test]
fn manifest_rejects_invalid_or_ambiguous_build_times() {
    let mut m = manifest();
    m.nodes[0].built_at = Some("2026-08-06 09:30:00Z".to_string());
    assert!(matches!(validate_manifest(&m),
        Err(ToolchainError::InvalidManifest(message)) if message.contains("invalid UTC build time")));
    m.nodes[0].built_at = Some("2026-08-06T09:30:00Z".to_string());
    assert!(matches!(validate_manifest(&m),
        Err(ToolchainError::InvalidManifest(message)) if message.contains("both a version and build time")));
}

#[test]
fn manifest_accepts_a_revision_before_the_native_build_exists() {
    let mut m = manifest();
    m.nodes.push(Node {
        id: "vite-task".to_string(),
        name: "vite-task".to_string(),
        version: None,
        revision: Some("ebe583739b0b1e7828199b9ee9dd52273fa2fd20".to_string()),
        built_at: None,
        kind: NodeKind::Tool,
        delivery: vec![Delivery::Compiled],
        aliases: Vec::new(),
    });
    m.edges.push(edge("vite", "vite-task", Relationship::Compiles));
    assert_eq!(validate_manifest(&m), Ok(()));
}

#[test]
fn build_time_replaces_a_placeholder_version_in_human_output() {
    let n = Node {
        id: "vite-task".to_string(),
        name: "vite-task".to_string(),
        version: None,
        revision: Some("ebe583739b0b1e7828199b9ee9dd52273fa2fd20".to_string()),
        built_at: Some("2026-08-06T09:30:00Z".to_string()),
        kind: NodeKind::Tool,
        delivery: vec![Delivery::Compiled],
        aliases: Vec::new(),
    };
    assert_eq!(
        display_node(&n),
        "vite-task (built 2026-08-06T09:30:00Z, revision ebe583739b0b1e7828199b9ee9dd52273fa2fd20)"
    );
}

#[test]
fn display_covers_versions_and_revisions() {
    let mut n = node("x", "x", "1.2.3", NodeKind::Tool, &[]);
    assert_eq!(display_node(&n), "x@1.2.3");
    n.revision = Some("abc".to_string());
    assert_eq!(display_node(&n), "x@1.2.3 (abc)");
    n.version = None;
    assert_eq!(display_node(&n), "x (revision abc)");
    n.revision = None;
    n.built_at = Some("2026-01-01T00:00:00Z".to_string());
    assert_eq!(display_node(&n), "x (built 2026-01-01T00:00:00Z)");
}

#[test]
fn human_tree_repeats_shared_nodes_in_the_full_graph() {
    let report = build_report(&manifest(), &[], source()).unwrap();
    assert_eq!(
        render(&report),
        "Vite+ toolchain (local)\n\
         \n\
         vite-plus@1.0.0\n\
         |-- depends on @scope/core@1.0.0\n\
         |   |-- bundles vite@8.0.0\n\
         |   |   `-- uses rolldown@1.0.0\n\
         |   |       |-- compiles oxc@0.1.0\n\
         |   |       `-- compiles oxc-resolver@1.0.0\n\
         |   `-- bundles rolldown@1.0.0\n\
         |       |-- compiles oxc@0.1.0\n\
         |       `-- compiles oxc-resolver@1.0.0\n\
         `-- depends on vitest@4.0.0\n"
    );
}

#[test]
fn cycles_are_cut_on_the_path() {
    let mut m = manifest();
    m.edges.push(edge("oxc", "rolldown", Relationship::Uses));
    let report = build_report(&m, &["oxc"], source()).unwrap();
    let text = render(&report);
    assert!(text.starts_with("Vite+ toolchain (local)\n\n"));
    assert!(text.contains("`-- uses rolldown@1.0.0\n"));
}

#[test]
fn build_report_validates_first() {
    let mut m = manifest();
    m.schema_version = 3;
    assert_eq!(build_report(&m, &["vite"], source()).unwrap_err(), ToolchainError::UnsupportedSchema(3));
}

#[test]
fn why_hint_uses_all_matching_queries() {
    assert_eq!(
        why_hint(&manifest(), &["vite", "vitest"]).as_deref(),
        Some(
            "Vite+ also provides vite@8.0.0, vitest@4.0.0 through its toolchain.\n\
             Run `vp toolchain vite vitest` to show these versions and relationships."
        )
    );
}

#[test]
fn why_hint_keeps_matching_queries() {
    assert_eq!(
        why_hint(&manifest(), &["vite", "react", "vite"]).as_deref(),
        Some(
            "Vite+ also provides vite@8.0.0 through its toolchain.\n\
             Run `vp toolchain vite` to show these versions and relationships."
        )
    );
    assert_eq!(why_hint(&manifest(), &["react"]), None);
}

#[test]
fn lookups_find_nodes() {
    assert_eq!(root_version(&manifest()).as_deref(), Some("1.0.0"));
    assert_eq!(node_by_id(&manifest(), "vite").map(|n| n.name.as_str()), Some("vite"));
    assert!(node_by_id(&manifest(), "nope").is_none());
    assert_eq!(Scope::Global.display(), "global");
    assert_eq!(Relationship::DependsOn.display(), "depends on");
}

#[test]
fn validation_allows_a_nodes_alias_to_repeat_its_id() {
    let mut m = manifest();
    m.nodes[1].aliases.push("core".to_string());
    validate_manifest(&m).unwrap();
}


#[test]
fn toolchain_command_refuses_global() {
    match toolchain_command(true, false, &manifest(), &[], "/p") {
        ToolchainOutcome::Refused(lines) => assert_eq!(
            lines,
            vec![OutputLine::Error("The `--global` option requires the global `vp` CLI".to_string())]
        ),
        other => panic!("unexpected {other:?}"),
    }
}

#[test]
fn toolchain_command_reports_unknown_filters() {
    match toolchain_command(false, false, &manifest(), &["rollup-x"], "/p") {
        ToolchainOutcome::Refused(lines) => assert_eq!(
            lines,
            vec![
                OutputLine::Error("`rollup-x` is not in the Vite+ toolchain".to_string()),
                OutputLine::Raw("hint: run `vp why rollup-x` to show project dependencies".to_string()),
            ]
        ),
        other => panic!("unexpected {other:?}"),
    }
    assert_eq!(
        unknown_filter_output(true, "x"),
        vec![OutputLine::Raw("error: `x` is not in the Vite+ toolchain".to_string())]
    );
}

#[test]
fn toolchain_command_shows_the_local_report() {
    match toolchain_command(false, false, &manifest(), &[], "/project/node_modules/vite-plus") {
        ToolchainOutcome::Show { report, rendered } => {
            assert_eq!(report.source, source());
            assert_eq!(rendered, Some(render(&report)));
            assert!(rendered.unwrap().starts_with("Vite+ toolchain (local)\n\n"));
        }
        other => panic!("unexpected {other:?}"),
    }
    match toolchain_command(false, true, &manifest(), &["vitest"], "/p") {
        ToolchainOutcome::Show { report, rendered } => {
            assert!(rendered.is_none());
            assert_eq!(report.source.vite_plus_version, "1.0.0");
            assert!(report.nodes.iter().any(|n| n.id == "vitest"));
        }
        other => panic!("unexpected {other:?}"),
    }
}

#[test]
fn toolchain_command_needs_a_vite_plus_version() {
    let mut m = manifest();
    m.nodes[0].version = None;
    assert!(matches!(toolchain_command(false, false, &m, &[], "/p"), ToolchainOutcome::MissingVitePlus));
    let mut m = manifest();
    m.schema_version = 2;
    assert!(matches!(toolchain_command(false, false, &m, &[], "/p"), ToolchainOutcome::Failed(_)));
}

#[test]
fn filtering_again_with_the_same_filters_changes_nothing() {
    for filters in [&["vite"][..], &["vite", "vitest"][..], &["oxc"][..]] {
        let once = filter_manifest(&manifest(), filters).unwrap();
        let twice = filter_manifest(&once, filters).unwrap();
        assert_eq!(twice, once);
    }
}

#[test]
fn no_filters_keep_a_manifest_with_unknown_edge_ends() {
    let mut m = manifest();
    m.edges.push(edge("ghost", "vite", Relationship::Uses));
    assert_eq!(filter_manifest(&m, &[]).unwrap(), m);
}

#[test]
fn filters_keep_what_each_filter_keeps_alone() {
    let both = filter_manifest(&manifest(), &["vite", "vitest"]).unwrap();
    let vite = filter_manifest(&manifest(), &["vite"]).unwrap();
    let vitest = filter_manifest(&manifest(), &["vitest"]).unwrap();
    for n in &both.nodes {
        assert!(vite.nodes.contains(n) || vitest.nodes.contains(n));
    }
    for n in vite.nodes.iter().chain(vitest.nodes.iter()) {
        assert!(both.nodes.contains(n));
    }
}
