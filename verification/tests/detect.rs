use herdr_worktree_setup::detect::{
    declared_node_manager, detect_installs, files_to_probe, has_envrc, manager_of,
    mise_config_files, InstallKind,
};

fn files(items: &[&str]) -> Vec<String> {
    items.iter().map(|s| s.to_string()).collect()
}

fn labels(present: &[&str], package_json: Option<&str>) -> Vec<String> {
    detect_installs(&files(present), package_json).into_iter().map(|c| c.label).collect()
}

#[test]
fn package_manager_field_wins_over_lockfiles() {
    assert_eq!(
        labels(&["package.json", "yarn.lock"], Some(r#"{"packageManager":"pnpm@9.1.0"}"#)),
        vec!["pnpm install"]
    );
}

#[test]
fn hostile_package_manager_fields_never_reach_a_command() {
    for hostile in [
        r#"{"packageManager":"x; touch /tmp/pwned; echo y@1"}"#,
        r#"{"packageManager":"./evil@1"}"#,
        r#"{"packageManager":"/bin/sh@1"}"#,
        r#"{"packageManager":"../../../../bin/sh@1"}"#,
        r#"{"packageManager":"npm; id@1"}"#,
        r#"{"packageManager":"$(id)@1"}"#,
        r#"{"packageManager":"`id`@1"}"#,
        r#"{"packageManager":"npm\ninstall@1"}"#,
        r#"{"packageManager":"NPM@1"}"#,
        r#"{"packageManager":" npm @1"}"#,
        r#"{"packageManager":"@1"}"#,
        r#"{"packageManager":123}"#,
    ] {
        let cmds = detect_installs(&files(&["package.json"]), Some(hostile));
        // With no lockfile the fallback is plain npm; nothing else may appear.
        assert_eq!(cmds.len(), 1, "{hostile}");
        assert_eq!(cmds[0].argv, vec!["npm", "install"], "{hostile}");
        assert_eq!(cmds[0].tool, "npm", "{hostile}");
    }
}

#[test]
fn hostile_field_falls_back_to_the_lockfile_not_the_field() {
    assert_eq!(
        labels(&["package.json", "pnpm-lock.yaml"], Some(r#"{"packageManager":"evil; id@1"}"#)),
        vec!["pnpm install"]
    );
}

#[test]
fn every_install_argv_is_a_bare_program_plus_literal_args() {
    let present = [
        "package.json",
        "uv.lock",
        "Gemfile.lock",
        "go.sum",
        "mix.lock",
        "composer.lock",
        "Cargo.lock",
    ];
    let cmds = detect_installs(&files(&present), Some("{}"));
    assert!(cmds.len() >= 7);
    for c in cmds {
        assert!(!c.tool.is_empty());
        assert!(
            c.tool.chars().all(|ch| ch.is_ascii_alphanumeric() || ch == '-' || ch == '_'),
            "tool `{}` is not a bare program name",
            c.tool
        );
        assert_eq!(c.argv[0], c.tool);
        for arg in &c.argv {
            assert!(
                !arg.chars().any(|ch| " \t\n;|&$`<>(){}[]*?!\\\"'".contains(ch)),
                "argv element `{arg}` contains a shell metacharacter"
            );
        }
    }
}

#[test]
fn lockfile_detection_and_multiple_ecosystems() {
    assert_eq!(
        labels(&["package.json", "bun.lock", "uv.lock", "Cargo.lock"], Some("{}")),
        vec!["bun install", "uv sync", "cargo fetch"]
    );
}

#[test]
fn package_json_without_lockfile_uses_npm_and_nothing_else() {
    let cmds = detect_installs(&files(&["package.json"]), Some("{}"));
    assert_eq!(cmds.len(), 1);
    assert_eq!(cmds[0].tool, "npm");
    assert!(detect_installs(&files(&[]), None).is_empty());
}

#[test]
fn mise_and_direnv_presence() {
    assert!(mise_config_files("/wt", &files(&[])).is_empty());
    assert!(!has_envrc(&files(&[])));
    let present = files(&["mise.toml", ".tool-versions", ".envrc"]);
    assert_eq!(mise_config_files("/wt", &present).len(), 2);
    assert!(has_envrc(&present));
    assert!(mise_config_files("/wt", &present).contains(&"/wt/mise.toml".to_string()));
}

#[test]
fn the_field_names_one_of_the_managers() {
    assert_eq!(manager_of("pnpm@9.1.0"), Some(InstallKind::Pnpm));
    assert_eq!(manager_of("yarn"), Some(InstallKind::Yarn));
    assert_eq!(manager_of("bun@1"), Some(InstallKind::Bun));
    assert_eq!(manager_of("npm@10@x"), Some(InstallKind::Npm));
    assert_eq!(manager_of("cargo"), None);
    assert_eq!(
        declared_node_manager(Some(r#"{"name":"x","packageManager":"yarn@4"}"#)),
        Some(InstallKind::Yarn)
    );
    assert_eq!(declared_node_manager(Some("{not json")), None);
    assert_eq!(declared_node_manager(Some(r#"{"nested":{"packageManager":"yarn@4"}}"#)), None);
    assert_eq!(declared_node_manager(None), None);
}

#[test]
fn everything_that_is_detected_is_probed() {
    let probed = files_to_probe();
    for name in ["package.json", "pnpm-lock.yaml", "uv.lock", "Cargo.lock", "mise.toml", ".envrc"] {
        assert!(probed.contains(&name.to_string()), "{name} is not probed");
    }
}
