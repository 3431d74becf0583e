use herdr_worktree_setup::config::{
    extend_unique, repo_env_allowed, BranchFile, CloneMode, Config, ConfigLayer, Direction,
    LayerRead, Origin, Placement, StepDef, REPO_FILE, REPO_LOCAL_FILE, USER_FILE,
};
use herdr_worktree_setup::envmap::EnvMap;

fn list(items: &[&str]) -> Vec<String> {
    items.iter().map(|s| s.to_string()).collect()
}

fn vars(items: &[(&str, &str)]) -> EnvMap {
    let mut map = EnvMap::new();
    for (k, v) in items {
        map.insert(k.to_string(), v.to_string());
    }
    map
}

fn step(name: &str, run: &str) -> StepDef {
    StepDef {
        name: name.to_string(),
        run: run.to_string(),
        if_path: None,
        continue_on_error: false,
        origin: Origin::Default,
    }
}

fn no_branch_file() -> BranchFile {
    BranchFile { present: false, branch: None, source: None }
}

fn load(user: LayerRead, repo: LayerRead, local: LayerRead) -> Config {
    Config::load("/cfg", "/src", user, repo, local, &no_branch_file(), &no_branch_file()).unwrap()
}

#[test]
fn defaults_are_sane() {
    let cfg = Config::default();
    assert_eq!(cfg.auto_close_secs, 5);
    assert!(cfg.focus && cfg.install);
    assert_eq!(cfg.placement, Placement::Split);
    assert!(cfg.copy.iter().any(|p| p == ".env.*"));
    assert!(cfg.clone.iter().any(|p| p == "node_modules/"));
    assert!(cfg.exclude.iter().any(|p| p == ".env.*.example"));
}

#[test]
fn layers_merge_in_order_and_lists_extend() {
    let cfg = load(
        LayerRead::Parsed(ConfigLayer {
            auto_close_secs: Some(9),
            copy: list(&[".secrets/"]),
            ..ConfigLayer::default()
        }),
        LayerRead::Parsed(ConfigLayer {
            install: Some(false),
            clone: list(&[".pio/"]),
            steps: vec![StepDef {
                if_path: Some("prisma/schema.prisma".to_string()),
                ..step("migrate", "pnpm db:migrate")
            }],
            ..ConfigLayer::default()
        }),
        LayerRead::Parsed(ConfigLayer {
            total_size_cap_mb: Some(100),
            env: vars(&[("FOO", "bar")]),
            ..ConfigLayer::default()
        }),
    );
    assert_eq!(cfg.auto_close_secs, 9, "user layer applies");
    assert!(!cfg.install, "repo layer may disable install");
    assert_eq!(cfg.total_size_cap_mb, 100, "repo-local may lower a cap");
    assert!(cfg.copy.iter().any(|p| p == ".secrets/"));
    assert!(cfg.copy.iter().any(|p| p == ".env"), "defaults kept");
    assert!(cfg.clone.iter().any(|p| p == ".pio/"));
    assert_eq!(cfg.env.get("FOO").map(String::as_str), Some("bar"));
    assert_eq!(cfg.steps.len(), 1);
    assert_eq!(cfg.steps[0].origin, Origin::Repo);
    assert_eq!(cfg.steps[0].if_path.as_deref(), Some("prisma/schema.prisma"));
    assert_eq!(cfg.layers.len(), 3);
    assert_eq!(cfg.layers[0], (Origin::User, format!("/cfg/{USER_FILE}")));
    assert_eq!(cfg.layers[1], (Origin::Repo, format!("/src/{REPO_FILE}")));
    assert_eq!(cfg.layers[2], (Origin::RepoLocal, format!("/src/{REPO_LOCAL_FILE}")));
    assert!(cfg.warnings.is_empty(), "{:?}", cfg.warnings);
}

#[test]
fn a_config_committed_on_the_branch_is_ignored_and_reported() {
    let branch = BranchFile {
        present: true,
        branch: Some(b"install = false\nauto_close_secs = 0\n[[steps]]\nname = 'pwn'\nrun = 'id'\n".to_vec()),
        source: None,
    };
    let cfg = Config::load(
        "/cfg",
        "/src",
        LayerRead::Missing,
        LayerRead::Missing,
        LayerRead::Missing,
        &branch,
        &no_branch_file(),
    )
    .unwrap();
    assert!(cfg.install, "branch config must not take effect");
    assert_eq!(cfg.auto_close_secs, 5);
    assert!(cfg.steps.is_empty(), "branch steps must not be collected");
    assert!(cfg.layers.is_empty(), "branch file is not a config layer");
    assert_eq!(cfg.warnings.len(), 1);
    assert!(cfg.warnings[0].contains("ignored .herdr-worktree.toml from the worktree"));
    assert_eq!(
        cfg.warnings[0],
        "ignored .herdr-worktree.toml from the worktree: configuration is read from /src (the branch does not get to configure its own setup)"
    );
}

#[test]
fn an_identical_branch_copy_is_not_reported() {
    let same = BranchFile {
        present: true,
        branch: Some(b"install = false\n".to_vec()),
        source: Some(b"install = false\n".to_vec()),
    };
    let cfg = Config::load(
        "/cfg",
        "/src",
        LayerRead::Missing,
        LayerRead::Parsed(ConfigLayer { install: Some(false), ..ConfigLayer::default() }),
        LayerRead::Missing,
        &same,
        &no_branch_file(),
    )
    .unwrap();
    assert!(!cfg.install);
    assert!(cfg.warnings.is_empty(), "{:?}", cfg.warnings);
}

#[test]
fn a_repo_layer_can_only_restrict() {
    let cfg = load(
        LayerRead::Parsed(ConfigLayer {
            install: Some(false),
            mise_trust: Some(false),
            direnv_allow: Some(false),
            use_mise: Some(false),
            use_direnv: Some(false),
            copy_size_cap_mb: Some(10),
            total_size_cap_mb: Some(20),
            step_timeout_secs: Some(60),
            ..ConfigLayer::default()
        }),
        LayerRead::Parsed(ConfigLayer {
            install: Some(true),
            mise_trust: Some(true),
            direnv_allow: Some(true),
            use_mise: Some(true),
            use_direnv: Some(true),
            copy_size_cap_mb: Some(99999),
            total_size_cap_mb: Some(99999),
            step_timeout_secs: Some(99999),
            mode: Some(CloneMode::Copy),
            focus: Some(false),
            placement: Some(Placement::Tab),
            direction: Some(Direction::Right),
            color: Some(false),
            trust_repo_steps: Some(false),
            symlink: list(&["node_modules/"]),
            ..ConfigLayer::default()
        }),
        LayerRead::Missing,
    );
    assert!(!cfg.install, "install stays off");
    assert!(!cfg.mise_trust && !cfg.direnv_allow, "trust grants stay off");
    assert!(!cfg.use_mise && !cfg.use_direnv);
    assert_eq!(cfg.copy_size_cap_mb, 10, "cap not raised");
    assert_eq!(cfg.total_size_cap_mb, 20, "cap not raised");
    assert_eq!(cfg.step_timeout_secs, 60, "timeout not raised");
    assert_eq!(cfg.mode, CloneMode::Reflink, "mode is host-only");
    assert!(cfg.focus, "focus is host-only");
    assert_eq!(cfg.placement, Placement::Split);
    assert_eq!(cfg.direction, Direction::Down);
    assert!(cfg.color);
    assert!(cfg.trust_repo_steps, "a repo cannot change its own trust");
    assert!(cfg.symlink.is_empty(), "a repo cannot alias the worktree at the source");
    for key in [
        "install",
        "mise_trust",
        "direnv_allow",
        "use_mise",
        "use_direnv",
        "copy_size_cap_mb",
        "total_size_cap_mb",
        "step_timeout_secs",
        "mode",
        "focus",
        "placement",
        "direction",
        "color",
        "trust_repo_steps",
        "symlink",
    ] {
        assert!(
            cfg.warnings.iter().any(|w| w.contains(&format!("`{key}`"))),
            "no warning for {key} in {:?}",
            cfg.warnings
        );
    }
}

#[test]
fn a_repo_layer_may_lower_a_cap_and_turn_things_off() {
    let cfg = load(
        LayerRead::Parsed(ConfigLayer { copy_size_cap_mb: Some(4096), ..ConfigLayer::default() }),
        LayerRead::Parsed(ConfigLayer {
            copy_size_cap_mb: Some(64),
            use_mise: Some(false),
            ..ConfigLayer::default()
        }),
        LayerRead::Missing,
    );
    assert_eq!(cfg.copy_size_cap_mb, 64);
    assert!(!cfg.use_mise);
    assert!(cfg.warnings.is_empty(), "{:?}", cfg.warnings);
}

#[test]
fn a_repo_layer_cannot_set_loader_or_lookup_variables() {
    let cfg = load(
        LayerRead::Missing,
        LayerRead::Parsed(ConfigLayer {
            env: vars(&[
                ("PATH", "hack"),
                ("LD_PRELOAD", "/tmp/x.so"),
                ("DYLD_INSERT_LIBRARIES", "/tmp/x.dylib"),
                ("NODE_OPTIONS", "--require /tmp/x.js"),
                ("BASH_ENV", "/tmp/x.sh"),
                ("GIT_SSH_COMMAND", "sh -c id"),
                ("SHELL", "/tmp/sh"),
                ("NODE_ENV", "test"),
            ]),
            ..ConfigLayer::default()
        }),
        LayerRead::Missing,
    );
    assert_eq!(cfg.env.get("NODE_ENV").map(String::as_str), Some("test"));
    for denied in [
        "PATH",
        "LD_PRELOAD",
        "DYLD_INSERT_LIBRARIES",
        "NODE_OPTIONS",
        "BASH_ENV",
        "GIT_SSH_COMMAND",
        "SHELL",
    ] {
        assert!(!cfg.env.contains_key(denied), "{denied} was accepted");
        assert!(cfg.warnings.iter().any(|w| w.contains(&format!("env.{denied}"))));
    }
}

#[test]
fn the_user_layer_may_set_anything() {
    let cfg = load(
        LayerRead::Parsed(ConfigLayer {
            install: Some(true),
            mise_trust: Some(true),
            mode: Some(CloneMode::Copy),
            copy_size_cap_mb: Some(99999),
            symlink: list(&["datasets/"]),
            env: vars(&[("PATH", "/custom/bin")]),
            ..ConfigLayer::default()
        }),
        LayerRead::Missing,
        LayerRead::Missing,
    );
    assert!(cfg.install && cfg.mise_trust);
    assert_eq!(cfg.mode, CloneMode::Copy);
    assert_eq!(cfg.copy_size_cap_mb, 99999);
    assert_eq!(cfg.symlink, vec!["datasets/".to_string()]);
    assert_eq!(cfg.env.get("PATH").map(String::as_str), Some("/custom/bin"));
    assert!(cfg.warnings.is_empty(), "{:?}", cfg.warnings);
}

#[test]
fn a_broken_repo_layer_warns_instead_of_failing() {
    let cfg = load(
        LayerRead::Missing,
        LayerRead::Malformed("TOML parse error".to_string()),
        LayerRead::Missing,
    );
    assert!(cfg.install, "defaults still apply");
    assert_eq!(cfg.warnings.len(), 1);
    assert!(cfg.warnings[0].contains("ignored"));
    assert!(cfg.warnings[0].contains(REPO_FILE));
    assert_eq!(
        cfg.warnings[0],
        "ignored /src/.herdr-worktree.toml: parsing /src/.herdr-worktree.toml: TOML parse error"
    );
    assert!(cfg.layers.is_empty());
}

#[test]
fn an_unknown_key_in_a_repo_layer_is_only_a_warning() {
    let cfg = load(
        LayerRead::Missing,
        LayerRead::Malformed("unknown field `future_key_from_a_newer_version`".to_string()),
        LayerRead::Missing,
    );
    assert_eq!(cfg.warnings.len(), 1);
    assert!(cfg.warnings[0].contains("future_key_from_a_newer_version"));
}

#[test]
fn unknown_keys_are_errors_naming_the_file() {
    let failed = LayerRead::Malformed("unknown field `bogus`".to_string());
    let err = Config::load_user("/cfg", failed).unwrap_err();
    assert!(err.contains(USER_FILE));
    assert_eq!(err, "parsing /cfg/config.toml: unknown field `bogus`");
    let failed = LayerRead::Unreadable("permission denied".to_string());
    let err = Config::load_user("/cfg", failed).unwrap_err();
    assert_eq!(err, "reading /cfg/config.toml: permission denied");
}

#[test]
fn a_broken_user_layer_fails_the_load() {
    let r = Config::load(
        "/cfg",
        "/src",
        LayerRead::Unreadable("no".to_string()),
        LayerRead::Missing,
        LayerRead::Missing,
        &no_branch_file(),
        &no_branch_file(),
    );
    assert_eq!(r.unwrap_err(), "reading /cfg/config.toml: no");
}

#[test]
fn the_user_config_alone_keeps_the_defaults() {
    let cfg = Config::load_user("/cfg", LayerRead::Missing).unwrap();
    assert_eq!(cfg.auto_close_secs, 5);
    assert!(cfg.layers.is_empty());
    let layer = ConfigLayer { focus: Some(false), ..ConfigLayer::default() };
    let cfg = Config::load_user("/cfg", LayerRead::Parsed(layer)).unwrap();
    assert!(!cfg.focus);
    assert_eq!(cfg.layers, vec![(Origin::User, "/cfg/config.toml".to_string())]);
}

#[test]
fn refusals_say_which_layer_and_why() {
    let mut cfg = Config::default();
    let layer = ConfigLayer { mode: Some(CloneMode::Copy), ..ConfigLayer::default() };
    cfg.merge(layer, Origin::RepoLocal);
    assert_eq!(cfg.mode, CloneMode::Reflink);
    assert_eq!(cfg.warnings.len(), 1);
    assert!(cfg.warnings[0].contains("`mode`"), "{:?}", cfg.warnings);
    assert!(cfg.warnings[0].contains("can only be set in the user config"), "{:?}", cfg.warnings);
}

#[test]
fn steps_carry_the_origin_of_their_layer() {
    let mut cfg = Config::default();
    let layer = ConfigLayer { steps: vec![step("a", "x")], ..ConfigLayer::default() };
    cfg.merge(layer, Origin::User);
    let layer = ConfigLayer { steps: vec![step("b", "y")], ..ConfigLayer::default() };
    cfg.merge(layer, Origin::RepoLocal);
    let seen: Vec<(String, Origin)> =
        cfg.steps.iter().map(|s| (s.name.clone(), s.origin)).collect();
    assert_eq!(
        seen,
        vec![("a".to_string(), Origin::User), ("b".to_string(), Origin::RepoLocal)]
    );
}

#[test]
fn lists_extend_without_duplicates() {
    let mut into = list(&["a", "b"]);
    extend_unique(&mut into, list(&["b", "c", "c"]));
    assert_eq!(into, list(&["a", "b", "c"]));
}

#[test]
fn variable_names_of_a_repo() {
    for allowed in ["NODE_ENV", "FOO", "_x", "my_var", "A1", "GIT_DIR"] {
        assert!(repo_env_allowed(allowed), "{allowed}");
    }
    for denied in ["PATH", "LD_LIBRARY_PATH", "DYLD_X", "GIT_PROXY_COMMAND", "", "1A", "A-B", "A B", "path"] {
        assert!(!repo_env_allowed(denied), "{denied}");
    }
}

#[test]
fn caps_in_bytes_saturate() {
    let mut cfg = Config::default();
    cfg.copy_size_cap_mb = 3;
    cfg.total_size_cap_mb = u64::MAX;
    assert_eq!(cfg.copy_size_cap_bytes(), 3 * 1024 * 1024);
    assert_eq!(cfg.total_size_cap_bytes(), u64::MAX);
}

#[test]
fn labels() {
    assert_eq!(Placement::Split.as_str(), "split");
    assert_eq!(Placement::Tab.as_str(), "tab");
    assert_eq!(Placement::Overlay.as_str(), "overlay");
    assert_eq!(Placement::Zoomed.as_str(), "zoomed");
    assert_eq!(Direction::Down.as_str(), "down");
    assert_eq!(Direction::Right.as_str(), "right");
    assert!(Origin::Repo.is_repo() && Origin::RepoLocal.is_repo());
    assert!(!Origin::User.is_repo() && !Origin::Default.is_repo());
}

#[test]
fn a_repo_layer_can_neither_lift_nor_lengthen_the_time_limit() {
    let layer = |secs: u64| {
        LayerRead::Parsed(ConfigLayer { step_timeout_secs: Some(secs), ..ConfigLayer::default() })
    };
    // Zero stands for no limit.
    let cfg = load(LayerRead::Missing, layer(0), LayerRead::Missing);
    assert_eq!(cfg.step_timeout_secs, 1800);
    assert_eq!(cfg.warnings.len(), 1);
    assert!(cfg.warnings[0].contains("`step_timeout_secs` can only be lowered by a repo config"));
    let cfg = load(layer(0), layer(60), LayerRead::Missing);
    assert_eq!(cfg.step_timeout_secs, 60);
    assert!(cfg.warnings.is_empty(), "{:?}", cfg.warnings);
    let cfg = load(layer(0), layer(0), LayerRead::Missing);
    assert_eq!(cfg.step_timeout_secs, 0);
    assert!(cfg.warnings.is_empty(), "{:?}", cfg.warnings);
    let cfg = load(layer(60), LayerRead::Missing, layer(61));
    assert_eq!(cfg.step_timeout_secs, 60);
    assert_eq!(cfg.warnings.len(), 1);
    let cfg = load(layer(0), LayerRead::Missing, LayerRead::Missing);
    assert_eq!(cfg.step_timeout_secs, 0, "the user may have none");
}
