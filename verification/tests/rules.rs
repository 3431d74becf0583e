use herdr_worktree_setup::config::Config;
use herdr_worktree_setup::rules::{normalize, Action, PatternSet, Rules};

fn rules() -> Rules {
    Rules::from_config(&Config::default()).unwrap()
}

fn list(items: &[&str]) -> Vec<String> {
    items.iter().map(|s| s.to_string()).collect()
}

#[test]
fn normalizes_like_gitignore() {
    assert_eq!(normalize("node_modules/"), Some(("**/node_modules".into(), true)));
    assert_eq!(normalize("/.env"), Some((".env".into(), false)));
    assert_eq!(normalize(".env.*"), Some(("**/.env.*".into(), false)));
    assert_eq!(normalize("  # comment"), None);
    assert_eq!(normalize(""), None);
}

#[test]
fn env_files_copy_but_examples_are_excluded() {
    let r = rules();
    assert_eq!(r.classify(".env", false), Some(Action::Copy));
    assert_eq!(r.classify(".env.dev", false), Some(Action::Copy));
    assert_eq!(r.classify("apps/web/.env.local", false), Some(Action::Copy));
    assert_eq!(r.classify(".env.example", false), Some(Action::Exclude));
    assert_eq!(r.classify(".env.dev.example", false), Some(Action::Exclude));
    assert_eq!(r.classify(".envrc", false), Some(Action::Copy));
}

#[test]
fn caches_clone_at_any_depth_and_dir_only() {
    let r = rules();
    assert_eq!(r.classify("node_modules", true), Some(Action::Clone));
    assert_eq!(r.classify("packages/ui/node_modules", true), Some(Action::Clone));
    assert_eq!(r.classify("node_modules", false), None, "file named node_modules");
    assert_eq!(r.classify(".next/cache", true), Some(Action::Clone));
    assert_eq!(r.classify(".next", true), Some(Action::Exclude));
    assert_eq!(r.classify("dist", true), Some(Action::Exclude));
}

#[test]
fn prune_only_applies_multi_component_excludes() {
    let r = rules();
    assert!(r.should_prune(".turbo/daemon", true));
    assert!(r.should_prune("apps/x/.turbo/daemon", true));
    assert!(!r.should_prune("node_modules/pkg/dist", true));
    assert!(!r.should_prune("node_modules/pkg/build", true));
}

#[test]
fn explicit_symlink_wins_over_clone_but_not_exclude() {
    let r = Rules::new(
        &["big.bin".into()],
        &["datasets/".into(), "big.bin".into()],
        &["datasets/".into()],
        &[],
    )
    .unwrap();
    assert_eq!(r.classify("datasets", true), Some(Action::Symlink));
    assert_eq!(r.classify("big.bin", false), Some(Action::Exclude));
}

#[test]
fn misc_defaults() {
    let r = rules();
    assert_eq!(r.classify(".editor/settings.local.json", false), Some(Action::Copy));
    assert_eq!(r.classify("config/app.local.toml", false), Some(Action::Copy));
    assert_eq!(r.classify(".vercel", true), Some(Action::Copy));
    assert_eq!(r.classify("server.log", false), Some(Action::Exclude));
    assert_eq!(r.classify(".direnv", true), Some(Action::Exclude));
    assert_eq!(r.classify("random.txt", false), None);
}

#[test]
fn an_invalid_pattern_is_named() {
    let err = Rules::new(&[], &[], &list(&["ok/", "a[b"]), &[]).unwrap_err();
    assert!(err.starts_with("invalid pattern `**/a[b`: "), "{err}");
}

#[test]
fn an_anchored_pattern_matches_at_the_top_only() {
    let set = PatternSet::build(&list(&["/.env", "cache/"])).unwrap();
    assert!(set.matches(".env", false));
    assert!(!set.matches("apps/.env", false));
    assert!(set.matches("apps/cache", true));
    assert!(!set.matches("apps/cache", false));
    assert!(!PatternSet::build(&[]).unwrap().matches("anything", true));
}

#[test]
fn a_star_stays_inside_of_one_component() {
    let set = PatternSet::build(&list(&["/a/*.txt"])).unwrap();
    assert!(set.matches("a/x.txt", false));
    assert!(!set.matches("a/b/x.txt", false));
}

#[test]
fn leading_and_trailing_marks_do_not_matter() {
    let r = rules();
    assert_eq!(r.classify("./node_modules/", true), Some(Action::Clone));
    assert!(r.should_prune("x/.turbo/daemon/", true));
}

#[test]
fn what_is_pruned_is_excluded() {
    let r = rules();
    assert!(r.should_prune("apps/x/.turbo/daemon", true));
    assert_eq!(r.classify("apps/x/.turbo/daemon", true), Some(Action::Exclude));
}

#[test]
fn local_settings_are_copied_whatever_their_directory() {
    let r = rules();
    for dir in ["", ".editor/", ".assistant/", "packages/ui/.editor/"] {
        let path = format!("{dir}settings.local.json");
        assert_eq!(r.classify(&path, false), Some(Action::Copy), "{path}");
    }
    assert_eq!(r.classify(".assistant/settings.json", false), None);
}
