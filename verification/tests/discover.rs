use herdr_worktree_setup::discover::{
    candidates, collapsed_dirs, drop_tracked, git_argv, git_result, ignored_args, ignored_entries,
    list_ignored, tracked_args, Candidate, EntryStat, GitOutput,
};

/// What git prints about a checkout with a realistic mix of state.
const RAW: &[u8] = b".env\0.env.local\0.next/\0.turbo/\0.vercel/\0dist/\0node_modules/\0packages/ui/.env.development\0packages/ui/node_modules/\0server.log\0vendor-repo/\0";

fn file() -> EntryStat {
    EntryStat { found: true, is_symlink: false, is_dir: false, has_git: false }
}

fn dir() -> EntryStat {
    EntryStat { is_dir: true, ..file() }
}

fn stats() -> Vec<EntryStat> {
    ignored_entries(RAW)
        .iter()
        .map(|e| match e.rel.as_str() {
            "packages/ui/.env.development" => EntryStat { is_symlink: true, ..file() },
            "vendor-repo" => EntryStat { has_git: true, ..dir() },
            ".env" | ".env.local" | "server.log" => file(),
            _ => dir(),
        })
        .collect()
}

fn words(items: &[&str]) -> Vec<String> {
    items.iter().map(|s| s.to_string()).collect()
}

#[test]
fn lists_only_ignored_entries_collapsed() {
    let cands = list_ignored(RAW, &stats(), b"").unwrap();
    let rels: Vec<&str> = cands.iter().map(|c| c.rel.as_str()).collect();
    for expected in [
        ".env",
        ".env.local",
        "node_modules",
        "packages/ui/node_modules",
        ".turbo",
        "dist",
        ".next",
        "server.log",
        ".vercel",
        "vendor-repo",
        "packages/ui/.env.development",
    ] {
        assert!(rels.contains(&expected), "missing {expected} in {rels:?}");
    }
    assert!(!rels.contains(&"wip.txt"), "untracked-but-not-ignored must not appear");
    assert!(!rels.contains(&".env.example"), "tracked file must not appear");
    assert!(!rels.iter().any(|r| r.starts_with("node_modules/")), "dirs are collapsed");
    let nm = cands.iter().find(|c| c.rel == "node_modules").unwrap();
    assert!(nm.is_dir && !nm.nested_repo);
    let vendored = cands.iter().find(|c| c.rel == "vendor-repo").unwrap();
    assert!(vendored.nested_repo);
    let link = cands.iter().find(|c| c.rel == "packages/ui/.env.development").unwrap();
    assert!(link.is_symlink && !link.is_dir);
}

#[test]
fn a_directory_with_a_tracked_file_is_dropped() {
    let cands = list_ignored(RAW, &stats(), b"dist/keep.js\0node_modules2/x\0").unwrap();
    let rels: Vec<&str> = cands.iter().map(|c| c.rel.as_str()).collect();
    assert!(!rels.contains(&"dist"));
    assert!(rels.contains(&"node_modules"), "a name that only begins the same is another");
    assert_eq!(cands.len(), 10);
}

#[test]
fn nested_directories_with_a_tracked_file_are_all_dropped() {
    let cand = |rel: &str| Candidate {
        rel: rel.to_string(),
        is_dir: true,
        is_symlink: false,
        nested_repo: false,
    };
    let kept = drop_tracked(vec![cand("a"), cand("a/b"), cand("c")], b"a/b/x\0");
    let rels: Vec<&str> = kept.iter().map(|c| c.rel.as_str()).collect();
    assert_eq!(rels, vec!["c"]);
}

#[test]
fn stats_have_to_be_those_of_the_entries() {
    assert!(list_ignored(RAW, &vec![file()], b"").is_none());
}

#[test]
fn the_checkout_itself_and_blank_records_are_no_entries() {
    let entries = ignored_entries(b"./\0\0/\0a/\0b\0");
    let seen: Vec<(String, bool)> =
        entries.iter().map(|e| (e.rel.clone(), e.is_dir_entry)).collect();
    assert!(seen.contains(&("a".to_string(), true)), "{seen:?}");
    assert!(seen.contains(&("b".to_string(), false)), "{seen:?}");
}

#[test]
fn bytes_that_are_no_text_become_some_text() {
    let entries = ignored_entries(b"a\xff\0");
    assert_eq!(entries[0].rel, "a\u{fffd}");
}

#[test]
fn what_is_gone_is_no_directory() {
    let entries = ignored_entries(b"x\0y/\0");
    let gone = EntryStat { found: false, is_symlink: false, is_dir: false, has_git: false };
    let cands = candidates(&entries, &vec![gone, dir()]);
    assert!(cands.iter().all(|c| !c.is_symlink));
    assert_eq!(collapsed_dirs(&cands), words(&["y"]));
}

#[test]
fn git_reads_paths_literally() {
    let argv = git_argv("/src", &words(&["ls-files"]), &words(&["a*", "b"]));
    assert_eq!(argv[0], "-C");
    assert_eq!(argv[1], "/src");
    assert!(argv.contains(&"--literal-pathspecs".to_string()));
    assert_eq!(argv[argv.len() - 3..].to_vec(), words(&["--", "a*", "b"]));
    assert!(ignored_args().contains(&"--directory".to_string()));
    assert!(tracked_args().contains(&"-z".to_string()));
}

#[test]
fn git_failures_are_reported() {
    let args = words(&["ls-files"]);
    let ok = GitOutput { success: true, stdout: b"x\0".to_vec(), stderr: vec![] };
    assert_eq!(git_result("git", "/src", &args, Ok(ok)).unwrap(), b"x\0".to_vec());
    let bad = GitOutput { success: false, stdout: vec![], stderr: b" fatal: no \n".to_vec() };
    let err = git_result("git", "/src", &args, Ok(bad)).unwrap_err();
    assert!(err.contains("fatal: no") && err.contains("ls-files"), "{err}");
    let err = git_result("git", "/src", &args, Err("not found".to_string())).unwrap_err();
    assert!(err.contains("not found"), "{err}");
}
