use std::hash::{Hash, Hasher};

use herdr_worktree_setup::job::{
    config_dir, job_origin, repo_name_or_basename, same_path, state_dir, sweep_old, EventData,
    InvocationContext, Job, JobOrigin, JobSource, Lock, LockState, WorkspaceInfo,
    WorkspaceWorktreeInfo, WorktreeInfo,
};

const SOURCE: &str = "/Users/me/developer/clyras";
const TARGET: &str = "/Users/me/.herdr/worktrees/clyras/feature-x";

fn event(target: &str, linked: bool, focused: bool) -> EventData {
    EventData {
        workspace: Some(WorkspaceInfo {
            workspace_id: "w9".into(),
            focused,
            worktree: Some(WorkspaceWorktreeInfo {
                repo_root: SOURCE.into(),
                checkout_path: target.into(),
                repo_name: "clyras".into(),
                is_linked_worktree: linked,
            }),
        }),
        worktree: Some(WorktreeInfo {
            path: target.into(),
            branch: Some("feature/x".into()),
            open_workspace_id: None,
            is_linked_worktree: linked,
        }),
    }
}

fn make(ws: &str) -> Job {
    Job {
        source: "/a".into(),
        target: "/b".into(),
        branch: None,
        workspace_id: Some(ws.into()),
        repo_name: "a".into(),
        dry_run: false,
        workspace_focused: true,
        job_file: None,
    }
}

#[test]
fn parses_worktree_created_envelope() {
    let data = Job::event_data(Some(event(TARGET, true, true)), Err("x".into())).unwrap();
    let JobSource::Ready(job) = Job::from_event_json(&data, None, None).unwrap() else {
        panic!("expected a job");
    };
    assert_eq!(job.source, "/Users/me/developer/clyras");
    assert_eq!(job.target, "/Users/me/.herdr/worktrees/clyras/feature-x");
    assert_eq!(job.branch.as_deref(), Some("feature/x"));
    assert_eq!(job.workspace_id.as_deref(), Some("w9"));
    assert_eq!(job.repo_name, "clyras");
    assert!(!job.dry_run);
    assert!(job.workspace_focused);
    let unfocused = event(TARGET, true, false);
    let JobSource::Ready(job) = Job::from_event_json(&unfocused, None, None).unwrap() else {
        panic!()
    };
    assert!(!job.workspace_focused);
}

#[test]
fn main_checkout_is_skipped() {
    let data = event("/Users/me/developer/clyras", false, true);
    assert!(matches!(Job::from_event_json(&data, None, None).unwrap(), JobSource::Skip(_)));
}

#[test]
fn context_without_worktree_is_skipped() {
    let ctx = InvocationContext { workspace_id: Some("w1".into()), worktree: None };
    assert!(matches!(Job::from_context_json(&ctx, None, None), JobSource::Skip(_)));
}

#[test]
fn context_with_linked_worktree_is_ready() {
    let ctx = InvocationContext {
        workspace_id: Some("w9".into()),
        worktree: Some(WorkspaceWorktreeInfo {
            repo_root: "/r".into(),
            checkout_path: "/w".into(),
            repo_name: "r".into(),
            is_linked_worktree: true,
        }),
    };
    let JobSource::Ready(job) = Job::from_context_json(&ctx, None, None) else {
        panic!("expected a job");
    };
    assert_eq!(job.source, "/r");
    assert_eq!(job.target, "/w");
    assert!(job.key().starts_with("w9-"), "{}", job.key());
}

#[test]
fn keys_do_not_collide_across_workspaces() {
    let keys: Vec<String> = ["w1:p1", "w1/p1", "w1.p1", "w1_p1", "w1-p1"]
        .iter()
        .map(|ws| make(ws).key())
        .collect();
    let unique: std::collections::HashSet<&String> = keys.iter().collect();
    assert_eq!(unique.len(), keys.len(), "collision in {keys:?}");
    for key in &keys {
        assert!(!key.contains('/') && !key.contains("..") && !key.contains(':'));
    }
    assert_eq!(make("w1:p1").key(), make("w1:p1").key(), "stable");
}

#[test]
fn job_roundtrip_and_lock() {
    let job = Job { dry_run: true, workspace_focused: false, ..make("w1:x") };
    let path = job.file_path("/state");
    assert!(path.starts_with("/state/jobs/"), "{path}");
    let read_back = Job { job_file: Some(path.clone()), ..job.clone() };
    assert_eq!(read_back.lock_path("/elsewhere"), path.replace(".json", ".pid"));
    assert_eq!(Job { job_file: None, ..read_back }, job);
    assert_eq!(job.lock_path("/state"), path.replace(".json", ".pid"));
    // A file left behind by a process that died is not taken for a live one,
    // however its pid number has since been reused.
    let stale = Lock { pid: 1, pane_id: Some("w9:p9".into()) };
    assert!(matches!(Lock::read_live(Some(true), Some(stale)), LockState::Stale));
    let live = Lock { pid: 7, pane_id: Some("w1:p1".into()) };
    match Lock::read_live(Some(false), Some(live)) {
        LockState::Held(Some(l)) => {
            assert_eq!(l.pid, 7);
            assert_eq!(l.pane_id.as_deref(), Some("w1:p1"));
        }
        other => panic!("{other:?}"),
    }
    assert!(matches!(Lock::read_live(None, None), LockState::Absent));
}

#[test]
fn the_hash_in_a_key_is_that_of_the_standard_hasher() {
    let mut hasher = std::collections::hash_map::DefaultHasher::new();
    "w1:p1".hash(&mut hasher);
    let key = make("w1:p1").key();
    assert!(key.ends_with(&format!("-{:016x}", hasher.finish())), "{key}");
}

#[test]
fn a_job_without_a_workspace_is_named_after_its_target() {
    let a = Job { workspace_id: None, ..make("x") };
    let b = Job { workspace_id: None, target: "/c".into(), ..make("x") };
    assert_ne!(a.key(), b.key());
}

#[test]
fn an_event_without_a_workspace_is_an_error() {
    let bare = EventData { workspace: None, worktree: None };
    assert!(Job::from_event_json(&bare, None, None).is_err());
    assert!(Job::event_paths(&bare).is_none());
    assert!(Job::event_data(None, Err("bad".into())).is_err());
    assert!(Job::event_data(None, Ok(bare)).is_ok());
}

#[test]
fn paths_are_the_same_by_their_canonical_form() {
    let real = Some("/real".to_string());
    assert!(same_path("/a", "/b", &real, &real));
    assert!(!same_path("/a", "/b", &real, &Some("/other".into())));
    assert!(same_path("/a/", "/a", &None, &None));
    assert!(!same_path("/a", "/b", &None, &None));
}

#[test]
fn names_of_repositories() {
    assert_eq!(repo_name_or_basename("given", "/x/y"), "given");
    assert_eq!(repo_name_or_basename("", "/x/y"), "y");
    assert_eq!(repo_name_or_basename("", "/"), "repo");
    let job = Job::by_hand("/x/y".into(), "/z".into(), false);
    assert_eq!(job.repo_name, "y");
    assert!(job.dry_run && job.workspace_focused);
    assert!(!Job::by_hand("/".into(), "/z".into(), true).dry_run);
}

#[test]
fn the_branch_is_what_git_says() {
    let mut job = make("w");
    job.fill_branch(Some((true, b"feature/x\n".to_vec())));
    assert_eq!(job.branch.as_deref(), Some("feature/x"));
    let mut job = make("w");
    job.fill_branch(Some((false, b"feature/x\n".to_vec())));
    assert_eq!(job.branch, None);
    job.fill_branch(None);
    assert_eq!(job.branch, None);
    let mut named = Job { branch: Some("kept".into()), ..make("w") };
    named.fill_branch(Some((true, b"other\n".to_vec())));
    assert_eq!(named.branch.as_deref(), Some("kept"));
    assert!(make("w").branch_args().contains(&"/b".to_string()));
}

#[test]
fn where_a_job_comes_from() {
    assert!(matches!(
        job_origin(Some("/j".into()), Some("{}".into())),
        JobOrigin::File(p) if p == "/j"
    ));
    assert!(matches!(job_origin(None, Some("{}".into())), JobOrigin::Context(_)));
    assert!(matches!(job_origin(None, None), JobOrigin::Missing(_)));
}

#[test]
fn own_directories() {
    assert_eq!(state_dir(Some("/s".into()), None), "/s");
    assert_eq!(
        state_dir(None, Some("/home/me".into())),
        "/home/me/.local/state/herdr-worktree-setup"
    );
    assert_eq!(config_dir(None, None), "/tmp/.config/herdr-worktree-setup");
}

#[test]
fn files_older_than_a_week_are_swept() {
    let week: u128 = 7 * 24 * 3600 * 1_000_000_000;
    assert!(!sweep_old(Some(week)));
    assert!(sweep_old(Some(week + 1)));
    assert!(!sweep_old(None));
}
