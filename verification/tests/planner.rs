use herdr_worktree_setup::config::Config;
use herdr_worktree_setup::discover::Candidate;
use herdr_worktree_setup::fsops::TargetView;
use herdr_worktree_setup::planner::{
    listings_needed, paths_to_probe, CopyPlan, DirEntry, EntryKind, Group, ItemState, Listing,
    PlanAction,
};
use herdr_worktree_setup::rules::Rules;

fn cand(rel: &str, is_dir: bool) -> Candidate {
    Candidate { rel: rel.to_string(), is_dir, is_symlink: false, nested_repo: false }
}

fn entry(name: &str, kind: EntryKind) -> DirEntry {
    DirEntry { name: name.as_bytes().to_vec(), kind, has_git: false }
}

fn fixture() -> Vec<Candidate> {
    vec![
        cand(".env", false),
        cand(".env.local", false),
        cand(".next", true),
        cand(".turbo", true),
        cand(".vercel", true),
        cand("dist", true),
        cand("node_modules", true),
        Candidate { is_symlink: true, ..cand("packages/ui/.env.development", false) },
        cand("packages/ui/node_modules", true),
        cand("server.log", false),
        Candidate { nested_repo: true, ..cand("vendor-repo", true) },
    ]
}

fn listings() -> Vec<Listing> {
    vec![
        Listing {
            rel: ".next".into(),
            entries: vec![entry("server", EntryKind::Dir), entry("cache", EntryKind::Dir)],
        },
        Listing { rel: "dist".into(), entries: vec![entry("bundle.js", EntryKind::File)] },
    ]
}

fn plan() -> CopyPlan {
    let rules = Rules::from_config(&Config::default()).unwrap();
    let view = TargetView { present: vec!["/wt/.vercel".into()], symlinks: vec![] };
    CopyPlan::build("/wt", &fixture(), &rules, &listings(), &view)
}

#[test]
fn plan_from_fixture() {
    let plan = plan();
    let find = |rel: &str| {
        plan.items.iter().find(|i| i.rel == rel).unwrap_or_else(|| panic!("{rel}"))
    };
    assert_eq!(find(".env").action, Some(PlanAction::Copy));
    assert_eq!(find(".env").state, ItemState::Pending);
    assert_eq!(find(".env.local").action, Some(PlanAction::Copy));
    assert_eq!(find("node_modules").action, Some(PlanAction::Clone));
    assert_eq!(find("packages/ui/node_modules").action, Some(PlanAction::Clone));
    assert_eq!(find(".turbo").action, Some(PlanAction::Clone));
    assert_eq!(find("dist").state, ItemState::Excluded);
    assert_eq!(find("server.log").state, ItemState::Excluded);
    assert_eq!(find(".next").state, ItemState::Excluded);
    assert_eq!(find(".next/cache").action, Some(PlanAction::Clone), "one-level descend");
    assert!(plan.items.iter().all(|i| i.rel != ".next/server"));
    assert_eq!(find(".vercel").state, ItemState::Exists, "never overwrite");
    assert_eq!(find("vendor-repo").state, ItemState::NestedRepo);
    assert!(find("packages/ui/.env.development").is_symlink);
    assert!(plan.items.iter().all(|i| i.rel != "wip.txt"));

    let state: Vec<&str> = plan.pending_in(Group::State).iter().map(|i| i.rel.as_str()).collect();
    assert!(state.contains(&".env") && !state.contains(&".vercel"));
    let caches: Vec<&str> = plan.pending_in(Group::Caches).iter().map(|i| i.rel.as_str()).collect();
    assert!(caches.contains(&"node_modules") && caches.contains(&".next/cache"));
}

#[test]
fn only_excluded_and_unmatched_directories_are_looked_into() {
    let rules = Rules::from_config(&Config::default()).unwrap();
    let needed = listings_needed(&fixture(), &rules);
    assert!(needed.contains(&".next".to_string()) && needed.contains(&"dist".to_string()));
    assert!(!needed.contains(&"node_modules".to_string()));
    assert!(!needed.contains(&"vendor-repo".to_string()));
}

#[test]
fn entries_of_a_directory_are_planned_in_order() {
    let rules = Rules::from_config(&Config::default()).unwrap();
    let listing = Listing {
        rel: "dist".into(),
        entries: vec![
            entry(".env.b", EntryKind::File),
            entry(".env.a", EntryKind::File),
            entry(".env", EntryKind::File),
        ],
    };
    let items = CopyPlan::draft(&vec![cand("dist", true)], &rules, &vec![listing]);
    let rels: Vec<&str> = items.iter().map(|i| i.rel.as_str()).collect();
    assert_eq!(rels, vec!["dist", "dist/.env", "dist/.env.a", "dist/.env.b"]);
}

#[test]
fn the_plan_probes_every_component() {
    let rules = Rules::from_config(&Config::default()).unwrap();
    let items = CopyPlan::draft(&vec![cand("a/b/.env", false)], &rules, &vec![]);
    let paths = paths_to_probe("/wt", &items);
    for p in ["/wt/a", "/wt/a/b", "/wt/a/b/.env"] {
        assert!(paths.contains(&p.to_string()), "{p} is not in {paths:?}");
    }
}

#[test]
fn blocked_items_keep_their_reason() {
    let rules = Rules::from_config(&Config::default()).unwrap();
    let view = TargetView { present: vec![], symlinks: vec!["/wt/a".into()] };
    let plan = CopyPlan::build("/wt", &vec![cand("a/.env", false)], &rules, &vec![], &view);
    let blocked = plan.blocked_in(Group::State);
    assert_eq!(blocked.len(), 1);
    assert_eq!(blocked[0].0.rel, "a/.env");
    assert_eq!(blocked[0].1, "/wt/a is a symlink; refusing to write through it");
    assert!(plan.pending_in(Group::State).is_empty());
    assert_eq!(plan.items_in(Group::State).len(), 1);
    assert_eq!(PlanAction::Clone.verb(), "clone");
}

#[test]
fn what_is_not_probed_does_not_change_the_plan() {
    let rules = Rules::from_config(&Config::default()).unwrap();
    let bare = TargetView { present: vec![], symlinks: vec![] };
    let busy = TargetView {
        present: vec!["/wt/README.md".into(), "/elsewhere/.env".into()],
        symlinks: vec!["/wt/docs".into()],
    };
    let cands = vec![cand("a/.env", false), cand("node_modules", true)];
    let states = |view: &TargetView| {
        let plan = CopyPlan::build("/wt", &cands, &rules, &vec![], view);
        plan.items.iter().map(|i| (i.rel.clone(), i.state.clone())).collect::<Vec<_>>()
    };
    assert_eq!(states(&bare), states(&busy));
    assert!(states(&busy).iter().all(|(_, s)| *s == ItemState::Pending));
}

#[test]
fn a_repository_in_an_excluded_directory_stays() {
    let rules = Rules::from_config(&Config::default()).unwrap();
    let listing = |has_git: bool| Listing {
        rel: ".next".into(),
        entries: vec![
            DirEntry { has_git, ..entry("cache", EntryKind::Dir) },
            DirEntry { has_git, ..entry("server", EntryKind::Dir) },
        ],
    };
    let cands = vec![cand(".next", true)];
    let view = TargetView { present: vec![], symlinks: vec![] };
    let find = |has_git: bool| {
        let plan = CopyPlan::build("/wt", &cands, &rules, &vec![listing(has_git)], &view);
        assert!(plan.items.iter().all(|i| i.rel != ".next/server"));
        let item = plan.items.iter().find(|i| i.rel == ".next/cache").unwrap();
        (item.action, item.state.clone())
    };
    assert_eq!(find(false), (Some(PlanAction::Clone), ItemState::Pending));
    assert_eq!(find(true), (None, ItemState::NestedRepo));
}
