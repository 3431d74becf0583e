use herdr_worktree_setup::config::{CloneMode, Config};
use herdr_worktree_setup::discover::Candidate;
use herdr_worktree_setup::fsops::{
    clone_tree, component_paths, contained_dst, human_bytes, is_unsupported, probe_name, Copier,
    EntryStep, ErrorKind, FileStep, ItemStep, Method, Outcome, Reflinked, TargetView, TreeScan,
    TreeStep, WholeClone,
};
use herdr_worktree_setup::ostext::{bytes_of_text, text_of_bytes};
use herdr_worktree_setup::planner::{
    CopyPlan, DirEntry, EntryKind, Group, ItemState, Listing, PlanAction, PlanItem,
};
use herdr_worktree_setup::rules::Rules;

fn item(rel: &str, action: PlanAction, is_dir: bool) -> PlanItem {
    PlanItem {
        rel: rel.to_string(),
        is_dir,
        is_symlink: false,
        action: Some(action),
        state: ItemState::Pending,
    }
}

fn copier(cfg: &Config) -> Copier {
    let rules = Rules::from_config(cfg).unwrap();
    Copier::new("/src", "/wt", Some("/private/src".to_string()), cfg, rules)
}

fn nothing() -> TargetView {
    TargetView { present: vec![], symlinks: vec![] }
}

fn candidate(rel: &str, is_dir: bool) -> Candidate {
    Candidate { rel: rel.to_string(), is_dir, is_symlink: false, nested_repo: false }
}

#[test]
fn human_sizes() {
    assert_eq!(human_bytes(512), "512 B");
    assert_eq!(human_bytes(2048), "2.0 KB");
    assert_eq!(human_bytes(3 * 1024 * 1024 * 1024), "3.0 GB");
}

#[test]
fn sizes_are_rounded_as_floats_print() {
    assert_eq!(human_bytes(0), "0 B");
    assert_eq!(human_bytes(1023), "1023 B");
    assert_eq!(human_bytes(1024), "1.0 KB");
    for n in [1536u64, 1587, 1638, 1689, 123456, 999_999, 1_048_575, 5_000_000_000, u64::MAX] {
        let mut value = n as f64;
        let mut unit = 0;
        while value >= 1024.0 && unit < 4 {
            value /= 1024.0;
            unit += 1;
        }
        let names = ["B", "KB", "MB", "GB", "TB"];
        assert_eq!(human_bytes(n), format!("{value:.1} {}", names[unit]), "{n}");
    }
}

#[test]
fn size_cap_skips_large_dirs_in_copy_mode() {
    let mut cfg = Config::default();
    cfg.mode = CloneMode::Copy;
    let rules = Rules::from_config(&cfg).unwrap();
    let cands = vec![candidate(".env", false), candidate("node_modules", true)];
    let plan = CopyPlan::build("/wt", &cands, &rules, &vec![], &nothing());
    let mut c = copier(&cfg);
    c.per_dir_cap = 1; // one byte
    let nm = plan.items.iter().find(|i| i.rel == "node_modules").unwrap();
    let dst = match c.apply(nm, &nothing()) {
        ItemStep::Tree { dst, .. } => dst,
        other => panic!("{other:?}"),
    };
    assert_eq!(dst, "/wt/node_modules");
    let mut scan = TreeScan::new();
    scan.file("/src/node_modules/.bin/x", 2);
    assert!(!c.wants_probe(&scan));
    // It is over before anything is made of the tree.
    match c.walk_copy("node_modules", &dst, &scan, false) {
        Err(Outcome::TooLarge { bytes }) => assert_eq!(bytes, 2),
        other => panic!("{other:?}"),
    }
    assert!(matches!(c.cap_exceeded(2), Some(Outcome::TooLarge { bytes: 2 })));
    assert!(c.cap_exceeded(1).is_none());
    assert!(plan.items.iter().all(|i| i.rel != "wip.txt"));
    assert!(plan.items.iter().any(|i| i.state == ItemState::Pending));
}

#[test]
fn repositories_inside_of_a_tree_are_left_out() {
    let c = copier(&Config::default());
    let tree = c.walk_copy("deps", "/wt/deps", &TreeScan::new(), true).unwrap();
    assert!(matches!(c.tree_entry(&tree, "a/b", EntryKind::Dir, true), EntryStep::Prune));
    assert!(c.post_prune("deps", "a/b", true, true));
    assert!(matches!(c.tree_entry(&tree, "a", EntryKind::Dir, false), EntryStep::MakeDir { .. }));
    assert!(!c.post_prune("deps", "a", true, false));
}

#[test]
fn refuses_to_write_through_a_symlinked_component() {
    let cfg = Config::default();
    let rules = Rules::from_config(&cfg).unwrap();
    let cands = vec![
        candidate(".env", false),
        candidate("packages/ui/.env.local", false),
        candidate("packages/ui/node_modules", true),
    ];
    let view =
        TargetView { present: vec!["/wt/packages".into()], symlinks: vec!["/wt/packages".into()] };
    let plan = CopyPlan::build("/wt", &cands, &rules, &vec![], &view);
    let blocked: Vec<&str> = plan
        .items
        .iter()
        .filter(|i| matches!(i.state, ItemState::Blocked(_)))
        .map(|i| i.rel.as_str())
        .collect();
    assert!(
        blocked.contains(&"packages/ui/.env.local"),
        "plan did not mark the escape: {blocked:?}"
    );
    assert!(blocked.contains(&"packages/ui/node_modules"));
    // Even applied directly, the copier refuses.
    let c = copier(&cfg);
    for rel in ["packages/ui/.env.local", "packages/ui/node_modules"] {
        let item = plan.items.iter().find(|i| i.rel == rel).unwrap();
        match c.apply(item, &view) {
            ItemStep::Over(Outcome::Refused(reason)) => {
                assert!(reason.contains("symlink"), "{reason}");
                assert_eq!(reason, "/wt/packages is a symlink; refusing to write through it");
            }
            other => panic!("{rel} was not refused: {other:?}"),
        }
    }
    // Everything the plan can reach safely still copies.
    for item in plan.pending_in(Group::State) {
        assert!(matches!(c.apply(item, &view), ItemStep::File { .. }), "{}", item.rel);
    }
}

#[test]
fn refuses_a_fifo_instead_of_blocking_forever() {
    let cfg = Config::default();
    let rules = Rules::from_config(&cfg).unwrap();
    let listings = vec![Listing {
        rel: "dist".into(),
        entries: vec![DirEntry { name: b".env.local".to_vec(), kind: EntryKind::Other, has_git: false }],
    }];
    let plan =
        CopyPlan::build("/wt", &vec![candidate("dist", true)], &rules, &listings, &nothing());
    // The planner drops it outright…
    assert!(plan.items.iter().all(|i| i.rel != "dist/.env.local"), "a FIFO was planned");
    // …and the copier would refuse it even if something else planned it.
    let c = copier(&cfg);
    let fifo = item("dist/.env.local", PlanAction::Copy, false);
    assert!(matches!(c.apply(&fifo, &nothing()), ItemStep::File { .. }));
    assert!(matches!(c.copy_file(Ok((false, 0))), FileStep::Over(Outcome::Refused(_))));
}

#[test]
fn exclude_applies_at_any_depth_under_a_cloned_tree() {
    let c = copier(&Config::default());
    let tree = c.walk_copy("node_modules", "/wt/node_modules", &TreeScan::new(), true).unwrap();
    assert!(matches!(
        c.tree_entry(&tree, "a/b/c/d/.turbo/daemon", EntryKind::Dir, false),
        EntryStep::Prune
    ));
    assert!(c.post_prune("node_modules", "a/b/c/d/.turbo/daemon", true, false));
    match c.tree_entry(&tree, "a/b/c/d/keep.js", EntryKind::File, false) {
        EntryStep::Copy { out } => assert_eq!(out, "/wt/node_modules/a/b/c/d/keep.js"),
        other => panic!("{other:?}"),
    }
    assert!(!c.post_prune("node_modules", "a/b/c/d/keep.js", false, false));
}

#[test]
fn created_parent_directories_keep_the_source_mode() {
    let c = copier(&Config::default());
    let dirs = c.ensure_parent("secrets/deep/.env.local");
    assert_eq!(
        dirs,
        vec![
            ("/wt/secrets".to_string(), "/src/secrets".to_string()),
            ("/wt/secrets/deep".to_string(), "/src/secrets/deep".to_string()),
        ]
    );
}

#[test]
fn what_is_there_is_kept() {
    let c = copier(&Config::default());
    let view = TargetView { present: vec!["/wt/.env".into()], symlinks: vec![] };
    let kept = c.apply(&item(".env", PlanAction::Copy, false), &view);
    assert!(matches!(kept, ItemStep::Over(Outcome::Exists)));
    let none = PlanItem { action: None, ..item(".env", PlanAction::Copy, false) };
    match c.apply(&none, &nothing()) {
        ItemStep::Over(Outcome::Failed(e)) => assert_eq!(e, "no action"),
        other => panic!("{other:?}"),
    }
}

#[test]
fn each_item_has_its_step() {
    let c = copier(&Config::default());
    match c.apply(&item("data", PlanAction::Symlink, true), &nothing()) {
        ItemStep::Link { src, dst } => {
            assert_eq!(src, "/src/data");
            assert_eq!(dst, "/wt/data");
        }
        other => panic!("{other:?}"),
    }
    let link = PlanItem { is_symlink: true, ..item("l", PlanAction::Copy, false) };
    assert!(matches!(c.apply(&link, &nothing()), ItemStep::Relink { .. }));
    assert!(matches!(
        c.apply(&item("d", PlanAction::Copy, true), &nothing()),
        ItemStep::Tree { .. }
    ));
    assert!(matches!(
        c.apply(&item("d", PlanAction::Clone, true), &nothing()),
        ItemStep::Tree { .. }
    ));
}

#[test]
fn destinations_are_contained() {
    assert_eq!(contained_dst("/wt", "a/b", &vec![]).unwrap(), "/wt/a/b");
    assert_eq!(contained_dst("/wt", "", &vec![]).unwrap_err(), "empty relative path");
    assert_eq!(
        contained_dst("/wt", "a/../b", &vec![]).unwrap_err(),
        "`a/../b` contains a `..` component"
    );
    // The last component may be a link: the item is then already there.
    assert!(contained_dst("/wt", "a/b", &vec!["/wt/a/b".into()]).is_ok());
    assert_eq!(component_paths("/wt", "a/b"), vec!["/wt/a".to_string(), "/wt/a/b".to_string()]);
}

#[test]
fn links_into_the_source_point_into_the_worktree() {
    let c = copier(&Config::default());
    assert_eq!(c.rewrite_link_target("../../.env"), "../../.env");
    assert_eq!(c.rewrite_link_target("/src/node_modules/pkg"), "/wt/node_modules/pkg");
    assert_eq!(c.rewrite_link_target("/private/src/x"), "/wt/x");
    assert_eq!(c.rewrite_link_target("/srcs/x"), "/srcs/x");
    assert_eq!(c.rewrite_link_target("/src/../etc"), "/src/../etc");
    assert_eq!(c.sweep_symlinks("/src/a"), Some("/wt/a".to_string()));
    assert_eq!(c.sweep_symlinks("a"), None);
    assert_eq!(c.recreate_symlink(Ok("/src/a".into())).unwrap(), "/wt/a");
    assert!(matches!(c.recreate_symlink(Err("x".into())), Err(Outcome::Failed(_))));
}

#[test]
fn reflinks_are_tried_first_and_cost_nothing() {
    let mut cfg = Config::default();
    cfg.copy_size_cap_mb = 1;
    cfg.total_size_cap_mb = 1;
    let mut c = copier(&cfg);
    let big = 2 * 1024 * 1024;
    assert!(matches!(c.copy_file(Ok((true, big))), FileStep::Reflink { bytes } if bytes == big));
    match c.file_reflinked(big, Reflinked::Made) {
        FileStep::Over(Outcome::Done { method, files, bytes }) => {
            assert_eq!((method, files, bytes), (Method::Reflink, 1, big));
        }
        other => panic!("{other:?}"),
    }
    assert!(matches!(
        c.file_reflinked(big, Reflinked::Unsupported),
        FileStep::Over(Outcome::TooLarge { .. })
    ));
    assert!(matches!(c.file_reflinked(5, Reflinked::Unsupported), FileStep::Copy));
    match c.file_reflinked(5, Reflinked::Failed("io".into())) {
        FileStep::Over(Outcome::Failed(e)) => assert_eq!(e, "copy: io"),
        other => panic!("{other:?}"),
    }
    assert_eq!(c.plain_bytes(), 0);
    assert!(matches!(c.file_copied(Ok(5)), Outcome::Done { method: Method::Copy, files: 1, bytes: 5 }));
    assert_eq!(c.plain_bytes(), 5);
    assert!(matches!(c.copy_file(Err("gone".into())), FileStep::Over(Outcome::Failed(_))));
}

#[test]
fn a_tree_is_copied_file_by_file() {
    let mut cfg = Config::default();
    cfg.copy_size_cap_mb = 1;
    let mut c = copier(&cfg);
    let mut scan = TreeScan::new();
    scan.file("/src/t/a", 3);
    scan.file("/src/t/b", 4);
    assert_eq!(scan.size, 7);
    assert_eq!(scan.probe.as_deref(), Some("/src/t/a"));
    assert!(c.wants_probe(&scan));
    let mut tree = c.walk_copy("t", "/wt/t", &scan, true).unwrap();
    assert!(tree.reflink);
    assert!(matches!(c.tree_entry(&tree, "", EntryKind::Dir, false), EntryStep::MakeDir { .. }));
    assert!(matches!(c.tree_entry(&tree, "a", EntryKind::File, false), EntryStep::Reflink { .. }));
    assert!(matches!(c.tree_entry(&tree, "l", EntryKind::Symlink, false), EntryStep::Link { .. }));
    assert!(matches!(c.tree_entry(&tree, "f", EntryKind::Other, false), EntryStep::Ignore));
    assert!(matches!(c.tree_reflinked(&mut tree, 3, Reflinked::Made), TreeStep::Next));
    assert!(matches!(c.tree_reflinked(&mut tree, 4, Reflinked::Unsupported), TreeStep::Copy));
    assert!(matches!(c.tree_copied(&mut tree, Ok(4)), TreeStep::Next));
    match tree.finish() {
        Outcome::Done { method, files, bytes } => {
            assert_eq!((method, files, bytes), (Method::Reflink, 2, 7));
        }
        other => panic!("{other:?}"),
    }
    assert!(matches!(c.tree_copied(&mut tree, Err("x".into())), TreeStep::Undo(Outcome::Failed(_))));
    assert!(matches!(
        c.tree_reflinked(&mut tree, 3, Reflinked::Failed("x".into())),
        TreeStep::Undo(Outcome::Failed(_))
    ));
    assert!(
        matches!(
            c.tree_reflinked(&mut tree, 2 * 1024 * 1024, Reflinked::Unsupported),
            TreeStep::Undo(Outcome::TooLarge { bytes: 2097152 })
        ),
        "nothing partial left behind"
    );
}

#[test]
fn a_tree_cloned_as_a_whole() {
    let c = copier(&Config::default());
    assert!(c.clones_whole(true) && !c.clones_whole(false));
    assert!(matches!(
        clone_tree(WholeClone::Made { files: 4 }),
        Some(Outcome::Done { method: Method::ApfsClone, files: 4, bytes: 0 })
    ));
    assert!(matches!(clone_tree(WholeClone::AlreadyThere), Some(Outcome::Exists)));
    assert!(clone_tree(WholeClone::Failed).is_none());
}

#[test]
fn links_report_their_errors() {
    let c = copier(&Config::default());
    assert!(matches!(
        c.make_symlink(Ok(())),
        Outcome::Done { method: Method::Symlink, files: 1, bytes: 0 }
    ));
    assert_eq!(c.make_symlink(Err("no".into())), Outcome::Failed("symlink: no".into()));
}

#[test]
fn errors_of_reflinks() {
    let codes = vec![95, 22];
    assert!(is_unsupported(ErrorKind::CrossesDevices, None, &codes));
    assert!(is_unsupported(ErrorKind::Other, Some(95), &codes));
    assert!(!is_unsupported(ErrorKind::Other, Some(13), &codes));
    assert!(!is_unsupported(ErrorKind::Other, None, &codes));
    assert_eq!(probe_name(7, 255), ".hws-probe-7-000000ff");
    assert_eq!(Method::Reflink.label(), "reflink");
    assert_eq!(Method::Copy.label(), "copy");
    assert_eq!(Method::Symlink.label(), "symlink");
}

#[test]
fn names_that_are_no_utf8_are_copied_as_they_are() {
    let c = copier(&Config::default());
    let tree = c.walk_copy("node_modules", "/wt/node_modules", &TreeScan::new(), true).unwrap();
    let sub = text_of_bytes(b"a/\xff.js");
    match c.tree_entry(&tree, &sub, EntryKind::File, false) {
        EntryStep::Copy { out } => {
            assert_eq!(bytes_of_text(&out), b"/wt/node_modules/a/\xff.js");
        }
        other => panic!("{other:?}"),
    }
    let link = c.rewrite_link_target(&text_of_bytes(b"/src/lib/\xff"));
    assert_eq!(bytes_of_text(&link), b"/wt/lib/\xff");
    let elsewhere = c.rewrite_link_target(&text_of_bytes(b"../\xff"));
    assert_eq!(bytes_of_text(&elsewhere), b"../\xff");
    // The rules go by what can be shown of a name.
    let mut cfg = Config::default();
    cfg.exclude.push("a/\u{fffd}.tmp".into());
    let c = copier(&cfg);
    let odd = text_of_bytes(b"a/\xff.tmp");
    assert!(matches!(c.tree_entry(&tree, &odd, EntryKind::File, false), EntryStep::Prune));
    assert!(c.post_prune("node_modules", &odd, false, false));
}
