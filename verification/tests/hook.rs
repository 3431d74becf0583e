use herdr_worktree_setup::config::{Config, ConfigLayer, LayerRead, Placement};
use herdr_worktree_setup::hook::{
    action, already_running, choose_pane, hook, launch, launch_config, opened_text, panes_wanted,
    Next, PLUGIN_ID,
};
use herdr_worktree_setup::job::{Job, JobSource, Lock};

fn job() -> Job {
    Job { workspace_id: Some("w1".into()), ..Job::by_hand("/src".into(), "/wt".into(), false) }
}

#[test]
fn a_hook_without_an_event_complains() {
    match hook(None) {
        Next::Complain { text, code } => {
            assert_eq!(code, 3);
            assert!(text.contains("HERDR_PLUGIN_EVENT_JSON"));
        }
        other => panic!("{other:?}"),
    }
    assert!(matches!(hook(Some(Err("bad".into()))), Next::Fail(e) if e == "bad"));
}

#[test]
fn nothing_to_do_is_no_error_for_a_hook() {
    match hook(Some(Ok(JobSource::Skip("main checkout".into())))) {
        Next::Print { text, code } => {
            assert_eq!(code, 0);
            assert_eq!(text, "worktree-setup: main checkout");
        }
        other => panic!("{other:?}"),
    }
    match action(false, Some(Ok(JobSource::Skip("main checkout".into())))) {
        Next::Complain { text, code } => {
            assert_eq!(code, 1);
            assert_eq!(text, "worktree-setup: main checkout");
        }
        other => panic!("{other:?}"),
    }
}

#[test]
fn only_an_action_can_be_a_dry_run() {
    match hook(Some(Ok(JobSource::Ready(job())))) {
        Next::Launch(j) => assert!(!j.dry_run),
        other => panic!("{other:?}"),
    }
    match action(true, Some(Ok(JobSource::Ready(job())))) {
        Next::Launch(j) => assert!(j.dry_run),
        other => panic!("{other:?}"),
    }
    assert!(matches!(action(true, None), Next::Complain { code: 3, .. }));
    assert!(matches!(action(true, Some(Err("x".into()))), Next::Fail(_)));
}

#[test]
fn a_broken_user_config_leaves_the_defaults() {
    let (cfg, said) = launch_config("/cfg", LayerRead::Malformed("broken".into()));
    assert_eq!(cfg.placement, Placement::Split);
    assert_eq!(
        said.unwrap(),
        "worktree-setup: parsing /cfg/config.toml: broken; using defaults"
    );
    let layer = ConfigLayer { placement: Some(Placement::Tab), ..ConfigLayer::default() };
    let (cfg, said) = launch_config("/cfg", LayerRead::Parsed(layer));
    assert_eq!(cfg.placement, Placement::Tab);
    assert!(said.is_none());
}

#[test]
fn a_pane_goes_beside_the_focused_one() {
    let panes = vec![("p1".to_string(), false), ("p2".to_string(), true)];
    assert_eq!(choose_pane(&panes).as_deref(), Some("p2"));
    assert_eq!(choose_pane(&vec![("p1".to_string(), false)]).as_deref(), Some("p1"));
    assert_eq!(choose_pane(&vec![]), None);
    let mut cfg = Config::default();
    assert_eq!(panes_wanted(&cfg, &job()).as_deref(), Some("w1"));
    cfg.placement = Placement::Tab;
    assert_eq!(panes_wanted(&cfg, &job()), None);
}

#[test]
fn without_a_pane_the_setup_is_a_tab() {
    let cfg = Config::default();
    let open = launch(&cfg, &job(), None, None, "/j.json");
    assert_eq!(open.placement, Placement::Tab);
    assert_eq!(open.plugin, PLUGIN_ID);
    assert_eq!(open.env, vec![("HWS_JOB".to_string(), "/j.json".to_string())]);
    let open = launch(&cfg, &job(), Some("p1".into()), Some("mine".into()), "/j.json");
    assert_eq!(open.placement, Placement::Split);
    assert_eq!(open.plugin, "mine");
    assert!(open.focus);
}

#[test]
fn a_worktree_in_the_background_keeps_the_focus_where_it_is() {
    let cfg = Config::default();
    let quiet = Job { workspace_focused: false, ..job() };
    assert!(!launch(&cfg, &quiet, None, None, "/j").focus);
    let live = Lock { pid: 12, pane_id: Some("p9".into()) };
    let (pane, text) = already_running(&cfg, &quiet, &live);
    assert_eq!(pane, None);
    assert_eq!(text, "worktree-setup: setup already running for /wt (pid 12)");
    let (pane, _) = already_running(&cfg, &job(), &live);
    assert_eq!(pane.as_deref(), Some("p9"));
}

#[test]
fn what_is_said_of_an_open_pane() {
    assert_eq!(
        opened_text(Some("p3".into()), &job()),
        "worktree-setup: opened setup pane p3 for /wt"
    );
    assert_eq!(opened_text(None, &job()), "worktree-setup: opened setup pane (popup) for /wt");
}
