use herdr_worktree_setup::config::{Direction, Placement};
use herdr_worktree_setup::herdr::{CallOutput, Herdr, PaneOpen};

fn herdr() -> Herdr {
    Herdr::from_env(Some("/opt/herdr".into()), true)
}

fn words(items: &[&str]) -> Vec<String> {
    items.iter().map(|s| s.to_string()).collect()
}

fn printed(success: bool, stdout: &str, stderr: &str) -> CallOutput {
    CallOutput {
        success,
        status: "exit status: 1".into(),
        stdout: stdout.as_bytes().to_vec(),
        stderr: stderr.as_bytes().to_vec(),
    }
}

#[test]
fn the_program_is_the_one_that_was_given() {
    assert_eq!(herdr().program(), "/opt/herdr");
    assert_eq!(Herdr::from_env(None, false).program(), "herdr");
}

#[test]
fn panes_come_from_the_result() {
    let reply = herdr()
        .call(
            &words(&["pane", "list"]),
            Ok(printed(
                true,
                r#"{"result":{"panes":[{"pane_id":"p1"},{"focused":true},{"pane_id":"p2","focused":true}]}}"#,
                "",
            )),
        )
        .unwrap();
    assert_eq!(
        reply.workspace_panes().unwrap(),
        vec![("p1".to_string(), false), ("p2".to_string(), true)]
    );
}

#[test]
fn a_reply_without_panes_is_an_error() {
    let reply = herdr().call(&words(&["pane", "list"]), Ok(printed(true, "{}", ""))).unwrap();
    assert_eq!(reply.workspace_panes().unwrap_err(), "pane list: no panes array");
    let reply = herdr().call(&words(&["pane", "list"]), Ok(printed(true, "hello", ""))).unwrap();
    assert!(reply.workspace_panes().is_err());
    assert_eq!(reply.opened_pane(), None);
}

#[test]
fn opened_panes_are_found_in_both_shapes() {
    for json in [
        r#"{"result":{"plugin_pane":{"pane":{"pane_id":"w1:p3"}}}}"#,
        r#"{"result":{"pane":{"pane_id":"w1:p3"}}}"#,
        r#"{"pane":{"pane_id":"w1:p3"}}"#,
    ] {
        let reply = herdr().call(&words(&["x"]), Ok(printed(true, json, ""))).unwrap();
        assert_eq!(reply.opened_pane().as_deref(), Some("w1:p3"), "{json}");
    }
}

#[test]
fn errors_of_herdr_are_reported() {
    let args = words(&["pane", "list"]);
    let refused = r#"{"error":{"code":"not_found","message":"no such workspace"}}"#;
    assert_eq!(
        herdr().call(&args, Ok(printed(false, "", refused))).unwrap_err(),
        "herdr pane list: not_found: no such workspace"
    );
    assert_eq!(
        herdr().call(&args, Ok(printed(true, r#"{"error":{}}"#, ""))).unwrap_err(),
        "herdr pane list: error: unknown error"
    );
    assert_eq!(
        herdr().call(&args, Ok(printed(false, "out", ""))).unwrap_err(),
        "herdr pane list failed: out"
    );
    assert_eq!(
        herdr().call(&args, Ok(printed(false, "out", " err \n"))).unwrap_err(),
        "herdr pane list failed: err"
    );
    assert_eq!(
        herdr().call(&args, Ok(printed(false, r#"{"result":{}}"#, ""))).unwrap_err(),
        "herdr pane list exited exit status: 1"
    );
    assert_eq!(
        herdr().call(&args, Err("not found".into())).unwrap_err(),
        "running /opt/herdr pane list: not found"
    );
}

#[test]
fn calls_are_plain_words() {
    assert_eq!(
        herdr().set_title("p1", "Setup ✓"),
        words(&[
            "pane",
            "report-metadata",
            "p1",
            "--source",
            "plugin:worktree-setup",
            "--title",
            "Setup ✓"
        ])
    );
    assert_eq!(
        herdr().notify("t", Some("b"), "done"),
        words(&["notification", "show", "t", "--body", "b", "--sound", "done"])
    );
    assert_eq!(
        herdr().notify("t", None, "done"),
        words(&["notification", "show", "t", "--sound", "done"])
    );
    assert_eq!(herdr().plugin_pane_focus("p1"), words(&["plugin", "pane", "focus", "p1"]));
    assert!(herdr().list_panes("w1").contains(&"w1".to_string()));
}

#[test]
fn a_pane_is_opened_where_it_belongs() {
    let open = PaneOpen {
        plugin: "worktree-setup".into(),
        entrypoint: "setup".into(),
        workspace: Some("w1".into()),
        target_pane: Some("p1".into()),
        placement: Placement::Split,
        direction: Direction::Down,
        cwd: "/wt".into(),
        env: vec![("HWS_JOB".into(), "/j.json".into())],
        focus: false,
    };
    let argv = herdr().plugin_pane_open(&open);
    let line = argv.join(" ");
    assert!(line.contains("split") && line.contains("down"), "{line}");
    assert!(line.contains("HWS_JOB=/j.json"), "{line}");
    assert!(line.contains("p1") && line.contains("/wt"), "{line}");
}
