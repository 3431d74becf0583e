use herdr_worktree_setup::exec::{
    direct_argv, display, group_id, shell_argv, split_command, LineSplitter, WatchStep, Watchdog,
    KILL_GRACE, MAX_LINE, TIMED_OUT,
};

const MILLI: u128 = 1_000_000;
const SECOND: u128 = 1_000_000_000;

fn split(chunks: &[&[u8]]) -> Vec<String> {
    let mut splitter = LineSplitter::new();
    let mut lines = Vec::new();
    for chunk in chunks {
        lines.extend(splitter.feed(chunk));
    }
    lines.extend(splitter.finish());
    lines
}

fn words(items: &[&str]) -> Vec<String> {
    items.iter().map(|s| s.to_string()).collect()
}

#[test]
fn streams_stdout_and_stderr_lines_and_exit_code() {
    let mut lines = split(&[b"one\n", b"a\rb\r\nc"]);
    lines.extend(split(&[b"two\n"]));
    lines.sort();
    assert_eq!(lines, vec!["a", "b", "c", "one", "two"]);
    let dog = Watchdog::new(0, None);
    assert_eq!(dog.exit_code(Some(3), None), 3);
}

#[test]
fn wraps_with_direnv_and_mise_using_absolute_paths() {
    let argv = shell_argv("pnpm install", "/wt", Some("/opt/bin/direnv"), Some("/opt/bin/mise"));
    assert_eq!(
        argv,
        vec![
            "/opt/bin/direnv",
            "exec",
            "/wt",
            "/opt/bin/mise",
            "exec",
            "--",
            "/bin/sh",
            "-c",
            "pnpm install"
        ]
    );
}

#[test]
fn direct_argv_never_introduces_a_shell() {
    let argv = direct_argv(&["pnpm".into(), "install".into()], "/wt", None, Some("/opt/bin/mise"));
    assert_eq!(argv, vec!["/opt/bin/mise", "exec", "--", "pnpm", "install"]);
    assert!(!argv.iter().any(|a| a.ends_with("/sh") || a == "-c"));
}

#[test]
fn long_lines_are_chunked() {
    let stream = vec![b'x'; 9000];
    let lines = split(&[&stream]);
    assert_eq!(lines.len(), 3);
    assert!(lines.iter().all(|l| l.len() <= MAX_LINE));
    assert_eq!(lines.concat().len(), 9000, "no byte is lost");
}

#[test]
fn timeout_kills_a_stubborn_process_group() {
    let mut dog = Watchdog::new(0, Some(300 * MILLI));
    assert!(matches!(dog.tick(300 * MILLI), WatchStep::Wait));
    let mut lines = Vec::new();
    match dog.tick(301 * MILLI) {
        WatchStep::Terminate(line) => lines.push(line),
        other => panic!("{other:?}"),
    }
    assert!(lines.iter().any(|l| l.contains("exceeded its")));
    assert_eq!(lines[0], "[worktree-setup] step exceeded its 0s timeout — terminating");
    assert!(matches!(dog.tick(301 * MILLI + KILL_GRACE), WatchStep::Wait));
    assert!(matches!(dog.tick(302 * MILLI + KILL_GRACE), WatchStep::Kill));
    assert!(302 * MILLI + KILL_GRACE < 20 * SECOND);
    assert_eq!(dog.exit_code(Some(0), None), TIMED_OUT);
}

#[test]
fn chunks_of_a_stream_do_not_matter() {
    let whole = split(&[b"a\r\nb\rc\n\nd"]);
    assert_eq!(whole, vec!["a", "b", "c", "", "d"]);
    assert_eq!(split(&[b"a\r", b"\nb", b"\rc\n", b"\nd"]), whole);
}

#[test]
fn a_step_without_a_limit_is_left_alone() {
    let mut dog = Watchdog::new(5, None);
    assert!(matches!(dog.tick(u128::MAX), WatchStep::Wait));
    assert_eq!(dog.exit_code(None, Some(9)), 137);
    assert_eq!(dog.exit_code(None, None), 129);
    assert!(!Watchdog::reap(10, 10 + KILL_GRACE));
    assert!(Watchdog::reap(10, 11 + KILL_GRACE));
    assert!(!Watchdog::reap(20, 10), "a clock that went back kills nothing");
}

#[test]
fn shown_commands_are_quoted_where_they_have_to_be() {
    assert_eq!(display(&words(&["npm", "install"])), "npm install");
    assert_eq!(display(&words(&["sh", "-c", "a b"])), "sh -c 'a b'");
    assert_eq!(display(&words(&["x", ""])), "x ''");
}

#[test]
fn a_command_has_a_program() {
    assert!(split_command(&vec![]).is_err());
    let (program, args) = split_command(&words(&["a", "b", "c"])).unwrap();
    assert_eq!(program, "a");
    assert_eq!(args, words(&["b", "c"]));
}

#[test]
fn the_group_of_no_process_is_not_signalled() {
    assert_eq!(group_id(0), None);
    assert_eq!(group_id(42), Some(-42));
}
