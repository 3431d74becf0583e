use herdr_worktree_setup::envmap::EnvMap;
use herdr_worktree_setup::ostext::{bytes_of_text, text_of_bytes};
use herdr_worktree_setup::shellenv::{
    known_tool_dirs, parse_block, probe_flags, probe_overdue, probe_script, shell_to_probe,
    EnvOrigin, ResolvedEnv, BEGIN, END, PROBE_LIMIT,
};

fn vars(items: &[(&str, &str)]) -> EnvMap {
    let mut map = EnvMap::new();
    for (k, v) in items {
        map.insert(k.to_string(), v.to_string());
    }
    map
}

fn get<'a>(map: &'a EnvMap, key: &str) -> Option<&'a str> {
    map.get(key).map(String::as_str)
}

#[test]
fn nul_records_cannot_forge_an_assignment() {
    let raw = format!("junk\n{BEGIN}\nA=1\0EVIL=x\nPATH=/attacker\0PATH=/real\0{END}\n");
    let vars = parse_block(raw.as_bytes()).unwrap();
    assert_eq!(get(&vars, "A").unwrap(), "1");
    assert_eq!(
        get(&vars, "EVIL").unwrap(),
        "x\nPATH=/attacker",
        "a newline inside a value stays inside it"
    );
    assert_eq!(get(&vars, "PATH").unwrap(), "/real");
}

#[test]
fn parses_marked_block_with_multiline_values() {
    let raw = format!("junk\n{BEGIN}\nA=1\nMULTI=first\nsecond line\nPATH=/x:/y\n{END}\ntrailer");
    let vars = parse_block(raw.as_bytes()).unwrap();
    assert_eq!(get(&vars, "A").unwrap(), "1");
    assert_eq!(get(&vars, "MULTI").unwrap(), "first\nsecond line");
    assert_eq!(get(&vars, "PATH").unwrap(), "/x:/y");
    assert!(parse_block(b"no markers").is_none());
}

#[test]
fn resolves_via_sh_and_keeps_herdr_vars() {
    let printed = format!(
        "{BEGIN}\nHERDR_TEST_MARKER=no\0HWS_ENV_PROBE=1\0HWS_JOB=/j\0SHLVL=3\0PATH=/usr/bin:/x\0{END}\n"
    );
    let current = vars(&[("HERDR_TEST_MARKER", "yes"), ("TERM", "dumb")]);
    let env = ResolvedEnv::resolve_with(
        "/bin/sh",
        Some(printed.as_bytes()),
        None,
        &current,
        &vec!["/opt/tools".to_string(), "/x/".to_string()],
    );
    assert_ne!(env.origin, EnvOrigin::Current, "sh -l -i -c should work");
    assert_eq!(env.origin, EnvOrigin::Interactive);
    assert_eq!(get(&env.vars, "HERDR_TEST_MARKER").unwrap(), "yes");
    assert!(!env.vars.contains_key("HWS_ENV_PROBE"));
    assert!(!env.vars.contains_key("HWS_JOB") && !env.vars.contains_key("SHLVL"));
    assert_eq!(get(&env.vars, "TERM"), Some("xterm-256color"));
    let path = env.path_var();
    assert!(path.contains("/usr/bin"));
    assert_eq!(path, "/usr/bin:/x:/opt/tools:/bin:/usr/sbin:/sbin");
    assert_eq!(ResolvedEnv::git(Some("/usr/bin/git".into())), "/usr/bin/git");
    assert_eq!(ResolvedEnv::git(None), "git");
}

#[test]
fn falls_back_to_current_env_for_a_bogus_shell() {
    let current = vars(&[("PATH", "/own/bin"), ("HOME", "/home/me")]);
    let env = ResolvedEnv::resolve_with("/nonexistent/shell", None, None, &current, &vec![]);
    assert_eq!(env.origin, EnvOrigin::Current);
    assert!(env.vars.contains_key("PATH"));
    assert!(env.path_var().starts_with("/own/bin:"));
    assert!(env.describe().contains(EnvOrigin::Current.label()), "{}", env.describe());
}

#[test]
fn a_login_shell_is_the_second_choice() {
    let login = format!("{BEGIN}\nA=2\0{END}\n");
    let env = ResolvedEnv::resolve_with(
        "/bin/zsh",
        Some(b"no markers"),
        Some(login.as_bytes()),
        &vars(&[]),
        &vec![],
    );
    assert_eq!(env.origin, EnvOrigin::Login);
    assert_eq!(get(&env.vars, "A"), Some("2"));
    assert_eq!(env.path_var(), "/usr/bin:/bin:/usr/sbin:/sbin");
    assert_eq!(env.to_vec().len(), env.vars.len());
}

#[test]
fn the_probe_prints_between_the_marks() {
    let script = probe_script();
    assert!(script.contains(BEGIN) && script.contains(END) && script.contains("env -0"));
    assert!(probe_flags(EnvOrigin::Interactive).len() > probe_flags(EnvOrigin::Login).len());
    assert_eq!(shell_to_probe(Some("/bin/zsh".into()), true), "/bin/zsh");
    assert_eq!(shell_to_probe(Some("/bin/zsh".into()), false), "/bin/sh");
    assert_eq!(shell_to_probe(None, false), "/bin/sh");
}

#[test]
fn a_shell_has_five_seconds() {
    assert_eq!(PROBE_LIMIT, 5_000_000_000);
    assert!(!probe_overdue(5_000_000_000, PROBE_LIMIT));
    assert!(probe_overdue(5_000_000_001, PROBE_LIMIT));
    assert!(!probe_overdue(5_000_000_001, 60_000_000_000));
}

#[test]
fn tool_directories_of_a_home() {
    let dirs = known_tool_dirs(Some("/home/me"));
    assert!(dirs.iter().any(|d| d.starts_with("/home/me/")));
    let none = known_tool_dirs(None);
    assert!(none.len() < dirs.len());
    assert!(none.iter().all(|d| !d.starts_with("/home/me/")));
}

#[test]
fn an_environment_is_kept_in_order() {
    let mut map = vars(&[("b", "2"), ("a", "1")]);
    map.insert("c".into(), "3".into());
    map.insert("a".into(), "4".into());
    map.remove("b");
    map.remove("nothing");
    assert_eq!(
        map.to_vec(),
        vec![("a".to_string(), "4".to_string()), ("c".to_string(), "3".to_string())]
    );
    assert_eq!(map.len(), 2);
    assert!(!map.is_empty() && EnvMap::default().is_empty());
    assert_eq!((map.name(0).as_str(), map.value(0).as_str()), ("a", "4"));
    assert_eq!(map.clone().to_vec(), map.to_vec());
}

#[test]
fn values_that_are_no_utf8_are_handed_on() {
    let mut current = vars(&[("HOME", "/home/me")]);
    current.insert("PATH".into(), text_of_bytes(b"/o\xff/bin:/own"));
    current.insert("DATA".into(), text_of_bytes(b"\x80x"));
    let env = ResolvedEnv::resolve_with("/bin/sh", None, None, &current, &vec![]);
    assert_eq!(bytes_of_text(get(&env.vars, "DATA").unwrap()), b"\x80x");
    assert!(bytes_of_text(&env.path_var()).starts_with(b"/o\xff/bin:/own:"));
}
