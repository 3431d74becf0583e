use herdr_worktree_setup::config::{Config, ConfigLayer, Origin, StepDef};
use herdr_worktree_setup::detect::InstallKind;
use herdr_worktree_setup::discover::EntryStat;
use herdr_worktree_setup::envmap::EnvMap;
use herdr_worktree_setup::exec::TIMED_OUT;
use herdr_worktree_setup::fsops::{self, ItemStep, Method, TargetView};
use herdr_worktree_setup::job::Job;
use herdr_worktree_setup::pipeline::{
    check_ignore_args, check_ignore_input, missing_dir, rules_for, shorten_home,
    warn_about_untracked_secrets, CopyNext, Gate, Gathered, Outcome, Pipeline, StepKind,
};
use herdr_worktree_setup::planner::Group;
use herdr_worktree_setup::shellenv::{EnvOrigin, ResolvedEnv};

fn words(items: &[&str]) -> Vec<String> {
    items.iter().map(|s| s.to_string()).collect()
}

fn step(origin: Origin) -> StepDef {
    StepDef {
        name: "migrate".into(),
        run: "make migrate".into(),
        if_path: None,
        continue_on_error: false,
        origin,
    }
}

struct Setup {
    cfg: Config,
    dry_run: bool,
    /// Ignored paths; one that ends with a slash is a directory.
    ignored: Vec<&'static str>,
    present: Vec<&'static str>,
    links: Vec<&'static str>,
    files: Vec<&'static str>,
    mise: Option<String>,
    direnv: Option<String>,
}

fn plain() -> Setup {
    Setup {
        cfg: Config::default(),
        dry_run: false,
        ignored: vec![],
        present: vec![],
        links: vec![],
        files: vec![],
        mise: None,
        direnv: None,
    }
}

fn with_tools() -> Setup {
    Setup {
        files: vec!["mise.toml", ".tool-versions", ".envrc", "package.json", "pnpm-lock.yaml"],
        mise: Some("/opt/mise".into()),
        direnv: Some("/opt/direnv".into()),
        ..plain()
    }
}

fn gathered(s: &Setup) -> Gathered {
    let mut env = EnvMap::new();
    env.insert("PATH".into(), "/usr/bin".into());
    env.insert("HWS_JOB".into(), "/j".into());
    let mut raw = Vec::new();
    for rel in &s.ignored {
        raw.extend(rel.as_bytes());
        raw.push(0);
    }
    let stat = |rel: &&str| EntryStat {
        found: true,
        is_symlink: false,
        is_dir: rel.ends_with('/'),
        has_git: false,
    };
    Gathered {
        env: ResolvedEnv { vars: env, origin: EnvOrigin::Login, shell: "/bin/zsh".into() },
        branch: Some((true, b"feature/x\n".to_vec())),
        ignored: raw,
        stats: s.ignored.iter().map(stat).collect(),
        in_git: vec![],
        listings: vec![],
        view: TargetView { present: words(&s.present), symlinks: words(&s.links) },
        files: words(&s.files),
        package_json: Some("{}".into()),
        canonical_source: None,
        mise_bin: s.mise.clone(),
        direnv_bin: s.direnv.clone(),
        home: Some("/home/me".into()),
    }
}

fn prepare(s: Setup) -> Pipeline {
    let g = gathered(&s);
    let job = Job::by_hand("/src".into(), "/wt".into(), !s.dry_run);
    Pipeline::prepare(job, s.cfg, g).unwrap().0
}

fn over(gate: Gate) -> Outcome {
    match gate {
        Gate::Over(o) => o,
        Gate::Run(c) => panic!("runs {c:?}"),
    }
}

fn runs(gate: Gate) -> Vec<Vec<String>> {
    match gate {
        Gate::Run(c) => c,
        Gate::Over(o) => panic!("{o:?}"),
    }
}

fn skipped(text: &str) -> Outcome {
    Outcome::Skipped(text.to_string())
}

fn failed(text: &str) -> Outcome {
    Outcome::Failed(text.to_string())
}

fn succeeded(text: &str) -> Outcome {
    Outcome::Succeeded(text.to_string())
}

#[test]
fn every_job_has_its_steps() {
    let mut s = with_tools();
    s.cfg.merge(
        ConfigLayer { steps: vec![step(Origin::Default)], ..ConfigLayer::default() },
        Origin::User,
    );
    s.ignored = vec![".env"];
    let p = prepare(s);
    let metas: Vec<(String, String)> = p.metas().into_iter().map(|m| (m.name, m.hint)).collect();
    let want = [
        ("copy dev state", "1 items"),
        ("clone caches", "nothing to clone"),
        ("mise trust", "mise.toml, .tool-versions"),
        ("direnv allow", ".envrc"),
        ("pnpm install", "pnpm install (via direnv + mise)"),
        ("migrate", "make migrate"),
    ];
    let want: Vec<(String, String)> =
        want.iter().map(|(a, b)| (a.to_string(), b.to_string())).collect();
    assert_eq!(metas, want);
    assert_eq!(p.len(), 6);
    assert!(matches!(p.step_kind(0), Some(StepKind::CopyState)));
    assert!(matches!(p.step_kind(5), Some(StepKind::Custom(_))));
    assert!(p.step_kind(6).is_none());
    assert_eq!(p.run_all(), vec![0, 1, 2, 3, 4, 5]);
    assert_eq!(p.run_indices(&vec![7, 2, 6]), vec![2]);
}

#[test]
fn the_header_of_a_run() {
    let p = prepare(plain());
    let h = p.header();
    assert_eq!(h.repo_name, "src");
    assert_eq!(h.branch.as_deref(), Some("feature/x"));
    assert_eq!(h.target, "/wt");
    assert!(!h.dry_run && h.warnings.is_empty());
    assert_eq!(shorten_home("/home/me/x", &Some("/home/me".into())), "~/x");
    assert_eq!(shorten_home("/other", &Some("/home/me".into())), "/other");
    assert_eq!(shorten_home("/other", &Some("".into())), "/other");
    assert_eq!(shorten_home("/other", &None), "/other");
}

#[test]
fn missing_directories_end_a_run() {
    let job = Job::by_hand("/src".into(), "/wt".into(), true);
    assert_eq!(missing_dir(&job, true, true), None);
    assert_eq!(missing_dir(&job, false, false).unwrap(), "worktree /wt does not exist");
    assert_eq!(missing_dir(&job, true, false).unwrap(), "source checkout /src does not exist");
    let mut cfg = Config::default();
    cfg.copy.push("a[b".into());
    assert!(rules_for(&cfg).unwrap_err().contains("a[b"));
    assert!(rules_for(&Config::default()).is_ok());
}

#[test]
fn what_was_gathered_has_to_fit() {
    let job = || Job::by_hand("/src".into(), "/wt".into(), true);
    let mut s = Setup { ignored: vec![".env"], ..plain() };
    let (pipeline, copier) = Pipeline::prepare(job(), Config::default(), gathered(&s)).unwrap();
    assert_eq!(pipeline.header().branch.as_deref(), Some("feature/x"));
    let items = match pipeline.run_copy(Group::State).next {
        CopyNext::Apply { items, .. } => items,
        other => panic!("{other:?}"),
    };
    let nothing = TargetView { present: vec![], symlinks: vec![] };
    match copier.apply(&items[0], &nothing) {
        ItemStep::File { src, dst } => {
            assert_eq!((src.as_str(), dst.as_str()), ("/src/.env", "/wt/.env"));
        }
        other => panic!("{other:?}"),
    }
    let mut g = gathered(&s);
    g.stats.clear();
    assert_eq!(
        Pipeline::prepare(job(), Config::default(), g).unwrap_err(),
        "the ignored paths changed while they were looked at"
    );
    s.cfg.copy.push("a[b".into());
    let g = gathered(&s);
    let err = Pipeline::prepare(job(), s.cfg, g).unwrap_err();
    assert!(err.starts_with("invalid copy/clone/exclude patterns: invalid pattern `"), "{err}");
}

#[test]
fn steps_see_the_job_in_their_environment() {
    let mut s = plain();
    let mut env = EnvMap::new();
    env.insert("FOO".into(), "bar".into());
    s.cfg.merge(ConfigLayer { env, ..ConfigLayer::default() }, Origin::User);
    let p = prepare(s);
    let cmd = p.run_cmd(words(&["true"]));
    assert_eq!(cmd.cwd, "/wt");
    assert_eq!(cmd.argv, words(&["true"]));
    let get = |k: &str| cmd.env.iter().find(|(n, _)| n == k).map(|(_, v)| v.as_str());
    assert_eq!(get("HWS_SOURCE"), Some("/src"));
    assert_eq!(get("HWS_TARGET"), Some("/wt"));
    assert_eq!(get("HWS_BRANCH"), Some("feature/x"));
    assert_eq!(get("HWS_WORKSPACE_ID"), Some(""));
    assert_eq!(get("FORCE_COLOR"), Some("1"));
    assert_eq!(get("FOO"), Some("bar"));
    assert_eq!(get("PATH"), Some("/usr/bin"));
    assert_eq!(get("HWS_JOB"), None);
}

#[test]
fn outcomes_are_recorded_and_failures_retried() {
    let mut p = prepare(plain());
    assert!(p.all_ok());
    p.record(0, succeeded("x"));
    p.record(1, failed("y"));
    p.record(3, failed("z"));
    assert!(!p.all_ok());
    assert_eq!(p.failed_indices(), vec![1, 3]);
    assert_eq!(p.retry_indices(vec![]), vec![1, 3]);
    assert_eq!(p.retry_indices(vec![0]), vec![0]);
    p.record(1, skipped("no"));
    p.record(3, succeeded("ok"));
    assert!(p.all_ok() && p.failed_indices().is_empty());
    assert_eq!(Pipeline::aborted(), skipped("aborted"));
}

#[test]
fn mise_config_is_trusted_file_by_file() {
    let p = prepare(with_tools());
    let files = words(&["/wt/mise.toml", "/wt/.tool-versions"]);
    assert_eq!(
        runs(p.run_mise_trust(&files)),
        vec![
            words(&["/opt/mise", "trust", "/wt/mise.toml"]),
            words(&["/opt/mise", "trust", "/wt/.tool-versions"]),
        ]
    );
    assert_eq!(over(p.run_mise_trust(&vec![])), skipped("no mise config"));
    assert_eq!(p.mise_trust_failed(Ok(0)), None);
    assert_eq!(p.mise_trust_failed(Ok(2)), Some(failed("mise trust exited 2")));
    assert_eq!(p.mise_trust_failed(Err("x".into())), Some(failed("x")));
    assert_eq!(Pipeline::mise_trusted(1), succeeded("trusted 1 file"));
    assert_eq!(Pipeline::mise_trusted(2), succeeded("trusted 2 files"));
    let mut s = with_tools();
    s.cfg.mise_trust = false;
    assert_eq!(
        over(prepare(s).run_mise_trust(&files)),
        skipped("disabled (mise_trust = false)")
    );
    let s = Setup { mise: None, ..with_tools() };
    match over(prepare(s).run_mise_trust(&files)) {
        Outcome::Skipped(t) => assert!(t.starts_with("mise not found on PATH ("), "{t}"),
        other => panic!("{other:?}"),
    }
}

#[test]
fn an_envrc_is_allowed() {
    let p = prepare(with_tools());
    assert_eq!(runs(p.run_direnv_allow(true)), vec![words(&["/opt/direnv", "allow", "/wt"])]);
    assert_eq!(over(p.run_direnv_allow(false)), skipped("no .envrc"));
    assert_eq!(p.direnv_allowed(Ok(0)), succeeded("allowed"));
    assert_eq!(p.direnv_allowed(Ok(1)), failed("direnv allow exited 1"));
    let mut s = with_tools();
    s.cfg.direnv_allow = false;
    assert_eq!(
        over(prepare(s).run_direnv_allow(true)),
        skipped("disabled (direnv_allow = false)")
    );
}

#[test]
fn installs_go_through_the_tool_managers_and_no_shell() {
    let p = prepare(with_tools());
    let cmd = InstallKind::Pnpm.command();
    assert_eq!(
        runs(p.run_install(&cmd, false)),
        vec![words(&[
            "/opt/direnv",
            "exec",
            "/wt",
            "/opt/mise",
            "exec",
            "--",
            "pnpm",
            "install"
        ])]
    );
    let p = prepare(plain());
    assert_eq!(runs(p.run_install(&cmd, true)), vec![words(&["pnpm", "install"])]);
    match over(p.run_install(&cmd, false)) {
        Outcome::Failed(t) => {
            assert!(t.starts_with("`pnpm` not found on PATH (resolved from "), "{t}")
        }
        other => panic!("{other:?}"),
    }
    assert_eq!(p.installed(Ok(0)), succeeded("done"));
    assert_eq!(p.installed(Ok(7)), failed("exited 7"));
    assert_eq!(p.installed(Err("spawn".into())), failed("spawn"));
    let mut s = plain();
    s.cfg.install = false;
    assert_eq!(over(prepare(s).run_install(&cmd, true)), skipped("disabled (install = false)"));
}

#[test]
fn custom_steps_have_their_gates() {
    let p = prepare(plain());
    let def = step(Origin::Repo);
    assert_eq!(runs(p.run_custom(&def, false)), vec![words(&["/bin/sh", "-c", "make migrate"])]);
    let gated = StepDef { if_path: Some("db".into()), ..step(Origin::User) };
    assert_eq!(over(p.run_custom(&gated, false)), skipped("if: db not present"));
    assert_eq!(runs(p.run_custom(&gated, true)).len(), 1);
    let mut s = plain();
    s.cfg.trust_repo_steps = false;
    let p = prepare(s);
    assert_eq!(
        over(p.run_custom(&def, true)),
        skipped("repo step not run (trust_repo_steps = false)")
    );
    assert_eq!(runs(p.run_custom(&step(Origin::User), true)).len(), 1);
}

#[test]
fn a_step_may_fail_where_it_says_so() {
    let p = prepare(plain());
    let strict = step(Origin::User);
    let lenient = StepDef { continue_on_error: true, ..step(Origin::User) };
    assert_eq!(p.custom_ran(&strict, Ok(0)), succeeded("done"));
    assert_eq!(p.custom_ran(&strict, Ok(3)), failed("exited 3"));
    assert_eq!(p.custom_ran(&lenient, Ok(3)), skipped("exited 3 (ignored)"));
    assert_eq!(p.custom_ran(&lenient, Ok(0)), succeeded("done"));
    assert_eq!(p.custom_ran(&strict, Ok(TIMED_OUT)), failed(&p.timeout_message()));
    assert_eq!(p.custom_ran(&strict, Err("x".into())), failed("x"));
    let late = format!("{} (ignored)", p.timeout_message());
    assert_eq!(p.custom_ran(&lenient, Ok(TIMED_OUT)), skipped(&late));
    assert_eq!(p.custom_ran(&lenient, Err("x".into())), skipped("x (ignored)"));
}

#[test]
fn timeouts_are_told_in_seconds() {
    let mut s = plain();
    s.cfg.step_timeout_secs = 90;
    let p = prepare(s);
    assert_eq!(p.timeout_message(), "timed out after 90s");
    assert_eq!(p.run_cmd(vec![]).timeout, Some(90_000_000_000));
    assert_eq!(p.installed(Ok(TIMED_OUT)), failed("timed out after 90s"));
    let mut s = plain();
    s.cfg.step_timeout_secs = 0;
    let p = prepare(s);
    assert_eq!(p.timeout_message(), "timed out");
    assert_eq!(p.run_cmd(vec![]).timeout, None);
}

#[test]
fn a_dry_run_runs_nothing() {
    let s = Setup {
        dry_run: true,
        ignored: vec![".env"],
        ..with_tools()
    };
    let p = prepare(s);
    assert_eq!(
        over(p.run_mise_trust(&words(&["/wt/mise.toml"]))),
        skipped("dry run: mise trust ×1")
    );
    assert_eq!(over(p.run_direnv_allow(true)), skipped("dry run: direnv allow"));
    assert_eq!(
        over(p.run_install(&InstallKind::Npm.command(), true)),
        skipped("dry run: /opt/direnv exec /wt /opt/mise exec -- npm install")
    );
    match over(p.run_custom(&step(Origin::User), true)) {
        Outcome::Skipped(t) => assert!(t.starts_with("dry run: "), "{t}"),
        other => panic!("{other:?}"),
    }
    let start = p.run_copy(Group::State);
    assert_eq!(start.lines, words(&["~ would copy .env"]));
    match start.next {
        CopyNext::Over(o) => assert_eq!(o, succeeded("1 planned")),
        other => panic!("{other:?}"),
    }
}

#[test]
fn with_everything_off_the_branch_runs_nothing() {
    let mut s = with_tools();
    s.cfg.install = false;
    s.cfg.trust_repo_steps = false;
    s.cfg.mise_trust = false;
    s.cfg.direnv_allow = false;
    let p = prepare(s);
    over(p.run_mise_trust(&words(&["/wt/mise.toml"])));
    over(p.run_direnv_allow(true));
    over(p.run_install(&InstallKind::Npm.command(), true));
    over(p.run_custom(&step(Origin::Repo), true));
    over(p.run_custom(&step(Origin::RepoLocal), true));
}

#[test]
fn copying_tells_of_every_item() {
    let s = Setup {
        ignored: vec![".env", ".env.a", "x/.env"],
        present: vec!["/wt/.env.a", "/wt/x"],
        links: vec!["/wt/x"],
        ..plain()
    };
    let p = prepare(s);
    let start = p.run_copy(Group::State);
    assert_eq!(
        start.lines,
        words(&["= .env.a  (already in worktree, kept)", "! x/.env  refused: /wt/x is a symlink; refusing to write through it"])
    );
    let CopyNext::Apply { items, mut tally } = start.next else { panic!("nothing to apply") };
    assert_eq!(items.len(), 1);
    let done = fsops::Outcome::Done { method: Method::Reflink, files: 1, bytes: 3 };
    assert_eq!(tally.record(&items[0], &done), "✓ .env  (reflink)");
    assert_eq!(tally.copied, words(&[".env"]));
    assert!(tally.asks_git());
    assert_eq!(tally.finish(), failed("1 refused for safety"));
    match p.run_copy(Group::Caches).next {
        CopyNext::Over(o) => assert_eq!(o, skipped("nothing to clone")),
        other => panic!("{other:?}"),
    }
}

#[test]
fn a_tally_adds_up() {
    let s = Setup { ignored: vec!["node_modules/", "x/node_modules/"], ..plain() };
    let p = prepare(s);
    let CopyNext::Apply { items, mut tally } = p.run_copy(Group::Caches).next else { panic!() };
    let done = fsops::Outcome::Done { method: Method::Copy, files: 2, bytes: 2048 };
    assert_eq!(tally.record(&items[0], &done), "✓ node_modules/  (copy, 2 files, 2.0 KB)");
    let big = fsops::Outcome::TooLarge { bytes: 2048 };
    assert_eq!(
        tally.record(&items[1], &big),
        "! x/node_modules  skipped: 2.0 KB exceeds the copy cap and this volume cannot reflink"
    );
    assert!(!tally.asks_git(), "caches are not asked about");
    assert_eq!(tally.finish(), succeeded("1 dirs via copy (2 files, 2.0 KB)"));
    let bad = fsops::Outcome::Failed("io".into());
    assert_eq!(tally.record(&items[1], &bad), "✗ x/node_modules  io");
    assert_eq!(tally.finish(), failed("1 of 2 failed"));
    let no = fsops::Outcome::Refused("why".into());
    assert_eq!(tally.record(&items[1], &no), "! x/node_modules  refused: why");
    assert_eq!(
        tally.record(&items[1], &fsops::Outcome::Exists),
        "= x/node_modules  (already in worktree, kept)"
    );
}

#[test]
fn files_that_the_branch_would_commit_are_named() {
    let copied = words(&[".env", "a/.env", "ü.env"]);
    assert_eq!(check_ignore_input(&copied), ".env\0a/.env\0ü.env\0".as_bytes().to_vec());
    assert_eq!(warn_about_untracked_secrets(&copied, ".env\0a/.env\0ü.env\0".as_bytes()), None);
    assert_eq!(
        warn_about_untracked_secrets(&copied, b"a/.env\0\xff\0").unwrap(),
        "! 2 copied file(s) are NOT gitignored on this branch — `git add -A` would commit them: .env, ü.env"
    );
    assert_eq!(warn_about_untracked_secrets(&vec![], b""), None);
    assert_eq!(
        check_ignore_args("/wt"),
        words(&["-C", "/wt", "--literal-pathspecs", "check-ignore", "--stdin", "-z"])
    );
    assert_eq!(Pipeline::command_line(&words(&["a", "b c"])), "$ a 'b c'");
}
