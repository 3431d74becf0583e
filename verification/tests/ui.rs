use herdr_worktree_setup::config::Config;
use herdr_worktree_setup::herdr::Herdr;
use herdr_worktree_setup::pipeline::{Header, Outcome, StepMeta, UiCommand, WorkerEvent};
use herdr_worktree_setup::ui::keys::{handle, handle_mouse, Key, Mouse};
use herdr_worktree_setup::ui::plain::{strip, Printer};
use herdr_worktree_setup::ui::side_effects;
use herdr_worktree_setup::ui::state::{App, Status, MAX_LOG_LINES};
use herdr_worktree_setup::ui::view::{
    render_fatal, render_footer, render_header, render_log, step_cells, step_time, steps_height,
    steps_title, Color,
};

const SECOND: u64 = 1_000_000_000;

fn header(dry_run: bool) -> Header {
    Header {
        repo_name: "clyras".into(),
        branch: Some("feature/x".into()),
        source: "~/src".into(),
        target: "~/wt".into(),
        env_origin: "login shell".into(),
        dry_run,
        layers: vec!["~/cfg".into()],
        warnings: vec!["careful".into()],
    }
}

fn meta(name: &str) -> StepMeta {
    StepMeta { name: name.into(), hint: format!("{name} hint") }
}

fn plan(names: &[&str]) -> WorkerEvent {
    WorkerEvent::Plan { header: header(false), steps: names.iter().map(|n| meta(n)).collect() }
}

fn app(names: &[&str]) -> App {
    let mut app = App::new(&Config::default());
    app.apply(plan(names), 0);
    app
}

fn finish(app: &mut App, idx: usize, outcome: Outcome) {
    app.apply(WorkerEvent::Started { idx }, 0);
    app.apply(WorkerEvent::Finished { idx, outcome, took: 5 }, 0);
}

fn line(app: &mut App, idx: usize, text: &str) {
    app.apply(WorkerEvent::Line { idx, text: text.into() }, 0);
}

fn text(spans: &[herdr_worktree_setup::ui::view::Span]) -> String {
    spans.iter().map(|s| s.text.as_str()).collect()
}

#[test]
fn a_plan_fills_the_table() {
    let app = app(&["a", "b"]);
    assert_eq!(app.steps.len(), 2);
    assert_eq!(app.logs.len(), 2);
    assert_eq!(app.steps[1].detail, "b hint");
    assert_eq!(app.steps[1].status, Status::Pending);
    assert!(!app.is_running() && !app.has_failures());
}

#[test]
fn a_run_that_went_well_closes_after_its_time() {
    let mut app = app(&["a"]);
    finish(&mut app, 0, Outcome::Succeeded("ok".into()));
    assert_eq!(app.steps[0].status, Status::Succeeded);
    assert_eq!(app.steps[0].took, Some(5));
    app.apply(WorkerEvent::Done { ok: true }, SECOND);
    assert_eq!(app.remaining_close_secs(SECOND), Some(5));
    assert_eq!(app.remaining_close_secs(SECOND + 1), Some(5));
    assert_eq!(app.remaining_close_secs(2 * SECOND), Some(4));
    assert_eq!(app.remaining_close_secs(9 * SECOND), Some(0));
    app.tick(6 * SECOND - 1);
    assert!(!app.quit);
    app.tick(6 * SECOND);
    assert!(app.quit);
    assert_eq!(app.exit_code(), 0);
}

#[test]
fn a_run_that_failed_stays_open_and_shows_why() {
    let mut app = app(&["a", "b", "c"]);
    finish(&mut app, 0, Outcome::Succeeded("ok".into()));
    finish(&mut app, 1, Outcome::Failed("no".into()));
    finish(&mut app, 2, Outcome::Failed("no".into()));
    assert_eq!(app.selected, 2);
    app.apply(WorkerEvent::Done { ok: false }, SECOND);
    assert_eq!(app.selected, 1);
    app.tick(u64::MAX);
    assert!(!app.quit);
    assert_eq!(app.remaining_close_secs(0), None);
    assert_eq!(app.exit_code(), 1);
}

#[test]
fn no_countdown_where_none_is_wanted() {
    let mut cfg = Config::default();
    cfg.auto_close_secs = 0;
    let mut app = App::new(&cfg);
    app.apply(WorkerEvent::Done { ok: true }, 0);
    assert_eq!(app.close_at, None);
    assert_eq!(app.exit_code(), 0);
}

#[test]
fn any_key_cancels_the_countdown() {
    for key in [Key::Char('x'), Key::Other, Key::Up, Key::Char('r'), Key::Esc] {
        let mut app = app(&["a"]);
        app.apply(WorkerEvent::Done { ok: true }, 0);
        assert!(app.close_at.is_some());
        handle(&mut app, key, false);
        assert!(app.close_at.is_none());
    }
}

#[test]
fn logs_keep_the_newest_lines() {
    let mut app = app(&["a", "b"]);
    for i in 0..MAX_LOG_LINES + 3 {
        line(&mut app, 1, &i.to_string());
    }
    assert_eq!(app.logs[1].len(), MAX_LOG_LINES);
    assert_eq!(app.logs[1][0], "3");
    assert!(app.logs[0].is_empty());
    line(&mut app, 9, "nowhere");
}

#[test]
fn the_selection_follows_until_the_user_moves_it() {
    let mut app = app(&["a", "b", "c"]);
    app.apply(WorkerEvent::Started { idx: 1 }, 7);
    assert_eq!(app.selected, 1);
    assert_eq!(app.steps[1].status, Status::Running(7));
    assert!(app.is_running());
    handle(&mut app, Key::Char('j'), false);
    assert_eq!(app.selected, 2);
    handle(&mut app, Key::Down, false);
    assert_eq!(app.selected, 2);
    app.apply(WorkerEvent::Started { idx: 0 }, 8);
    assert_eq!(app.selected, 2);
    handle(&mut app, Key::Char('1'), false);
    assert_eq!(app.selected, 0);
    handle(&mut app, Key::Char('k'), false);
    assert_eq!(app.selected, 0);
    handle(&mut app, Key::Char('9'), false);
    assert_eq!(app.selected, 0);
    app.select_delta(isize::MAX);
    assert_eq!(app.selected, 2);
    app.select_delta(isize::MIN);
    assert_eq!(app.selected, 0);
}

#[test]
fn the_log_scrolls_inside_of_its_ends() {
    let mut app = app(&["a"]);
    for i in 0..25 {
        line(&mut app, 0, &i.to_string());
    }
    assert_eq!(app.max_scroll(), 15);
    assert_eq!(app.log_offset(), 15);
    handle(&mut app, Key::Char('K'), false);
    assert_eq!((app.log_offset(), app.follow_tail), (14, false));
    handle(&mut app, Key::PageUp, false);
    assert_eq!(app.log_offset(), 4);
    handle(&mut app, Key::Char('u'), true);
    assert_eq!(app.log_offset(), 0);
    handle(&mut app, Key::Char('d'), true);
    assert_eq!(app.log_offset(), 5);
    handle(&mut app, Key::Char('d'), false);
    assert_eq!(app.log_offset(), 5);
    handle_mouse(&mut app, Mouse::ScrollDown);
    assert_eq!(app.log_offset(), 8);
    handle_mouse(&mut app, Mouse::ScrollUp);
    handle_mouse(&mut app, Mouse::Other);
    assert_eq!(app.log_offset(), 5);
    handle(&mut app, Key::Char('f'), false);
    assert_eq!((app.log_offset(), app.follow_tail), (15, true));
    handle(&mut app, Key::Home, false);
    assert_eq!((app.log_offset(), app.follow_tail), (0, false));
    handle(&mut app, Key::Char('G'), false);
    assert_eq!((app.log_offset(), app.follow_tail), (15, true));
    app.scroll_by(isize::MIN);
    assert_eq!(app.log_offset(), 0);
}

#[test]
fn failed_steps_are_run_again_on_request() {
    let mut app = app(&["a"]);
    assert!(handle(&mut app, Key::Char('r'), false).is_none());
    app.apply(WorkerEvent::Started { idx: 0 }, 0);
    assert!(handle(&mut app, Key::Char('r'), false).is_none());
    finish(&mut app, 0, Outcome::Failed("no".into()));
    app.apply(WorkerEvent::Done { ok: false }, 0);
    match handle(&mut app, Key::Char('r'), false) {
        Some(UiCommand::Retry(idxs)) => assert!(idxs.is_empty()),
        other => panic!("{other:?}"),
    }
    assert!(app.retrying);
    assert_eq!(app.done, None);
    app.apply(WorkerEvent::Started { idx: 0 }, 0);
    assert_eq!(app.logs[0], vec!["── retry ──".to_string()]);
    app.apply(WorkerEvent::Done { ok: true }, 0);
    assert!(!app.retrying);
}

#[test]
fn closing_stops_what_runs() {
    let mut idle = app(&["a"]);
    assert!(handle(&mut idle, Key::Char('q'), false).is_none());
    assert!(idle.quit);
    let mut busy = app(&["a"]);
    busy.apply(WorkerEvent::Started { idx: 0 }, 0);
    assert!(handle(&mut busy, Key::Char('c'), false).is_none());
    assert!(!busy.quit);
    assert!(matches!(handle(&mut busy, Key::Char('c'), true), Some(UiCommand::Abort)));
    assert!(busy.quit);
}

#[test]
fn errors_end_with_their_own_code() {
    let mut app = app(&["a"]);
    app.worker_stopped();
    assert_eq!(app.fatal.as_deref(), Some("worker stopped unexpectedly"));
    assert_eq!(app.exit_code(), 2);
    let mut done = App::new(&Config::default());
    done.apply(WorkerEvent::Done { ok: true }, 0);
    done.worker_stopped();
    assert_eq!(done.exit_code(), 0);
    done.apply(WorkerEvent::Fatal("x".into()), 0);
    assert_eq!((done.exit_code(), done.done), (2, Some(false)));
    assert_eq!(
        text(&render_fatal("boom")),
        "boomPress any key to close."
    );
}

#[test]
fn the_screen_line_by_line() {
    let mut app = app(&["a", "b"]);
    assert_eq!(text(&render_header(&app)), " Worktree Setup ─ clyras · feature/x ─ ~/wt");
    assert_eq!(steps_title(&app), " steps 0/2 ");
    finish(&mut app, 0, Outcome::Failed("no".into()));
    assert_eq!(steps_title(&app), " steps 1/2 ");
    let cells = step_cells(0, &app.steps[0]);
    assert_eq!(text(&cells), "✗1 ano");
    assert_eq!(cells[0].color, Color::Red);
    assert!(cells[0].bold && cells[2].color == Color::Red);
    assert_eq!(cells[1].text, "1 ");
    assert_eq!(step_cells(9, &app.steps[1])[1].text, "  ");
    assert_eq!(step_time(&app.steps[0], 99), Some(5));
    app.apply(WorkerEvent::Started { idx: 1 }, 10);
    assert_eq!(step_time(&app.steps[1], 99), Some(89));
    assert_eq!(step_time(&app.steps[1], 3), Some(0));
    let blank = App::new(&Config::default());
    assert_eq!(text(&render_header(&blank)), " Worktree Setup ─ starting…");
    assert_eq!(steps_title(&blank), " steps ");
}

#[test]
fn the_footer_says_how_the_run_stands() {
    let mut app = app(&["a"]);
    assert_eq!(render_footer(&app, 0).1.text, "working… ");
    assert_eq!(
        text(&render_footer(&app, 0).0),
        " j/k step  J/K scroll  g/G top/end  q close"
    );
    finish(&mut app, 0, Outcome::Failed("no".into()));
    app.apply(WorkerEvent::Done { ok: false }, 0);
    assert_eq!(render_footer(&app, 0).1.text, "some steps failed ");
    assert_eq!(
        text(&render_footer(&app, 0).0),
        " j/k step  J/K scroll  g/G top/end  r retry failed  q close"
    );
    handle(&mut app, Key::Char('r'), false);
    assert_eq!(render_footer(&app, 0).1.text, "retrying… ");
    app.apply(WorkerEvent::Done { ok: true }, 0);
    assert_eq!(render_footer(&app, SECOND).1.text, "closing in 4s (any key cancels) ");
    app.cancel_countdown();
    assert_eq!(render_footer(&app, 0).1.text, "ready ✓ ");
    app.dry_run = true;
    assert_eq!(render_footer(&app, 0).1.text, "dry run complete ");
    assert_eq!(render_footer(&App::new(&Config::default()), 0).1.text, "preparing… ");
}

#[test]
fn the_log_is_laid_out_in_its_frame() {
    let mut app = app(&["a"]);
    let pane = render_log(&mut app, 12);
    assert_eq!(pane.title, " output: a ");
    assert!(pane.warnings && pane.hint.is_empty());
    assert_eq!((pane.from, pane.to), (0, 0));
    for i in 0..25 {
        line(&mut app, 0, &i.to_string());
    }
    let pane = render_log(&mut app, 12);
    assert_eq!((pane.from, pane.to, pane.hint.as_str()), (15, 25, " 16-25/25 "));
    assert!(!pane.warnings);
    assert_eq!(app.log_viewport, 10);
    app.scroll_to_top();
    let pane = render_log(&mut app, 12);
    assert_eq!((pane.from, pane.to, pane.hint.as_str()), (0, 10, " 1-10/25 "));
    let pane = render_log(&mut app, 1);
    assert_eq!((pane.from, pane.to), (0, 0));
    assert_eq!(app.log_viewport, 1);
    app.selected = 9;
    assert_eq!(render_log(&mut app, 12).title, " output ");
}

#[test]
fn the_steps_leave_room_for_the_log() {
    assert_eq!(steps_height(5, 40), 7);
    assert_eq!(steps_height(50, 40), 34);
    assert_eq!(steps_height(0, 40), 3);
    assert_eq!(steps_height(5, 4), 2);
    assert_eq!(steps_height(5, 0), 0);
}

#[test]
fn a_run_line_by_line() {
    let mut out = Printer::new();
    assert_eq!(out.show(&WorkerEvent::Preparing("x".into()), ""), vec!["… x"]);
    assert_eq!(
        out.show(&plan(&["a", "b"]), ""),
        vec![
            "Worktree Setup — clyras · feature/x → ~/wt",
            "  source: ~/src  env: login shell",
            "  config: ~/cfg",
            "  warning: careful",
            "  1. a  (a hint)",
            "  2. b  (b hint)",
        ]
    );
    assert_eq!(out.show(&WorkerEvent::Started { idx: 1 }, ""), vec!["\n▶ b"]);
    assert_eq!(out.show(&WorkerEvent::Started { idx: 5 }, ""), vec!["\n▶ "]);
    let ev = WorkerEvent::Line { idx: 0, text: "\u{1b}[32mgreen\u{1b}[0m ✓".into() };
    assert_eq!(out.show(&ev, ""), vec!["  green ✓"]);
    let end = |outcome| WorkerEvent::Finished { idx: 0, outcome, took: 1 };
    assert_eq!(
        out.show(&end(Outcome::Succeeded("ok".into())), "0.1s"),
        vec!["✓ a: ok  [0.1s]"]
    );
    assert_eq!(out.show(&end(Outcome::Skipped("no".into())), "0.1s"), vec!["– a: no"]);
    assert_eq!(out.show(&end(Outcome::Failed("no".into())), "0.1s"), vec!["✗ a: no  [0.1s]"]);
    assert_eq!(out.show(&WorkerEvent::Done { ok: true }, ""), vec!["\nready ✓"]);
    assert_eq!(out.show(&WorkerEvent::Done { ok: false }, ""), vec!["\nsome steps failed ✗"]);
    assert_eq!(out.show(&WorkerEvent::Fatal("x".into()), ""), vec!["\nerror: x"]);
    assert_eq!(Printer::exit_code(&WorkerEvent::Done { ok: true }), Some(0));
    assert_eq!(Printer::exit_code(&WorkerEvent::Done { ok: false }), Some(1));
    assert_eq!(Printer::exit_code(&WorkerEvent::Fatal("x".into())), Some(2));
    assert_eq!(Printer::exit_code(&WorkerEvent::Started { idx: 0 }), None);
}

#[test]
fn escape_sequences_are_stripped() {
    assert_eq!(strip("\u{1b}[1;31mred\u{1b}[0m plain"), "red plain");
    assert_eq!(strip("plain"), "plain");
}

#[test]
fn herdr_hears_of_a_run() {
    let herdr = Herdr::from_env(None, false);
    let app = app(&["a"]);
    let fin = WorkerEvent::Finished { idx: 0, outcome: Outcome::Succeeded("x".into()), took: 1 };
    assert!(side_effects(&herdr, None, &app, &fin, 1).is_empty());
    let calls = side_effects(&herdr, Some("p1"), &app, &fin, 4);
    assert_eq!(calls.len(), 1);
    assert_eq!(calls[0].last().unwrap(), "Setup 1/4");
    assert_eq!(
        side_effects(&herdr, Some("p1"), &app, &fin, 0)[0].last().unwrap(),
        "Setup 1/1"
    );
    let calls = side_effects(&herdr, Some("p1"), &app, &WorkerEvent::Done { ok: true }, 1);
    assert_eq!(calls[0].last().unwrap(), "Setup ✓");
    assert!(calls[1].contains(&"feature/x is ready".to_string()));
    let calls = side_effects(&herdr, Some("p1"), &app, &WorkerEvent::Done { ok: false }, 1);
    assert_eq!(calls[0].last().unwrap(), "Setup ✗");
    assert!(calls[1].contains(&"feature/x: setup needs attention".to_string()));
    let calls = side_effects(&herdr, Some("p1"), &app, &WorkerEvent::Fatal("boom".into()), 1);
    assert!(calls[1].contains(&"boom".to_string()));
    let mut dry = App::new(&Config::default());
    dry.dry_run = true;
    assert_eq!(
        side_effects(&herdr, Some("p1"), &dry, &WorkerEvent::Done { ok: true }, 1).len(),
        1
    );
}
