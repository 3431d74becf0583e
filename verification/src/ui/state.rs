//! What is on the screen, as the reports of a run change it. Moments are
//! nanoseconds since the program started.

use vstd::prelude::*;
use vstd::string::*;
use crate::config::{Config, ConfigView};
use crate::pipeline::{
    metas_view, EventView, Header, HeaderView, MetaView, Outcome, OutcomeView, StepMeta,
    WorkerEvent,
};
use crate::text::{option_text, texts};

verus! {

/// How far a step is.
#[derive(Debug, Clone, Copy, PartialEq, Eq, Structural)]
pub enum Status {
    Pending,
    /// It runs, since that moment.
    Running(u64),
    Succeeded,
    Skipped,
    Failed,
}

#[derive(Debug)]
pub struct StepRow {
    pub meta: StepMeta,
    pub status: Status,
    pub detail: String,
    /// How long it took.
    pub took: Option<u128>,
}

/// What a row says.
#[verifier::ext_equal]
pub struct RowView {
    pub meta: MetaView,
    pub status: Status,
    pub detail: Seq<char>,
    pub took: Option<u128>,
}

impl View for StepRow {
    type V = RowView;

    open spec fn view(&self) -> RowView {
        RowView { meta: self.meta@, status: self.status, detail: self.detail@, took: self.took }
    }
}

/// What some rows say.
pub open spec fn rows_view(v: Seq<StepRow>) -> Seq<RowView> {
    Seq::new(v.len(), |i: int| v[i]@)
}

/// What some logs say.
pub open spec fn logs_view(v: Seq<Vec<String>>) -> Seq<Seq<Seq<char>>> {
    Seq::new(v.len(), |i: int| texts(v[i]@))
}

/// So many lines of a step's output are kept.
pub const MAX_LOG_LINES: usize = 5000;

/// Nanoseconds in a second.
pub const SECOND: u128 = 1000000000;

#[derive(Debug)]
pub struct App {
    pub header: Option<Header>,
    pub preparing: String,
    pub steps: Vec<StepRow>,
    pub logs: Vec<Vec<String>>,
    pub selected: usize,
    /// Whether the selection moves to each step that starts.
    pub follow_running: bool,
    pub scroll: usize,
    pub follow_tail: bool,
    /// When the pane closes.
    pub close_at: Option<u128>,
    pub done: Option<bool>,
    pub fatal: Option<String>,
    pub quit: bool,
    pub dry_run: bool,
    pub retrying: bool,
    /// Height of the log viewport, updated by the renderer for paging.
    pub log_viewport: usize,
    /// How many seconds the pane stays open after a run that went well; no end
    /// where there are none.
    pub auto_close_secs: u64,
}

/// What is on the screen.
#[verifier::ext_equal]
pub struct AppView {
    pub header: Option<HeaderView>,
    pub preparing: Seq<char>,
    pub steps: Seq<RowView>,
    pub logs: Seq<Seq<Seq<char>>>,
    pub selected: usize,
    pub follow_running: bool,
    pub scroll: usize,
    pub follow_tail: bool,
    pub close_at: Option<u128>,
    pub done: Option<bool>,
    pub fatal: Option<Seq<char>>,
    pub quit: bool,
    pub dry_run: bool,
    pub retrying: bool,
    pub log_viewport: usize,
    pub auto_close_secs: u64,
}

impl View for App {
    type V = AppView;

    open spec fn view(&self) -> AppView {
        AppView {
            header: match self.header {
                Some(h) => Some(h@),
                None => None,
            },
            preparing: self.preparing@,
            steps: rows_view(self.steps@),
            logs: logs_view(self.logs@),
            selected: self.selected,
            follow_running: self.follow_running,
            scroll: self.scroll,
            follow_tail: self.follow_tail,
            close_at: self.close_at,
            done: self.done,
            fatal: option_text(self.fatal),
            quit: self.quit,
            dry_run: self.dry_run,
            retrying: self.retrying,
            log_viewport: self.log_viewport,
            auto_close_secs: self.auto_close_secs,
        }
    }
}

// --- what reports change -----------------------------------------------------

/// The screen before the first report.
pub open spec fn blank(cfg: ConfigView) -> AppView {
    AppView {
        header: None,
        preparing: "starting"@,
        steps: Seq::empty(),
        logs: Seq::empty(),
        selected: 0,
        follow_running: true,
        scroll: 0,
        follow_tail: true,
        close_at: None,
        done: None,
        fatal: None,
        quit: false,
        dry_run: false,
        retrying: false,
        log_viewport: 10,
        auto_close_secs: cfg.auto_close_secs,
    }
}

/// The row of a step that has not run.
pub open spec fn planned_row(meta: MetaView) -> RowView {
    RowView { meta, status: Status::Pending, detail: meta.1, took: None }
}

/// The row of a step that starts now.
pub open spec fn started_row(row: RowView, now: u64) -> RowView {
    RowView { meta: row.meta, status: Status::Running(now), detail: "running…"@, took: None }
}

/// The row of a step that came to its end.
pub open spec fn finished_row(row: RowView, outcome: OutcomeView, took: u128) -> RowView {
    match outcome {
        OutcomeView::Succeeded(d) => RowView {
            meta: row.meta,
            status: Status::Succeeded,
            detail: d,
            took: Some(took),
        },
        OutcomeView::Skipped(d) => RowView {
            meta: row.meta,
            status: Status::Skipped,
            detail: d,
            took: Some(took),
        },
        OutcomeView::Failed(d) => RowView {
            meta: row.meta,
            status: Status::Failed,
            detail: d,
            took: Some(took),
        },
    }
}

/// The rows with that of a step changed, where there is such a step.
pub open spec fn with_row(rows: Seq<RowView>, idx: usize, f: spec_fn(RowView) -> RowView) -> Seq<
    RowView,
> {
    if idx < rows.len() {
        rows.update(idx as int, f(rows[idx as int]))
    } else {
        rows
    }
}

/// The newest lines of a log.
pub open spec fn newest(log: Seq<Seq<char>>) -> Seq<Seq<char>> {
    if log.len() > MAX_LOG_LINES {
        log.skip(log.len() - MAX_LOG_LINES)
    } else {
        log
    }
}

/// The logs with that of a step changed, where there is such a step.
pub open spec fn with_log(
    logs: Seq<Seq<Seq<char>>>,
    idx: usize,
    f: spec_fn(Seq<Seq<char>>) -> Seq<Seq<char>>,
) -> Seq<Seq<Seq<char>>> {
    if idx < logs.len() {
        logs.update(idx as int, f(logs[idx as int]))
    } else {
        logs
    }
}

/// The first of the rows that failed.
pub open spec fn first_failed(rows: Seq<RowView>) -> Option<nat>
    decreases rows.len(),
{
    if rows.len() == 0 {
        None
    } else {
        match first_failed(rows.drop_last()) {
            Some(k) => Some(k),
            None => if rows.last().status == Status::Failed {
                Some((rows.len() - 1) as nat)
            } else {
                None
            },
        }
    }
}

/// The screen with a step selected, its log at the end.
pub open spec fn showing(app: AppView, idx: usize) -> AppView {
    AppView { selected: idx, scroll: 0, follow_tail: true, ..app }
}

/// The screen after a step started.
pub open spec fn after_start(app: AppView, idx: usize, now: u64) -> AppView {
    let steps = with_row(app.steps, idx, |row: RowView| started_row(row, now));
    let logs = if app.retrying {
        with_log(app.logs, idx, |log: Seq<Seq<char>>| log.push("── retry ──"@))
    } else {
        app.logs
    };
    let shown = if app.follow_running {
        showing(app, idx)
    } else {
        app
    };
    AppView { steps, logs, done: None, close_at: None, ..shown }
}

/// The screen after a run.
pub open spec fn after_run(app: AppView, ok: bool, now: u64) -> AppView {
    let over = AppView { done: Some(ok), retrying: false, ..app };
    if ok {
        if app.auto_close_secs != 0 {
            AppView { close_at: Some((now + app.auto_close_secs * SECOND) as u128), ..over }
        } else {
            over
        }
    } else {
        match first_failed(app.steps) {
            Some(k) => if app.follow_running {
                showing(over, k as usize)
            } else {
                over
            },
            None => over,
        }
    }
}

/// The screen after a report.
pub open spec fn applied(app: AppView, ev: EventView, now: u64) -> AppView {
    match ev {
        EventView::Preparing(what) => AppView { preparing: what, ..app },
        EventView::Plan { header, steps } => AppView {
            dry_run: header.dry_run,
            header: Some(header),
            steps: Seq::new(steps.len(), |i: int| planned_row(steps[i])),
            logs: Seq::new(steps.len(), |i: int| Seq::<Seq<char>>::empty()),
            ..app
        },
        EventView::Started { idx } => after_start(app, idx, now),
        EventView::Line { idx, text } => AppView {
            logs: with_log(app.logs, idx, |log: Seq<Seq<char>>| newest(log.push(text))),
            ..app
        },
        EventView::Finished { idx, outcome, took } => AppView {
            steps: with_row(app.steps, idx, |row: RowView| finished_row(row, outcome, took)),
            ..app
        },
        EventView::Done { ok } => after_run(app, ok, now),
        EventView::Fatal(msg) => AppView { fatal: Some(msg), done: Some(false), ..app },
    }
}

fn make_rows(steps: &Vec<StepMeta>) -> (r: Vec<StepRow>)
    ensures
        rows_view(r@) == Seq::new(
            metas_view(steps@).len(),
            |i: int| planned_row(metas_view(steps@)[i]),
        ),
{
    let mut out: Vec<StepRow> = Vec::new();
    let mut i: usize = 0;
    while i < steps.len()
        invariant
            i <= steps.len(),
            out@.len() == i,
            forall|k: int| 0 <= k < i ==> (#[trigger] out@[k])@ == planned_row(steps@[k]@),
        decreases steps.len() - i,
    {
        out.push(
            StepRow {
                meta: steps[i].clone(),
                status: Status::Pending,
                detail: steps[i].hint.clone(),
                took: None,
            },
        );
        i += 1;
    }
    assert(rows_view(out@) =~= Seq::new(
        metas_view(steps@).len(),
        |i: int| planned_row(metas_view(steps@)[i]),
    ));
    out
}

fn make_logs(n: usize) -> (r: Vec<Vec<String>>)
    ensures
        logs_view(r@) == Seq::new(n as nat, |i: int| Seq::<Seq<char>>::empty()),
{
    let mut out: Vec<Vec<String>> = Vec::new();
    let mut i: usize = 0;
    while i < n
        invariant
            i <= n,
            out@.len() == i,
            forall|k: int| 0 <= k < i ==> (#[trigger] out@[k])@.len() == 0,
        decreases n - i,
    {
        out.push(Vec::new());
        i += 1;
    }
    assert(logs_view(out@) =~= Seq::new(n as nat, |i: int| Seq::<Seq<char>>::empty())) by {
        assert forall|k: int| 0 <= k < n implies texts(out@[k]@) == Seq::<Seq<char>>::empty() by {
            assert(out@[k]@.len() == 0);
            assert(texts(out@[k]@) =~= Seq::<Seq<char>>::empty());
        }
    }
    out
}

impl App {
    /// The screen before the first report.
    pub fn new(cfg: &Config) -> (r: App)
        ensures
            r@ == blank(cfg@),
    {
        let r = App {
            header: None,
            preparing: "starting".to_owned(),
            steps: Vec::new(),
            logs: Vec::new(),
            selected: 0,
            follow_running: true,
            scroll: 0,
            follow_tail: true,
            close_at: None,
            done: None,
            fatal: None,
            quit: false,
            dry_run: false,
            retrying: false,
            log_viewport: 10,
            auto_close_secs: cfg.auto_close_secs,
        };
        assert(r@ =~= blank(cfg@));
        r
    }

    fn put_row(&mut self, idx: usize, row: StepRow)
        requires
            idx < old(self).steps@.len(),
        ensures
            final(self)@ == (AppView { steps: old(self)@.steps.update(idx as int, row@), ..old(self)@ }),
    {
        let ghost before = self@;
        self.steps.set(idx, row);
        assert(self@.steps =~= before.steps.update(idx as int, row@));
    }

    fn add_line(&mut self, idx: usize, line: String, trim: bool)
        requires
            idx < old(self).logs@.len(),
        ensures
            final(self)@ == (AppView {
                logs: old(self)@.logs.update(
                    idx as int,
                    if trim {
                        newest(old(self)@.logs[idx as int].push(line@))
                    } else {
                        old(self)@.logs[idx as int].push(line@)
                    },
                ),
                ..old(self)@
            }),
    {
        let ghost before = self@;
        let ghost log = self.logs@[idx as int]@;
        self.logs[idx].push(line);
        assert(texts(self.logs@[idx as int]@) =~= texts(log).push(line@));
        if trim && self.logs[idx].len() > MAX_LOG_LINES {
            let extra: usize = self.logs[idx].len() - MAX_LOG_LINES;
            let ghost all = self.logs@[idx as int]@;
            let kept = self.logs[idx].split_off(extra);
            assert(texts(kept@) =~= texts(all).skip(extra as int));
            self.logs.set(idx, kept);
        }
        assert(self@.logs =~= before.logs.update(idx as int, texts(self.logs@[idx as int]@)));
    }

    fn find_failed(&self) -> (r: Option<usize>)
        ensures
            match r {
                Some(k) => first_failed(self@.steps) == Some(k as nat) && k < self@.steps.len(),
                None => first_failed(self@.steps) is None,
            },
    {
        let ghost all = self@.steps;
        let mut i: usize = 0;
        let mut found: Option<usize> = None;
        assert(all.take(0) =~= Seq::empty());
        while i < self.steps.len()
            invariant
                i <= self.steps.len(),
                all == rows_view(self.steps@),
                match found {
                    Some(k) => first_failed(all.take(i as int)) == Some(k as nat) && k < i,
                    None => first_failed(all.take(i as int)) is None,
                },
            decreases self.steps.len() - i,
        {
            assert(all.take(i + 1).drop_last() =~= all.take(i as int));
            assert(all.take(i + 1).last() == self.steps@[i as int]@);
            if found.is_none() && self.steps[i].status == Status::Failed {
                found = Some(i);
            }
            i += 1;
        }
        assert(all.take(i as int) =~= all);
        found
    }

    fn start(&mut self, idx: usize, now: u64)
        ensures
            final(self)@ == after_start(old(self)@, idx, now),
    {
        let ghost before = self@;
        if idx < self.steps.len() {
            let row = StepRow {
                meta: self.steps[idx].meta.clone(),
                status: Status::Running(now),
                detail: "running…".to_owned(),
                took: None,
            };
            assert(row@ =~= started_row(before.steps[idx as int], now));
            self.put_row(idx, row);
        }
        if idx < self.logs.len() && self.retrying {
            self.add_line(idx, "── retry ──".to_owned(), false);
        }
        if self.follow_running {
            self.selected = idx;
            self.scroll = 0;
            self.follow_tail = true;
        }
        self.done = None;
        self.close_at = None;
        assert(self@ =~= after_start(before, idx, now));
    }

    fn finish(&mut self, idx: usize, outcome: Outcome, took: u128)
        ensures
            final(self)@ == applied(
                old(self)@,
                (EventView::Finished { idx, outcome: outcome@, took }),
                0,
            ),
    {
        let ghost before = self@;
        let ghost end = outcome@;
        if idx < self.steps.len() {
            let (status, detail) = match outcome {
                Outcome::Succeeded(d) => (Status::Succeeded, d),
                Outcome::Skipped(d) => (Status::Skipped, d),
                Outcome::Failed(d) => (Status::Failed, d),
            };
            let row = StepRow {
                meta: self.steps[idx].meta.clone(),
                status,
                detail,
                took: Some(took),
            };
            assert(row@ =~= finished_row(before.steps[idx as int], end, took));
            self.put_row(idx, row);
        }
    }

    fn finish_run(&mut self, ok: bool, now: u64)
        ensures
            final(self)@ == after_run(old(self)@, ok, now),
    {
        let ghost before = self@;
        self.done = Some(ok);
        self.retrying = false;
        if ok && self.auto_close_secs != 0 {
            self.close_at = Some(now as u128 + self.auto_close_secs as u128 * SECOND);
        }
        if !ok {
            match self.find_failed() {
                Some(k) => {
                    if self.follow_running {
                        self.selected = k;
                        self.scroll = 0;
                        self.follow_tail = true;
                    }
                },
                None => {},
            }
        }
        assert(self@ =~= after_run(before, ok, now));
    }

    /// Takes a report in.
    pub fn apply(&mut self, ev: WorkerEvent, now: u64)
        ensures
            final(self)@ == applied(old(self)@, ev@, now),
    {
        let ghost before = self@;
        let ghost said = ev@;
        match ev {
            WorkerEvent::Preparing(what) => {
                self.preparing = what;
            },
            WorkerEvent::Plan { header, steps } => {
                self.dry_run = header.dry_run;
                self.header = Some(header);
                self.steps = make_rows(&steps);
                self.logs = make_logs(steps.len());
                assert(self@ =~= applied(before, said, now));
            },
            WorkerEvent::Started { idx } => {
                self.start(idx, now);
            },
            WorkerEvent::Line { idx, text } => {
                if idx < self.logs.len() {
                    self.add_line(idx, text, true);
                }
            },
            WorkerEvent::Finished { idx, outcome, took } => {
                self.finish(idx, outcome, took);
            },
            WorkerEvent::Done { ok } => {
                self.finish_run(ok, now);
            },
            WorkerEvent::Fatal(msg) => {
                self.fatal = Some(msg);
                self.done = Some(false);
            },
        }
    }
}

// --- what is asked of the screen ---------------------------------------------

/// Whether a step failed.
pub open spec fn any_failed(rows: Seq<RowView>) -> bool {
    exists|i: int| 0 <= i < rows.len() && (#[trigger] rows[i]).status == Status::Failed
}

/// Whether a step is running.
pub open spec fn any_running(rows: Seq<RowView>) -> bool {
    exists|i: int| 0 <= i < rows.len() && (#[trigger] rows[i]).status is Running
}

/// Whether the pane is due to close.
pub open spec fn due(app: AppView, now: u64) -> bool {
    app.close_at is Some && now >= app.close_at->0
}

/// The exit code that the screen stands for.
pub open spec fn exit_of(app: AppView) -> int {
    if app.fatal is Some {
        2
    } else if app.done == Some(true) {
        0
    } else {
        1
    }
}

/// The screen after a look at the clock.
pub open spec fn ticked(app: AppView, now: u64) -> AppView {
    if due(app, now) {
        AppView { quit: true, ..app }
    } else {
        app
    }
}

/// The seconds until a moment, the last one counted in full.
pub open spec fn seconds_until(at: u128, now: u64) -> int {
    if at <= now {
        0
    } else {
        (at - now + SECOND - 1) / (SECOND as int)
    }
}

/// `n`, or the nearest number that is not outside of `low` and `high`.
pub open spec fn clamped(n: int, low: int, high: int) -> int {
    if n < low {
        low
    } else if n > high {
        high
    } else {
        n
    }
}

/// The screen after a step was selected.
pub open spec fn chosen(app: AppView, idx: int) -> AppView {
    if 0 <= idx < app.steps.len() {
        AppView { follow_running: false, ..showing(app, idx as usize) }
    } else {
        app
    }
}

/// The screen after the selection moved by so many steps.
pub open spec fn moved(app: AppView, delta: int) -> AppView {
    if app.steps.len() == 0 {
        app
    } else {
        chosen(app, clamped(app.selected + delta, 0, app.steps.len() - 1))
    }
}

/// The log of the selected step.
pub open spec fn shown_log(app: AppView) -> Seq<Seq<char>> {
    if app.selected < app.logs.len() {
        app.logs[app.selected as int]
    } else {
        Seq::empty()
    }
}

/// The furthest that the log can be scrolled.
pub open spec fn furthest(app: AppView) -> int {
    if shown_log(app).len() > app.log_viewport {
        shown_log(app).len() - app.log_viewport
    } else {
        0
    }
}

/// The screen with its log scrolled by so many lines.
pub open spec fn scrolled(app: AppView, delta: int) -> AppView {
    let max = furthest(app);
    let current = if app.follow_tail {
        max
    } else {
        app.scroll as int
    };
    let next = clamped(current + delta, 0, max);
    AppView { scroll: next as usize, follow_tail: next >= max, ..app }
}

/// The first line of the log that is on the screen.
pub open spec fn first_line(app: AppView) -> int {
    if app.follow_tail || app.scroll > furthest(app) {
        furthest(app)
    } else {
        app.scroll as int
    }
}

impl App {
    /// Closes the pane where its time has come.
    pub fn tick(&mut self, now: u64)
        ensures
            final(self)@ == ticked(old(self)@, now),
    {
        match self.close_at {
            Some(at) => {
                if now as u128 >= at {
                    self.quit = true;
                }
            },
            None => {},
        }
    }

    /// Stops the countdown.
    pub fn cancel_countdown(&mut self)
        ensures
            final(self)@ == (AppView { close_at: None, ..old(self)@ }),
    {
        self.close_at = None;
    }

    /// What is left of the countdown, in seconds.
    pub fn remaining_close_secs(&self, now: u64) -> (r: Option<u64>)
        ensures
            match r {
                Some(n) => self@.close_at is Some && n == clamped(
                    seconds_until(self@.close_at->0, now),
                    0,
                    u64::MAX as int,
                ),
                None => self@.close_at is None,
            },
    {
        match self.close_at {
            Some(at) => {
                if at <= now as u128 {
                    Some(0)
                } else {
                    let left: u128 = at - now as u128;
                    let whole: u128 = left / SECOND;
                    let secs: u128 = if left % SECOND == 0 {
                        whole
                    } else {
                        whole + 1
                    };
                    assert(secs == (left + SECOND - 1) / (SECOND as int));
                    if secs > u64::MAX as u128 {
                        Some(u64::MAX)
                    } else {
                        Some(secs as u64)
                    }
                }
            },
            None => None,
        }
    }

    /// Whether a step failed.
    pub fn has_failures(&self) -> (r: bool)
        ensures
            r == any_failed(self@.steps),
    {
        let mut i: usize = 0;
        while i < self.steps.len()
            invariant
                i <= self.steps.len(),
                forall|k: int| 0 <= k < i ==> (#[trigger] self@.steps[k]).status != Status::Failed,
            decreases self.steps.len() - i,
        {
            assert(self@.steps[i as int] == self.steps@[i as int]@);
            if self.steps[i].status == Status::Failed {
                return true;
            }
            i += 1;
        }
        false
    }

    /// Whether a step is running.
    pub fn is_running(&self) -> (r: bool)
        ensures
            r == any_running(self@.steps),
    {
        let mut i: usize = 0;
        while i < self.steps.len()
            invariant
                i <= self.steps.len(),
                forall|k: int| 0 <= k < i ==> !((#[trigger] self@.steps[k]).status is Running),
            decreases self.steps.len() - i,
        {
            assert(self@.steps[i as int] == self.steps@[i as int]@);
            match self.steps[i].status {
                Status::Running(_) => {
                    return true;
                },
                _ => {},
            }
            i += 1;
        }
        false
    }

    /// The exit code that the screen stands for.
    pub fn exit_code(&self) -> (r: i32)
        ensures
            r == exit_of(self@),
    {
        if self.fatal.is_some() {
            2
        } else {
            match self.done {
                Some(true) => 0,
                _ => 1,
            }
        }
    }

    /// The worker is gone: that is an error where it had not come to an end.
    pub fn worker_stopped(&mut self)
        ensures
            final(self)@ == if old(self)@.done is None && old(self)@.fatal is None {
                AppView { fatal: Some("worker stopped unexpectedly"@), ..old(self)@ }
            } else {
                old(self)@
            },
    {
        if self.done.is_none() && self.fatal.is_none() {
            self.fatal = Some("worker stopped unexpectedly".to_owned());
        }
    }

    /// Selects a step, where there is such a step.
    pub fn select(&mut self, idx: usize)
        ensures
            final(self)@ == chosen(old(self)@, idx as int),
    {
        if idx < self.steps.len() {
            self.selected = idx;
            self.follow_running = false;
            self.scroll = 0;
            self.follow_tail = true;
        }
    }

    /// Moves the selection by so many steps, not past the first or the last.
    pub fn select_delta(&mut self, delta: isize)
        ensures
            final(self)@ == moved(old(self)@, delta as int),
    {
        if self.steps.len() == 0 {
            return;
        }
        let last: i128 = self.steps.len() as i128 - 1;
        let wanted: i128 = self.selected as i128 + delta as i128;
        let next: usize = if wanted < 0 {
            0
        } else if wanted > last {
            last as usize
        } else {
            wanted as usize
        };
        self.select(next);
    }

    /// The log of the selected step.
    pub fn selected_log(&self) -> (r: &[String])
        ensures
            texts(r@) == shown_log(self@),
    {
        if self.selected < self.logs.len() {
            self.logs[self.selected].as_slice()
        } else {
            assert(texts(Seq::empty()) =~= Seq::<Seq<char>>::empty());
            &[]
        }
    }

    /// The furthest that the log can be scrolled.
    pub fn max_scroll(&self) -> (r: usize)
        ensures
            r == furthest(self@),
    {
        let log = self.selected_log();
        let n: usize = log.len();
        assert(texts(log@).len() == n);
        if n > self.log_viewport {
            n - self.log_viewport
        } else {
            0
        }
    }

    pub(crate) fn scroll_lines(&mut self, delta: i128)
        requires
            -0x1_0000_0000_0000_0000 <= delta <= 0x1_0000_0000_0000_0000,
        ensures
            final(self)@ == scrolled(old(self)@, delta as int),
    {
        let max: usize = self.max_scroll();
        let current: usize = if self.follow_tail {
            max
        } else {
            self.scroll
        };
        let wanted: i128 = current as i128 + delta;
        let next: usize = if wanted < 0 {
            0
        } else if wanted > max as i128 {
            max
        } else {
            wanted as usize
        };
        self.scroll = next;
        self.follow_tail = next >= max;
    }

    /// Scrolls the log by so many lines, not past its ends.
    pub fn scroll_by(&mut self, delta: isize)
        ensures
            final(self)@ == scrolled(old(self)@, delta as int),
    {
        self.scroll_lines(delta as i128);
    }

    /// Scrolls to the first line of the log.
    pub fn scroll_to_top(&mut self)
        ensures
            final(self)@ == (AppView {
                scroll: 0,
                follow_tail: furthest(old(self)@) == 0,
                ..old(self)@
            }),
    {
        self.scroll = 0;
        assert(furthest(self@) == furthest(old(self)@));
        let max: usize = self.max_scroll();
        self.follow_tail = max == 0;
    }

    /// Scrolls to the last line of the log, and stays there.
    pub fn scroll_to_bottom(&mut self)
        ensures
            final(self)@ == (AppView {
                scroll: furthest(old(self)@) as usize,
                follow_tail: true,
                ..old(self)@
            }),
    {
        self.follow_tail = true;
        assert(furthest(self@) == furthest(old(self)@));
        let max: usize = self.max_scroll();
        self.scroll = max;
    }

    /// First visible log line index given the current viewport.
    pub fn log_offset(&self) -> (r: usize)
        ensures
            r == first_line(self@),
    {
        let max: usize = self.max_scroll();
        if self.follow_tail || self.scroll > max {
            max
        } else {
            self.scroll
        }
    }
}

// --- what holds of every run -------------------------------------------------

/// A countdown starts only after a run that went well, and only where the user
/// wants one.
pub proof fn law_countdown_needs_success(app: AppView, ev: EventView, now: u64)
    requires
        app.close_at is None,
        applied(app, ev, now).close_at is Some,
    ensures
        (ev matches EventView::Done { ok } && ok),
        app.auto_close_secs != 0,
{
}

/// After a run that did not go well the pane stays open: nothing but a key closes
/// it.
pub proof fn law_failed_run_stays_open(app: AppView, now: u64, later: u64)
    requires
        app.close_at is None,
    ensures
        ticked(applied(app, EventView::Done { ok: false }, now), later).quit == app.quit,
{
}

/// A pane whose time has not come stays open, and one whose time has come closes:
/// the time that the user asked for passes in between.
pub proof fn law_countdown_runs_its_time(app: AppView, now: u64, later: u64)
    requires
        !app.quit,
        app.auto_close_secs != 0,
    ensures
        ticked(applied(app, EventView::Done { ok: true }, now), later).quit <==> later >= now
            + app.auto_close_secs * SECOND,
{
}

/// A step that starts stops the countdown.
pub proof fn law_start_stops_the_countdown(app: AppView, idx: usize, now: u64)
    ensures
        applied(app, EventView::Started { idx }, now).close_at is None,
{
}

/// A step's log never grows past its limit by a line, and the line is its last.
pub proof fn law_log_keeps_the_newest(app: AppView, idx: usize, text: Seq<char>, now: u64)
    requires
        idx < app.logs.len(),
    ensures
        ({
            let log = applied(app, EventView::Line { idx, text }, now).logs[idx as int];
            &&& log.len() <= MAX_LOG_LINES
            &&& log.last() == text
            &&& app.logs[idx as int].len() < MAX_LOG_LINES ==> log
                == app.logs[idx as int].push(text)
        }),
{
}

/// A line of one step is in no other step's log.
pub proof fn law_logs_are_apart(app: AppView, idx: usize, text: Seq<char>, now: u64, other: int)
    requires
        0 <= other < app.logs.len(),
        other != idx,
    ensures
        applied(app, EventView::Line { idx, text }, now).logs[other] == app.logs[other],
{
}

/// There is a log for each step.
pub open spec fn logs_match(app: AppView) -> bool {
    app.logs.len() == app.steps.len()
}

/// Every report keeps a log for each step.
pub proof fn law_log_for_each_step(app: AppView, ev: EventView, now: u64)
    requires
        logs_match(app),
    ensures
        logs_match(applied(app, ev, now)),
{
}

/// The selected step is one of the steps, where there are any.
pub open spec fn selection_valid(app: AppView) -> bool {
    app.steps.len() > 0 ==> app.selected < app.steps.len()
}

/// The first failed step is a step that failed.
proof fn lemma_first_failed(rows: Seq<RowView>)
    ensures
        match first_failed(rows) {
            Some(k) => k < rows.len() && rows[k as int].status == Status::Failed,
            None => forall|i: int| 0 <= i < rows.len() ==> (#[trigger] rows[i]).status
                != Status::Failed,
        },
    decreases rows.len(),
{
    if rows.len() > 0 {
        let front = rows.drop_last();
        lemma_first_failed(front);
        match first_failed(front) {
            Some(k) => {
                assert(front[k as int] == rows[k as int]);
            },
            None => {
                assert forall|i: int| 0 <= i < rows.len() - 1 implies (#[trigger] rows[i]).status
                    != Status::Failed by {
                    assert(front[i] == rows[i]);
                }
            },
        }
    }
}

/// The selection stays among the steps: no report about one of the steps and no
/// move takes it away.
pub proof fn law_selection_stays_valid(app: AppView, ev: EventView, now: u64, delta: int)
    requires
        selection_valid(app),
        app.steps.len() <= usize::MAX,
        ev matches EventView::Started { idx } ==> idx < app.steps.len(),
        !(ev is Plan),
    ensures
        selection_valid(applied(app, ev, now)),
        selection_valid(moved(app, delta)),
        selection_valid(chosen(app, delta)),
{
    lemma_first_failed(app.steps);
}

/// After a run that did not go well the first step that failed is shown, as long
/// as the user has not picked one.
pub proof fn law_failure_is_shown(app: AppView, now: u64)
    requires
        app.follow_running,
        any_failed(app.steps),
        app.steps.len() <= usize::MAX,
    ensures
        ({
            let r = applied(app, EventView::Done { ok: false }, now);
            &&& r.selected < r.steps.len()
            &&& r.steps[r.selected as int].status == Status::Failed
            &&& forall|i: int|
                0 <= i < r.selected ==> (#[trigger] r.steps[i]).status != Status::Failed
        }),
{
    lemma_first_failed(app.steps);
    lemma_first_failed_is_first(app.steps);
}

proof fn lemma_first_failed_is_first(rows: Seq<RowView>)
    ensures
        first_failed(rows) matches Some(k) ==> forall|i: int|
            0 <= i < k ==> (#[trigger] rows[i]).status != Status::Failed,
    decreases rows.len(),
{
    if rows.len() > 0 {
        let front = rows.drop_last();
        lemma_first_failed(front);
        lemma_first_failed_is_first(front);
        if first_failed(rows) is Some {
            let k = first_failed(rows)->0;
            assert forall|i: int| 0 <= i < k implies (#[trigger] rows[i]).status
                != Status::Failed by {
                assert(front[i] == rows[i]);
            }
        }
    }
}

/// Once the user has picked a step, the selection follows the run no more.
pub proof fn law_picked_step_stays(app: AppView, idx: int, ev: EventView, now: u64)
    requires
        0 <= idx < app.steps.len(),
        idx <= usize::MAX,
    ensures
        applied(chosen(app, idx), ev, now).selected == idx,
{
}

/// What is on the screen is inside of the log, and the log fills the screen
/// where it is long enough.
pub proof fn law_view_is_inside(app: AppView)
    ensures
        0 <= first_line(app) <= shown_log(app).len(),
        shown_log(app).len() > app.log_viewport ==> first_line(app) + app.log_viewport
            <= shown_log(app).len(),
        shown_log(app).len() <= app.log_viewport ==> first_line(app) == 0,
{
}

/// Scrolling there and back again ends where it began, where neither end of the
/// log was in the way.
pub proof fn law_scrolling_back(app: AppView, delta: int)
    requires
        furthest(app) <= usize::MAX,
        !app.follow_tail,
        app.scroll < furthest(app),
        0 <= app.scroll + delta < furthest(app),
    ensures
        scrolled(scrolled(app, delta), -delta) == app,
{
    let there = scrolled(app, delta);
    assert(shown_log(there) == shown_log(app));
    assert(furthest(there) == furthest(app));
    assert(scrolled(there, -delta) =~= app);
}

/// A plan shows every step with its hint, not yet begun and with an empty log.
pub proof fn law_plan_shows_every_step(
    app: AppView,
    header: HeaderView,
    steps: Seq<MetaView>,
    now: u64,
    i: int,
)
    requires
        0 <= i < steps.len(),
    ensures
        ({
            let r = applied(app, EventView::Plan { header, steps }, now);
            &&& r.header == Some(header) && r.dry_run == header.dry_run
            &&& r.steps.len() == steps.len() && r.logs.len() == steps.len()
            &&& r.steps[i].meta == steps[i]
            &&& r.steps[i].status == Status::Pending
            &&& r.steps[i].detail == steps[i].1
            &&& r.steps[i].took is None
            &&& r.logs[i].len() == 0
        }),
{
}

/// A step that ends shows what came of it and how long it took, whatever that is;
/// no other step changes, and nothing else on the screen.
pub proof fn law_outcome_is_shown(
    app: AppView,
    idx: usize,
    d: Seq<char>,
    took: u128,
    now: u64,
    other: int,
)
    requires
        idx < app.steps.len(),
        0 <= other < app.steps.len(),
        other != idx,
    ensures
        ({
            let good = applied(
                app,
                EventView::Finished { idx, outcome: OutcomeView::Succeeded(d), took },
                now,
            );
            let none = applied(
                app,
                EventView::Finished { idx, outcome: OutcomeView::Skipped(d), took },
                now,
            );
            let bad = applied(
                app,
                EventView::Finished { idx, outcome: OutcomeView::Failed(d), took },
                now,
            );
            let row = RowView {
                detail: d,
                took: Some(took),
                ..app.steps[idx as int]
            };
            &&& good.steps[idx as int] == RowView { status: Status::Succeeded, ..row }
            &&& none.steps[idx as int] == RowView { status: Status::Skipped, ..row }
            &&& bad.steps[idx as int] == RowView { status: Status::Failed, ..row }
            &&& good.steps[other] == app.steps[other]
            &&& none.steps[other] == app.steps[other]
            &&& bad.steps[other] == app.steps[other]
            &&& AppView { steps: app.steps, ..good } == app
            &&& AppView { steps: app.steps, ..none } == app
            &&& AppView { steps: app.steps, ..bad } == app
        }),
{
}

/// A step that starts is shown as running since then, and its log is shown unless
/// the user has picked a step. A retry leaves a mark in its log, and a first run
/// none.
pub proof fn law_started_step_is_shown(app: AppView, idx: usize, now: u64, other: int)
    requires
        idx < app.steps.len(),
        0 <= other < app.steps.len(),
        other != idx,
        logs_match(app),
    ensures
        ({
            let r = applied(app, EventView::Started { idx }, now);
            &&& r.steps[idx as int].status == Status::Running(now)
            &&& r.steps[idx as int].meta == app.steps[idx as int].meta
            &&& r.steps[idx as int].took is None
            &&& r.steps[other] == app.steps[other]
            &&& r.done is None && r.close_at is None
            &&& app.follow_running ==> r.selected == idx && r.follow_tail
            &&& !app.follow_running ==> r.selected == app.selected && r.scroll == app.scroll
                && r.follow_tail == app.follow_tail
            &&& !app.retrying ==> r.logs == app.logs
            &&& app.retrying ==> r.logs[idx as int] == app.logs[idx as int].push("── retry ──"@)
            &&& r.logs[other] == app.logs[other]
            &&& r.fatal == app.fatal && r.quit == app.quit && r.header == app.header
        }),
{
}

/// A run that is over is over: how it went is kept, no retry is on, and its steps
/// and logs stay as they are. A fatal error is kept and is no success.
pub proof fn law_run_is_over(app: AppView, ok: bool, msg: Seq<char>, now: u64)
    ensures
        ({
            let r = applied(app, EventView::Done { ok }, now);
            let f = applied(app, EventView::Fatal(msg), now);
            &&& r.done == Some(ok) && !r.retrying
            &&& r.steps == app.steps && r.logs == app.logs && r.fatal == app.fatal
            &&& ok ==> r.selected == app.selected
            &&& ok && app.auto_close_secs > 0 ==> r.close_at == Some(
                (now + app.auto_close_secs * 1_000_000_000) as u128,
            )
            &&& !ok || app.auto_close_secs == 0 ==> r.close_at == app.close_at
            &&& f.fatal == Some(msg) && f.done == Some(false)
            &&& f.steps == app.steps && f.logs == app.logs
        }),
{
}

/// A log that is full loses its oldest line for a new one, and no other.
pub proof fn law_full_log_loses_its_oldest_line(
    app: AppView,
    idx: usize,
    text: Seq<char>,
    now: u64,
)
    requires
        idx < app.logs.len(),
        app.logs[idx as int].len() == 5000,
    ensures
        applied(app, EventView::Line { idx, text }, now).logs[idx as int]
            == app.logs[idx as int].skip(1).push(text),
{
    let log = app.logs[idx as int];
    assert(log.push(text).skip(1) =~= log.skip(1).push(text));
}

/// The exit code says how it went: two for a fatal error, zero for a run that went
/// well, one for anything else.
pub proof fn law_exit_code_says_how_it_went(app: AppView)
    ensures
        exit_of(app) == 2 <==> app.fatal is Some,
        exit_of(app) == 0 <==> app.fatal is None && app.done == Some(true),
        exit_of(app) == 1 <==> app.fatal is None && app.done != Some(true),
{
}

/// The selection moves step by step and stays at the ends; the log of the step
/// that it comes to is shown from its end.
pub proof fn law_selection_moves(app: AppView, delta: int)
    requires
        app.selected < app.steps.len() <= usize::MAX,
    ensures
        ({
            let r = moved(app, delta);
            let to = app.selected + delta;
            &&& 0 <= to < app.steps.len() ==> r.selected == to
            &&& to < 0 ==> r.selected == 0
            &&& to >= app.steps.len() ==> r.selected == app.steps.len() - 1
            &&& !r.follow_running && r.follow_tail && r.scroll == 0
            &&& 0 <= delta < app.steps.len() ==> chosen(app, delta).selected == delta
                && !chosen(app, delta).follow_running
            &&& delta < 0 || delta >= app.steps.len() ==> chosen(app, delta) == app
        }),
{
}

/// The log scrolls by as many lines as it is asked to and stays at its ends; at its
/// end, and only there, it is followed.
pub proof fn law_log_scrolls(app: AppView, delta: int)
    requires
        furthest(app) <= usize::MAX,
        app.scroll <= furthest(app),
    ensures
        ({
            let r = scrolled(app, delta);
            let to = first_line(app) + delta;
            &&& 0 <= to <= furthest(app) ==> first_line(r) == to
            &&& to < 0 ==> first_line(r) == 0
            &&& to > furthest(app) ==> first_line(r) == furthest(app)
            &&& r.follow_tail <==> first_line(r) == furthest(app)
            &&& r.steps == app.steps && r.logs == app.logs && r.selected == app.selected
        }),
{
}

/// Every second until the pane closes is counted, the one that has begun too.
pub proof fn law_seconds_are_counted(at: u128, now: u64)
    ensures
        at <= now ==> seconds_until(at, now) == 0,
        at > now ==> (seconds_until(at, now) - 1) * 1_000_000_000 < at - now
            <= seconds_until(at, now) * 1_000_000_000,
{
}

/// A screen starts without steps, follows the run, and closes by itself only when
/// told so by the configuration.
pub proof fn law_screen_starts_empty(cfg: ConfigView)
    ensures
        ({
            let s = blank(cfg);
            &&& s.steps.len() == 0 && s.logs.len() == 0 && s.header is None
            &&& s.follow_running && s.follow_tail && s.selected == 0
            &&& s.close_at is None && s.done is None && s.fatal is None && !s.quit && !s.retrying
            &&& s.auto_close_secs == cfg.auto_close_secs
        }),
{
}

} // verus!
