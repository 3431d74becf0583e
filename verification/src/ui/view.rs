//! What the screen shows: its words, their colours and where they go.

use vstd::prelude::*;
use vstd::string::*;
use crate::digits::{decimal, decimal_text};
use crate::text::{glue, glue3, texts};
use super::state::{
    any_failed, any_running, clamped, first_line, law_view_is_inside, seconds_until, shown_log, App,
    AppView, RowView, Status, StepRow,
};

verus! {

#[derive(Debug, Clone, Copy, PartialEq, Eq, Structural)]
pub enum Color {
    /// Whatever the terminal writes in.
    Plain,
    DarkGray,
    Cyan,
    Green,
    Magenta,
    Red,
    Yellow,
}

/// A piece of text in one style.
#[derive(Debug)]
pub struct Span {
    pub text: String,
    pub color: Color,
    pub bold: bool,
}

/// What a piece of text says.
#[verifier::ext_equal]
pub struct SpanView {
    pub text: Seq<char>,
    pub color: Color,
    pub bold: bool,
}

impl View for Span {
    type V = SpanView;

    open spec fn view(&self) -> SpanView {
        SpanView { text: self.text@, color: self.color, bold: self.bold }
    }
}

/// What some pieces of text say.
pub open spec fn spans_view(v: Seq<Span>) -> Seq<SpanView> {
    Seq::new(v.len(), |i: int| v[i]@)
}

/// A piece of text.
pub open spec fn piece(text: Seq<char>, color: Color, bold: bool) -> SpanView {
    SpanView { text, color, bold }
}

fn span(text: &str, color: Color, bold: bool) -> (r: Span)
    ensures
        r@ == piece(text@, color, bold),
{
    Span { text: text.to_owned(), color, bold }
}

fn put(out: &mut Vec<Span>, text: &str, color: Color, bold: bool)
    ensures
        spans_view(final(out)@) == spans_view(old(out)@).push(piece(text@, color, bold)),
{
    let ghost before = out@;
    out.push(span(text, color, bold));
    assert(spans_view(out@) =~= spans_view(before).push(piece(text@, color, bold)));
}

// --- the header --------------------------------------------------------------

/// What stands in the first line.
pub open spec fn header_line(app: AppView) -> Seq<SpanView> {
    let title = piece(" Worktree Setup "@, Color::Cyan, true);
    match app.header {
        Some(h) => seq![
            title,
            piece("─ "@, Color::Plain, false),
            piece(h.repo_name, Color::Plain, true),
        ] + match h.branch {
            Some(b) => seq![
                piece(" · "@, Color::Plain, false),
                piece(b, Color::Magenta, false),
            ],
            None => Seq::empty(),
        } + seq![
            piece(" ─ "@, Color::Plain, false),
            piece(h.target, Color::DarkGray, false),
        ] + if h.dry_run {
            seq![piece("  DRY RUN"@, Color::Yellow, true)]
        } else {
            Seq::empty()
        },
        None => seq![
            title,
            piece("─ "@ + app.preparing + "…"@, Color::DarkGray, false),
        ],
    }
}

/// What stands in the first line.
pub fn render_header(app: &App) -> (r: Vec<Span>)
    ensures
        spans_view(r@) == header_line(app@),
{
    let mut out: Vec<Span> = Vec::new();
    put(&mut out, " Worktree Setup ", Color::Cyan, true);
    match &app.header {
        Some(h) => {
            put(&mut out, "─ ", Color::Plain, false);
            put(&mut out, h.repo_name.as_str(), Color::Plain, true);
            match &h.branch {
                Some(b) => {
                    put(&mut out, " · ", Color::Plain, false);
                    put(&mut out, b.as_str(), Color::Magenta, false);
                },
                None => {},
            }
            put(&mut out, " ─ ", Color::Plain, false);
            put(&mut out, h.target.as_str(), Color::DarkGray, false);
            if h.dry_run {
                put(&mut out, "  DRY RUN", Color::Yellow, true);
            }
        },
        None => {
            let text = glue3("─ ", app.preparing.as_str(), "…");
            put(&mut out, text.as_str(), Color::DarkGray, false);
        },
    }
    assert(spans_view(out@) =~= header_line(app@));
    out
}

// --- the steps ---------------------------------------------------------------

/// The rows of the screen that the steps get, of `height` rows: all that they
/// need, but at least four for the log and its frame are kept free, and three for
/// the steps where there are as many.
pub open spec fn steps_rows(steps: nat, height: u16) -> int {
    let available = clamped(height - 2, 0, 65535);
    let room = clamped(available - 4, 0, 65535);
    let wanted = clamped(steps as int + 2, 0, room);
    let least = clamped(3, 0, available);
    if wanted < least {
        least
    } else {
        wanted
    }
}

/// The rows of the screen that the steps get.
pub fn steps_height(steps: usize, height: u16) -> (r: u16)
    ensures
        r == steps_rows(steps as nat, height),
{
    let available: u16 = if height > 2 {
        height - 2
    } else {
        0
    };
    let room: u16 = if available > 4 {
        available - 4
    } else {
        0
    };
    let wanted: u16 = if steps as u128 + 2 > room as u128 {
        room
    } else {
        (steps + 2) as u16
    };
    let least: u16 = if available < 3 {
        available
    } else {
        3
    };
    if wanted < least {
        least
    } else {
        wanted
    }
}

/// The sign of a step.
pub open spec fn status_piece(status: Status) -> SpanView {
    match status {
        Status::Pending => piece("·"@, Color::DarkGray, false),
        Status::Running(_) => piece("▶"@, Color::Yellow, true),
        Status::Succeeded => piece("✓"@, Color::Green, true),
        Status::Skipped => piece("–"@, Color::DarkGray, false),
        Status::Failed => piece("✗"@, Color::Red, true),
    }
}

/// The colour of what is said of a step.
pub open spec fn detail_color(status: Status) -> Color {
    match status {
        Status::Pending => Color::DarkGray,
        Status::Skipped => Color::DarkGray,
        Status::Running(_) => Color::Yellow,
        Status::Succeeded => Color::Plain,
        Status::Failed => Color::Red,
    }
}

/// The sign of a step.
pub fn status_cell(status: &Status) -> (r: Span)
    ensures
        r@ == status_piece(*status),
{
    match status {
        Status::Pending => span("·", Color::DarkGray, false),
        Status::Running(_) => span("▶", Color::Yellow, true),
        Status::Succeeded => span("✓", Color::Green, true),
        Status::Skipped => span("–", Color::DarkGray, false),
        Status::Failed => span("✗", Color::Red, true),
    }
}

/// The colour of what is said of a step.
pub fn detail_style(status: &Status) -> (r: Color)
    ensures
        r == detail_color(*status),
{
    match status {
        Status::Pending => Color::DarkGray,
        Status::Skipped => Color::DarkGray,
        Status::Running(_) => Color::Yellow,
        Status::Succeeded => Color::Plain,
        Status::Failed => Color::Red,
    }
}

/// The number of a row: the key that selects it, where there is one.
pub open spec fn row_number(i: nat) -> Seq<char> {
    if i < 9 {
        decimal(i + 1) + " "@
    } else {
        "  "@
    }
}

/// The cells of a row but for the last, which says how long the step took.
pub open spec fn row_cells(i: nat, row: RowView) -> Seq<SpanView> {
    seq![
        status_piece(row.status),
        piece(row_number(i), Color::DarkGray, false),
        piece(
            row.meta.0,
            if row.status == Status::Failed {
                Color::Red
            } else {
                Color::Plain
            },
            false,
        ),
        piece(row.detail, detail_color(row.status), false),
    ]
}

/// How long a step took, or has been running.
pub open spec fn time_of(row: RowView, now: u64) -> Option<u128> {
    match row.status {
        Status::Running(since) => Some(
            if now > since {
                (now - since) as u128
            } else {
                0
            },
        ),
        _ => row.took,
    }
}

/// The cells of a row but for the last.
pub fn step_cells(i: usize, row: &StepRow) -> (r: Vec<Span>)
    ensures
        spans_view(r@) == row_cells(i as nat, row@),
{
    let number = if i < 9 {
        glue(decimal_text(i as u128 + 1).as_str(), " ")
    } else {
        "  ".to_owned()
    };
    let mut out: Vec<Span> = Vec::new();
    out.push(status_cell(&row.status));
    assert(spans_view(out@) =~= seq![status_piece(row.status)]);
    put(&mut out, number.as_str(), Color::DarkGray, false);
    if row.status == Status::Failed {
        put(&mut out, row.meta.name.as_str(), Color::Red, false);
    } else {
        put(&mut out, row.meta.name.as_str(), Color::Plain, false);
    }
    put(&mut out, row.detail.as_str(), detail_style(&row.status), false);
    assert(spans_view(out@) =~= row_cells(i as nat, row@));
    out
}

/// How long a step took, or has been running.
pub fn step_time(row: &StepRow, now: u64) -> (r: Option<u128>)
    ensures
        r == time_of(row@, now),
{
    match row.status {
        Status::Running(since) => if now > since {
            Some((now - since) as u128)
        } else {
            Some(0)
        },
        _ => row.took,
    }
}

/// Whether a step came to its end.
pub open spec fn ended(status: Status) -> bool {
    status is Succeeded || status is Skipped || status is Failed
}

/// How many of the steps came to their end.
pub open spec fn ended_count(rows: Seq<RowView>) -> nat
    decreases rows.len(),
{
    if rows.len() == 0 {
        0
    } else {
        ended_count(rows.drop_last()) + if ended(rows.last().status) {
            1nat
        } else {
            0
        }
    }
}

/// The title of the steps.
pub open spec fn steps_label(rows: Seq<RowView>) -> Seq<char> {
    if rows.len() == 0 {
        " steps "@
    } else {
        " steps "@ + decimal(ended_count(rows)) + "/"@ + decimal(rows.len()) + " "@
    }
}

/// The title of the steps.
pub fn steps_title(app: &App) -> (r: String)
    ensures
        r@ == steps_label(app@.steps),
{
    if app.steps.len() == 0 {
        return " steps ".to_owned();
    }
    let ghost all = app@.steps;
    let mut done: usize = 0;
    let mut i: usize = 0;
    assert(all.take(0) =~= Seq::empty());
    while i < app.steps.len()
        invariant
            i <= app.steps.len(),
            all == app@.steps,
            done <= i,
            done == ended_count(all.take(i as int)),
        decreases app.steps.len() - i,
    {
        assert(all.take(i + 1).drop_last() =~= all.take(i as int));
        assert(all.take(i + 1).last() == app.steps@[i as int]@);
        let over = match app.steps[i].status {
            Status::Succeeded => true,
            Status::Skipped => true,
            Status::Failed => true,
            _ => false,
        };
        if over {
            done += 1;
        }
        i += 1;
    }
    assert(all.take(i as int) =~= all);
    let mut out = glue3(" steps ", decimal_text(done as u128).as_str(), "/");
    out.append(decimal_text(app.steps.len() as u128).as_str());
    out.append(" ");
    out
}

// --- the log -----------------------------------------------------------------

/// The log of the selected step, as it is shown.
#[derive(Debug)]
pub struct LogPane {
    pub title: String,
    /// The lines from this one on are shown.
    pub from: usize,
    /// The first line that is not shown any more.
    pub to: usize,
    /// Where in the log this is; empty where the whole log is shown.
    pub hint: String,
    /// Whether the warnings about the configuration take the place of the log.
    pub warnings: bool,
}

/// The title of the log.
pub open spec fn log_label(app: AppView) -> Seq<char> {
    if app.selected < app.steps.len() {
        " output: "@ + app.steps[app.selected as int].meta.0 + " "@
    } else {
        " output "@
    }
}

/// The lines inside of a frame of some height.
pub open spec fn inside(height: u16) -> int {
    clamped(height - 2, 0, 65535)
}

/// The screen with the height of its log known.
pub open spec fn with_viewport(app: AppView, height: u16) -> AppView {
    AppView { log_viewport: clamped(inside(height), 1, 65535) as usize, ..app }
}

/// The first line that is not shown any more.
pub open spec fn log_end(app: AppView, height: u16) -> int {
    clamped(
        first_line(with_viewport(app, height)) + inside(height),
        0,
        shown_log(app).len() as int,
    )
}

/// Where in the log the shown part is.
pub open spec fn scroll_hint(app: AppView, height: u16) -> Seq<char> {
    if shown_log(app).len() > inside(height) {
        " "@ + decimal((first_line(with_viewport(app, height)) + 1) as nat) + "-"@ + decimal(
            log_end(app, height) as nat,
        ) + "/"@ + decimal(shown_log(app).len()) + " "@
    } else {
        ""@
    }
}

/// Whether the warnings about the configuration take the place of the log.
pub open spec fn warnings_shown(app: AppView) -> bool {
    app.header is Some && app.header->0.warnings.len() > 0 && app.selected == 0 && shown_log(
        app,
    ).len() == 0
}

/// Lays the log of the selected step out in a frame of some height, which the
/// screen keeps for paging.
pub fn render_log(app: &mut App, height: u16) -> (r: LogPane)
    ensures
        final(app)@ == with_viewport(old(app)@, height),
        r.title@ == log_label(old(app)@),
        r.from == first_line(with_viewport(old(app)@, height)),
        r.to == log_end(old(app)@, height),
        r.hint@ == scroll_hint(old(app)@, height),
        r.warnings == warnings_shown(old(app)@),
        r.from <= r.to <= shown_log(old(app)@).len(),
        r.to - r.from <= inside(height),
{
    let ghost before = app@;
    let inner: usize = if height > 2 {
        (height - 2) as usize
    } else {
        0
    };
    app.log_viewport = if inner > 1 {
        inner
    } else {
        1
    };
    assert(app@ =~= with_viewport(before, height));
    assert(shown_log(app@) == shown_log(before));
    let title = if app.selected < app.steps.len() {
        glue3(" output: ", app.steps[app.selected].meta.name.as_str(), " ")
    } else {
        " output ".to_owned()
    };
    let len: usize = app.selected_log().len();
    assert(len == shown_log(before).len()) by {
        assert(texts(app.logs@[app.selected as int]@).len() == app.logs@[app.selected as int]@.len());
    }
    let from: usize = app.log_offset();
    let to: usize = if len - from > inner {
        from + inner
    } else {
        len
    };
    let hint = if len > inner {
        let mut out = glue3(" ", decimal_text(from as u128 + 1).as_str(), "-");
        out.append(decimal_text(to as u128).as_str());
        out.append("/");
        out.append(decimal_text(len as u128).as_str());
        out.append(" ");
        out
    } else {
        "".to_owned()
    };
    let warned = match &app.header {
        Some(h) => {
            assert(texts(h.warnings@).len() == h.warnings@.len());
            h.warnings.len() > 0
        },
        None => false,
    };
    let warnings = warned && app.selected == 0 && len == 0;
    LogPane { title, from, to, hint, warnings }
}

// --- the footer --------------------------------------------------------------

/// A key and what it does.
pub open spec fn key_help(key: Seq<char>, what: Seq<char>) -> Seq<SpanView> {
    seq![piece(key, Color::Cyan, true), piece(what, Color::DarkGray, false)]
}

/// What stands at the left of the last line.
pub open spec fn footer_line(app: AppView) -> Seq<SpanView> {
    seq![piece(" "@, Color::Plain, false)] + key_help("j/k"@, " step  "@) + key_help(
        "J/K"@,
        " scroll  "@,
    ) + key_help("g/G"@, " top/end  "@) + if any_failed(app.steps) && !any_running(app.steps) {
        key_help("r"@, " retry failed  "@)
    } else {
        Seq::empty()
    } + key_help("q"@, " close"@)
}

/// What stands at the right of the last line.
pub open spec fn footer_status(app: AppView, now: u64) -> SpanView {
    if app.close_at is Some {
        piece(
            "closing in "@ + decimal(
                clamped(seconds_until(app.close_at->0, now), 0, u64::MAX as int) as nat,
            ) + "s (any key cancels) "@,
            Color::Green,
            false,
        )
    } else if app.retrying {
        piece("retrying… "@, Color::Yellow, false)
    } else {
        match app.done {
            Some(true) => if app.dry_run {
                piece("dry run complete "@, Color::Yellow, false)
            } else {
                piece("ready ✓ "@, Color::Green, true)
            },
            Some(false) => piece("some steps failed "@, Color::Red, true),
            None => if app.header is None {
                piece("preparing… "@, Color::DarkGray, false)
            } else {
                piece("working… "@, Color::Yellow, false)
            },
        }
    }
}

fn put_key(out: &mut Vec<Span>, key: &str, what: &str)
    ensures
        spans_view(final(out)@) == spans_view(old(out)@) + key_help(key@, what@),
{
    let ghost before = spans_view(out@);
    put(out, key, Color::Cyan, true);
    put(out, what, Color::DarkGray, false);
    assert(spans_view(out@) =~= before + key_help(key@, what@));
}

/// What stands in the last line: the keys, and how the run stands.
pub fn render_footer(app: &App, now: u64) -> (r: (Vec<Span>, Span))
    ensures
        spans_view(r.0@) == footer_line(app@),
        r.1@ == footer_status(app@, now),
{
    let mut out: Vec<Span> = Vec::new();
    put(&mut out, " ", Color::Plain, false);
    assert(spans_view(out@) =~= seq![piece(" "@, Color::Plain, false)]);
    put_key(&mut out, "j/k", " step  ");
    put_key(&mut out, "J/K", " scroll  ");
    put_key(&mut out, "g/G", " top/end  ");
    if app.has_failures() && !app.is_running() {
        put_key(&mut out, "r", " retry failed  ");
    } else {
        assert(spans_view(out@) + Seq::empty() =~= spans_view(out@));
    }
    put_key(&mut out, "q", " close");
    let status = match app.remaining_close_secs(now) {
        Some(secs) => {
            let text = glue3(
                "closing in ",
                decimal_text(secs as u128).as_str(),
                "s (any key cancels) ",
            );
            Span { text, color: Color::Green, bold: false }
        },
        None => if app.retrying {
            span("retrying… ", Color::Yellow, false)
        } else {
            match app.done {
                Some(ok) => if !ok {
                    span("some steps failed ", Color::Red, true)
                } else if app.dry_run {
                    span("dry run complete ", Color::Yellow, false)
                } else {
                    span("ready ✓ ", Color::Green, true)
                },
                None => if app.header.is_none() {
                    span("preparing… ", Color::DarkGray, false)
                } else {
                    span("working… ", Color::Yellow, false)
                },
            }
        },
    };
    (out, status)
}

// --- errors ------------------------------------------------------------------

/// The title of the screen that shows an error.
pub const FATAL_TITLE: &'static str = " Worktree Setup: error ";

/// What the screen that shows an error says, line by line.
pub open spec fn fatal_lines(message: Seq<char>) -> Seq<SpanView> {
    seq![
        piece(""@, Color::Plain, false),
        piece(message, Color::Red, false),
        piece(""@, Color::Plain, false),
        piece("Press any key to close."@, Color::DarkGray, false),
    ]
}

/// What the screen that shows an error says, line by line.
pub fn render_fatal(message: &str) -> (r: Vec<Span>)
    ensures
        spans_view(r@) == fatal_lines(message@),
{
    let mut out: Vec<Span> = Vec::new();
    put(&mut out, "", Color::Plain, false);
    put(&mut out, message, Color::Red, false);
    put(&mut out, "", Color::Plain, false);
    put(&mut out, "Press any key to close.", Color::DarkGray, false);
    assert(spans_view(out@) =~= fatal_lines(message@));
    out
}

// --- what holds of every screen ----------------------------------------------

/// The steps, the log, the header and the footer fit on the screen, with rows
/// left for the log, on every screen that has room for all of them.
pub proof fn law_log_has_room(steps: nat, height: u16)
    requires
        height >= 9,
    ensures
        3 <= steps_rows(steps, height),
        steps_rows(steps, height) + 1 + 1 + 4 <= height,
{
}

/// The last rows of a log that is followed are always on the screen.
pub proof fn law_followed_log_shows_its_end(app: AppView, height: u16)
    requires
        app.follow_tail,
        height > 2,
    ensures
        log_end(app, height) == shown_log(app).len(),
{
    let v = with_viewport(app, height);
    assert(shown_log(v) == shown_log(app));
}

/// What the footer says of keys is what they do: the key that runs failed steps
/// again is offered only where it has an effect.
pub proof fn law_retry_is_offered_where_it_works(app: AppView)
    requires
        app.fatal is None,
    ensures
        footer_line(app).contains(piece("r"@, Color::Cyan, true)) <==> super::keys::can_retry(app),
{
    let help = piece("r"@, Color::Cyan, true);
    let line = footer_line(app);
    if super::keys::can_retry(app) {
        assert(line[7] == help);
    } else {
        reveal_strlit("r");
        reveal_strlit("j/k");
        reveal_strlit("J/K");
        reveal_strlit("g/G");
        reveal_strlit("q");
        assert("r"@[0] == 'r');
        assert("q"@[0] == 'q');
        assert forall|i: int| 0 <= i < line.len() implies line[i] != help by {
            assert("j/k"@.len() == 3);
            assert("J/K"@.len() == 3);
            assert("g/G"@.len() == 3);
        }
    }
}

/// The header names the repository, the branch where it is known, and the worktree,
/// and marks a dry run; before the plan it says what is being prepared.
pub proof fn law_header_names_the_job(app: AppView)
    ensures
        ({
            let line = header_line(app);
            &&& app.header matches Some(h) ==> {
                &&& texts_of(line).contains(h.repo_name)
                &&& texts_of(line).contains(h.target)
                &&& h.branch matches Some(b) ==> texts_of(line).contains(b)
                &&& h.dry_run ==> line.last().text == "  DRY RUN"@
                &&& line.len() == 5 + (if h.branch is Some {
                    2int
                } else {
                    0
                }) + (if h.dry_run {
                    1int
                } else {
                    0
                })
            }
            &&& app.header is None ==> line.len() == 2 && line[1].text == "─ "@ + app.preparing
                + "…"@
        }),
{
    let line = header_line(app);
    let t = texts_of(line);
    if app.header is Some {
        let h = app.header->0;
        assert(t[2] == h.repo_name);
        if h.branch is Some {
            assert(t[4] == h.branch->0);
            assert(t[6] == h.target);
        } else {
            assert(t[4] == h.target);
        }
    }
}

/// The texts of some pieces.
pub open spec fn texts_of(line: Seq<SpanView>) -> Seq<Seq<char>> {
    Seq::new(line.len(), |i: int| line[i].text)
}

/// A row shows the state of its step by its own sign and color, the number by which
/// it can be selected, its name and what is to be said of it.
pub proof fn law_row_shows_its_step(i: nat, row: RowView)
    ensures
        ({
            let cells = row_cells(i, row);
            &&& cells.len() == 4
            &&& row.status is Pending ==> cells[0].text == "·"@
            &&& row.status is Running ==> cells[0].text == "▶"@ && cells[0].color == Color::Yellow
            &&& row.status is Succeeded ==> cells[0].text == "✓"@ && cells[0].color == Color::Green
            &&& row.status is Skipped ==> cells[0].text == "–"@
            &&& row.status is Failed ==> cells[0].text == "✗"@ && cells[0].color == Color::Red
                && cells[3].color == Color::Red
            &&& i < 9 ==> cells[1].text == decimal(i + 1) + " "@
            &&& cells[2].text == row.meta.0
            &&& cells[3].text == row.detail
        }),
{
}

/// A step that runs shows how long it has been running, and one that has ended how
/// long it took.
pub proof fn law_row_shows_its_time(row: RowView, since: u64, now: u64)
    ensures
        row.status == Status::Running(since) && now >= since ==> time_of(row, now) == Some(
            (now - since) as u128,
        ),
        !(row.status is Running) ==> time_of(row, now) == row.took,
{
}

/// The log is headed by the name of its step, and where it does not fit, by which
/// of its lines are shown, out of how many.
pub proof fn law_log_is_headed(app: AppView, height: u16)
    ensures
        app.selected < app.steps.len() ==> log_label(app) == " output: "@
            + app.steps[app.selected as int].meta.0 + " "@,
        height >= 3 && shown_log(app).len() > height - 2 ==> scroll_hint(app, height) == " "@
            + decimal((first_line(with_viewport(app, height)) + 1) as nat) + "-"@ + decimal(
            (first_line(with_viewport(app, height)) + height - 2) as nat,
        ) + "/"@ + decimal(shown_log(app).len()) + " "@,
        height >= 3 && shown_log(app).len() <= height - 2 ==> scroll_hint(app, height).len() == 0,
{
    reveal_strlit("");
    law_view_is_inside(with_viewport(app, height));
}

/// Warnings are shown as long as the first step is selected and has no output.
pub proof fn law_warnings_are_shown(app: AppView)
    ensures
        warnings_shown(app) <==> (app.header matches Some(h) && h.warnings.len() > 0)
            && app.selected == 0 && shown_log(app).len() == 0,
{
}

proof fn lemma_ended_grows(rows: Seq<RowView>, row: RowView)
    ensures
        ended_count(rows.push(row)) == ended_count(rows) + if row.status is Succeeded
            || row.status is Skipped || row.status is Failed {
            1nat
        } else {
            0nat
        },
{
    assert(rows.push(row).drop_last() =~= rows);
}

/// Each step that has ended, however it did, is counted once, and no other.
pub proof fn law_ended_steps_are_counted(rows: Seq<RowView>, row: RowView)
    ensures
        ended_count(Seq::empty()) == 0,
        row.status is Succeeded || row.status is Skipped || row.status is Failed ==> ended_count(
            rows.push(row),
        ) == ended_count(rows) + 1,
        row.status is Pending || row.status is Running ==> ended_count(rows.push(row))
            == ended_count(rows),
        rows.len() > 0 ==> steps_label(rows) == " steps "@ + decimal(ended_count(rows)) + "/"@
            + decimal(rows.len()) + " "@,
{
    lemma_ended_grows(rows, row);
}

/// A fatal error is shown in its own words.
pub proof fn law_fatal_error_is_shown(message: Seq<char>)
    ensures
        texts_of(fatal_lines(message)).contains(message),
{
    assert(texts_of(fatal_lines(message))[1] == message);
}

/// The footer says how it stands: how long until the pane closes, that a retry is
/// on, how the run went, or that it goes on.
pub proof fn law_footer_says_how_it_stands(app: AppView, now: u64)
    ensures
        ({
            let text = footer_status(app, now).text;
            &&& app.close_at matches Some(at) ==> at <= u64::MAX ==> text == "closing in "@
                + decimal(seconds_until(at, now) as nat) + "s (any key cancels) "@
            &&& app.close_at is None && app.retrying ==> text == "retrying… "@
            &&& app.close_at is None && !app.retrying && app.done == Some(false) ==> text
                == "some steps failed "@
            &&& app.close_at is None && !app.retrying && app.done == Some(true) && !app.dry_run
                ==> text == "ready ✓ "@
            &&& app.close_at is None && !app.retrying && app.done == Some(true) && app.dry_run
                ==> text == "dry run complete "@
            &&& app.close_at is None && !app.retrying && app.done is None && app.header is Some
                ==> text == "working… "@
            &&& app.close_at is None && !app.retrying && app.done is None && app.header is None
                ==> text == "preparing… "@
        }),
{
}

/// The steps get all the rows that they need, with their frame, on a screen that
/// then still has four for the log, and else as many as leave the log four.
pub proof fn law_steps_get_the_rows_they_need(steps: nat, height: u16)
    requires
        height >= 9,
        steps > 0,
    ensures
        steps + 2 + 2 + 4 <= height ==> steps_rows(steps, height) == steps + 2,
        steps + 2 + 2 + 4 > height ==> steps_rows(steps, height) == height - 6,
{
}

/// The footer names the keys that go from step to step, scroll, and quit.
pub proof fn law_footer_names_the_keys(app: AppView)
    ensures
        texts_of(footer_line(app)).contains("j/k"@),
        texts_of(footer_line(app)).contains("J/K"@),
        texts_of(footer_line(app)).contains("g/G"@),
        texts_of(footer_line(app)).contains("q"@),
        any_failed(app.steps) && !any_running(app.steps) <==> texts_of(footer_line(app)).len() == 11,
{
    let t = texts_of(footer_line(app));
    assert(t[1] == "j/k"@);
    assert(t[3] == "J/K"@);
    assert(t[5] == "g/G"@);
    if any_failed(app.steps) && !any_running(app.steps) {
        assert(t[9] == "q"@);
    } else {
        assert(t[7] == "q"@);
    }
}

} // verus!
