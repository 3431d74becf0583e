//! Key and mouse handling.

use vstd::prelude::*;
use crate::pipeline::{CommandView, UiCommand};
use super::state::{
    any_failed, any_running, chosen, first_line, furthest, moved, scrolled, App, AppView,
};

verus! {

/// A key that was pressed.
#[derive(Debug, Clone, Copy, PartialEq, Eq, Structural)]
pub enum Key {
    Char(char),
    Enter,
    Esc,
    Up,
    Down,
    PageUp,
    PageDown,
    Home,
    End,
    /// Any other key.
    Other,
}

/// What the mouse did.
#[derive(Debug, Clone, Copy, PartialEq, Eq, Structural)]
pub enum Mouse {
    ScrollDown,
    ScrollUp,
    /// Anything else.
    Other,
}

/// What a key means.
pub enum Meaning {
    Quit,
    Move(int),
    Scroll(int),
    Top,
    Bottom,
    Retry,
    Select(int),
    Nothing,
}

/// What a key means, in a log viewport of some height.
pub open spec fn meaning(key: Key, ctrl: bool, viewport: int) -> Meaning {
    match key {
        Key::Esc => Meaning::Quit,
        Key::Down => Meaning::Move(1),
        Key::Up => Meaning::Move(-1),
        Key::PageDown => Meaning::Scroll(viewport),
        Key::PageUp => Meaning::Scroll(-viewport),
        Key::Home => Meaning::Top,
        Key::End => Meaning::Bottom,
        Key::Enter => Meaning::Bottom,
        Key::Other => Meaning::Nothing,
        Key::Char(c) => if (c == 'c' && ctrl) || c == 'q' {
            Meaning::Quit
        } else if c == 'j' {
            Meaning::Move(1)
        } else if c == 'k' {
            Meaning::Move(-1)
        } else if c == 'J' {
            Meaning::Scroll(1)
        } else if c == 'K' {
            Meaning::Scroll(-1)
        } else if c == 'f' {
            Meaning::Scroll(viewport)
        } else if c == 'b' {
            Meaning::Scroll(-viewport)
        } else if c == 'd' && ctrl {
            Meaning::Scroll(viewport / 2)
        } else if c == 'u' && ctrl {
            Meaning::Scroll(-(viewport / 2))
        } else if c == 'g' {
            Meaning::Top
        } else if c == 'G' || c == 'o' {
            Meaning::Bottom
        } else if c == 'r' {
            Meaning::Retry
        } else if '1' <= c <= '9' {
            Meaning::Select(c as int - '1' as int)
        } else {
            Meaning::Nothing
        },
    }
}

/// Whether failed steps can be run again.
pub open spec fn can_retry(app: AppView) -> bool {
    any_failed(app.steps) && !any_running(app.steps) && app.fatal is None
}

/// The screen without its countdown.
pub open spec fn held(app: AppView) -> AppView {
    AppView { close_at: None, ..app }
}

/// The screen after a key.
pub open spec fn handled(app: AppView, key: Key, ctrl: bool) -> AppView {
    let app = held(app);
    match meaning(key, ctrl, app.log_viewport as int) {
        Meaning::Quit => AppView { quit: true, ..app },
        Meaning::Move(delta) => moved(app, delta),
        Meaning::Scroll(delta) => scrolled(app, delta),
        Meaning::Top => AppView { scroll: 0, follow_tail: furthest(app) == 0, ..app },
        Meaning::Bottom => AppView {
            scroll: furthest(app) as usize,
            follow_tail: true,
            ..app
        },
        Meaning::Retry => if can_retry(app) {
            AppView { retrying: true, done: None, ..app }
        } else {
            app
        },
        Meaning::Select(idx) => chosen(app, idx),
        Meaning::Nothing => app,
    }
}

/// What the worker is asked for after a key: to stop where the pane closes while
/// a step runs, and to run again what failed.
pub open spec fn wanted(app: AppView, key: Key, ctrl: bool) -> Option<CommandView> {
    match meaning(key, ctrl, app.log_viewport as int) {
        Meaning::Quit => if any_running(app.steps) {
            Some(CommandView::Abort)
        } else {
            None
        },
        Meaning::Retry => if can_retry(app) {
            Some(CommandView::Retry(Seq::empty()))
        } else {
            None
        },
        _ => None,
    }
}

/// What a request says, where there is one.
pub open spec fn command_view(c: Option<UiCommand>) -> Option<CommandView> {
    match c {
        Some(c) => Some(c@),
        None => None,
    }
}

fn quit(app: &mut App) -> (r: Option<UiCommand>)
    ensures
        final(app)@ == (AppView { quit: true, ..old(app)@ }),
        command_view(r) == if any_running(old(app)@.steps) {
            Some(CommandView::Abort)
        } else {
            None
        },
{
    let running = app.is_running();
    app.quit = true;
    if running {
        Some(UiCommand::Abort)
    } else {
        None
    }
}

fn retry(app: &mut App) -> (r: Option<UiCommand>)
    ensures
        final(app)@ == if can_retry(old(app)@) {
            AppView { retrying: true, done: None, ..old(app)@ }
        } else {
            old(app)@
        },
        command_view(r) == if can_retry(old(app)@) {
            Some(CommandView::Retry(Seq::empty()))
        } else {
            None
        },
{
    if app.has_failures() && !app.is_running() && app.fatal.is_none() {
        app.retrying = true;
        app.done = None;
        let all: Vec<usize> = Vec::new();
        Some(UiCommand::Retry(all))
    } else {
        None
    }
}

fn handle_char(app: &mut App, c: char, ctrl: bool) -> (r: Option<UiCommand>)
    requires
        old(app)@.close_at is None,
    ensures
        final(app)@ == handled(old(app)@, Key::Char(c), ctrl),
        command_view(r) == wanted(old(app)@, Key::Char(c), ctrl),
{
    let ghost before = app@;
    assert(held(before) =~= before);
    let page: i128 = app.log_viewport as i128;
    if (c == 'c' && ctrl) || c == 'q' {
        return quit(app);
    }
    if c == 'j' {
        app.select_delta(1);
    } else if c == 'k' {
        app.select_delta(-1);
    } else if c == 'J' {
        app.scroll_by(1);
    } else if c == 'K' {
        app.scroll_by(-1);
    } else if c == 'f' {
        app.scroll_lines(page);
    } else if c == 'b' {
        app.scroll_lines(-page);
    } else if c == 'd' && ctrl {
        app.scroll_lines(page / 2);
    } else if c == 'u' && ctrl {
        app.scroll_lines(-(page / 2));
    } else if c == 'g' {
        app.scroll_to_top();
    } else if c == 'G' || c == 'o' {
        app.scroll_to_bottom();
    } else if c == 'r' {
        return retry(app);
    } else if '1' <= c && c <= '9' {
        let idx: u32 = c as u32 - '1' as u32;
        app.select(idx as usize);
    }
    None
}

/// Takes a key in, and says what the worker is asked for. Any key stops the
/// countdown.
pub fn handle(app: &mut App, key: Key, ctrl: bool) -> (r: Option<UiCommand>)
    ensures
        final(app)@ == handled(old(app)@, key, ctrl),
        command_view(r) == wanted(old(app)@, key, ctrl),
{
    app.cancel_countdown();
    let ghost now = app@;
    assert(held(now) =~= now);
    let page: i128 = app.log_viewport as i128;
    match key {
        Key::Esc => {
            return quit(app);
        },
        Key::Char(c) => {
            return handle_char(app, c, ctrl);
        },
        Key::Down => {
            app.select_delta(1);
        },
        Key::Up => {
            app.select_delta(-1);
        },
        Key::PageDown => {
            app.scroll_lines(page);
        },
        Key::PageUp => {
            app.scroll_lines(-page);
        },
        Key::Home => {
            app.scroll_to_top();
        },
        Key::End => {
            app.scroll_to_bottom();
        },
        Key::Enter => {
            app.scroll_to_bottom();
        },
        Key::Other => {},
    }
    None
}

/// Takes a turn of the mouse wheel in.
pub fn handle_mouse(app: &mut App, mouse: Mouse)
    ensures
        final(app)@ == match mouse {
            Mouse::ScrollDown => scrolled(old(app)@, 3),
            Mouse::ScrollUp => scrolled(old(app)@, -3),
            Mouse::Other => old(app)@,
        },
{
    match mouse {
        Mouse::ScrollDown => {
            app.scroll_by(3);
        },
        Mouse::ScrollUp => {
            app.scroll_by(-3);
        },
        Mouse::Other => {},
    }
}

// --- what holds of every key -------------------------------------------------

/// Any key cancels the countdown.
pub proof fn law_any_key_cancels(app: AppView, key: Key, ctrl: bool)
    ensures
        handled(app, key, ctrl).close_at is None,
{
}

/// No key changes what the steps did or printed.
pub proof fn law_keys_change_no_step(app: AppView, key: Key, ctrl: bool)
    ensures
        handled(app, key, ctrl).steps == app.steps,
        handled(app, key, ctrl).logs == app.logs,
        handled(app, key, ctrl).fatal == app.fatal,
{
}

/// The worker is asked to run steps again only where one failed and none runs.
pub proof fn law_retry_needs_a_failure(app: AppView, key: Key, ctrl: bool)
    ensures
        wanted(app, key, ctrl) is Some && wanted(app, key, ctrl)->0 is Retry ==> any_failed(
            app.steps,
        ) && !any_running(app.steps) && handled(app, key, ctrl).retrying,
{
}

/// The worker is asked to stop only where the pane closes.
pub proof fn law_stop_means_close(app: AppView, key: Key, ctrl: bool)
    ensures
        wanted(app, key, ctrl) == Some(CommandView::Abort) ==> handled(app, key, ctrl).quit,
{
}

/// What each key means: `q`, escape and control-c quit; `j` and `k` and the arrows
/// go to the next step and the one before, digits to the step of that number; `J`
/// and `K` scroll by a line, `f` and `b` and the page keys by a page, control-d and
/// control-u by half of one; `g` and home go to the top of the log, and `G`, `o`,
/// end and enter to its end; `r` retries. No other key does anything.
pub proof fn law_keys_have_their_meaning(key: Key, ctrl: bool, page: int)
    requires
        page > 1,
    ensures
        meaning(key, ctrl, page) is Quit <==> key is Esc || key == Key::Char('q') || (key
            == Key::Char('c') && ctrl),
        meaning(key, ctrl, page) == Meaning::Move(1) <==> key is Down || key == Key::Char('j'),
        meaning(key, ctrl, page) == Meaning::Move(-1) <==> key is Up || key == Key::Char('k'),
        meaning(key, ctrl, page) == Meaning::Scroll(page) <==> key is PageDown || key == Key::Char(
            'f',
        ),
        meaning(key, ctrl, page) == Meaning::Scroll(-page) <==> key is PageUp || key == Key::Char(
            'b',
        ),
        key == Key::Char('J') ==> meaning(key, ctrl, page) == Meaning::Scroll(1),
        key == Key::Char('K') ==> meaning(key, ctrl, page) == Meaning::Scroll(-1),
        key == Key::Char('d') && ctrl ==> meaning(key, ctrl, page) == Meaning::Scroll(page / 2),
        key == Key::Char('u') && ctrl ==> meaning(key, ctrl, page) == Meaning::Scroll(-(page / 2)),
        meaning(key, ctrl, page) is Top <==> key is Home || key == Key::Char('g'),
        meaning(key, ctrl, page) is Bottom <==> key is End || key is Enter || key == Key::Char('G')
            || key == Key::Char('o'),
        meaning(key, ctrl, page) is Retry <==> key == Key::Char('r'),
        meaning(key, ctrl, page) is Select <==> (key matches Key::Char(c) && '1' <= c <= '9'),
        meaning(key, ctrl, page) matches Meaning::Select(n) ==> (key matches Key::Char(c) && n
            == c as int - '1' as int),
        key is Other ==> meaning(key, ctrl, page) is Nothing,
        meaning(key, ctrl, page) is Scroll ==> key is PageDown || key is PageUp || key == Key::Char(
            'J',
        ) || key == Key::Char('K') || key == Key::Char('f') || key == Key::Char('b') || (ctrl && (
        key == Key::Char('d') || key == Key::Char('u'))),
        meaning(key, ctrl, page) matches Meaning::Move(n) ==> n == 1 || n == -1,
{
}

/// Quitting closes the pane, and stops the run where one is on. A retry starts
/// where a step failed, none runs and nothing fatal happened, and asks for the
/// failed steps. Going to the top shows the first line, and going to the end the
/// last ones.
pub proof fn law_keys_act(app: AppView)
    requires
        furthest(app) <= usize::MAX,
        app.log_viewport > 1,
    ensures
        ({
            let quit = handled(app, Key::Char('q'), false);
            let retry = handled(app, Key::Char('r'), false);
            let top = handled(app, Key::Char('g'), false);
            let end = handled(app, Key::Char('G'), false);
            let ready = any_failed(app.steps) && !any_running(app.steps) && app.fatal is None;
            &&& quit.quit
            &&& wanted(app, Key::Char('q'), false) == if any_running(app.steps) {
                Some(CommandView::Abort)
            } else {
                None
            }
            &&& ready ==> retry.retrying && retry.done is None && wanted(
                app,
                Key::Char('r'),
                false,
            ) == Some(CommandView::Retry(Seq::empty()))
            &&& !ready ==> retry == held(app) && wanted(app, Key::Char('r'), false) is None
            &&& first_line(top) == 0
            &&& first_line(end) == furthest(app) && end.follow_tail
            &&& quit.steps == app.steps && retry.steps == app.steps && top.steps == app.steps
        }),
{
}

} // verus!
