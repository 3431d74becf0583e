//! The screen of a run: a steps table, the selected step's live output, a footer
//! with keys and the auto-close countdown.

use vstd::prelude::*;
use vstd::string::*;
use crate::digits::{decimal, decimal_text};
use crate::herdr::{notify_call, title_call, Herdr};
use crate::pipeline::{commands_view, EventView, OutcomeView, WorkerEvent};
use crate::text::{glue, glue3, slice_text};
use state::{App, AppView};

pub mod keys;
pub mod plain;
pub mod state;
pub mod view;

verus! {

/// What a worktree is called in a toast: its branch, where that is known.
pub open spec fn called(app: AppView) -> Seq<char> {
    match app.header {
        Some(h) => match h.branch {
            Some(b) => b,
            None => "worktree"@,
        },
        None => "worktree"@,
    }
}

/// How far a run is, after a step.
pub open spec fn progress(idx: usize, total: usize) -> Seq<char> {
    "Setup "@ + decimal((idx + 1) as nat) + "/"@ + decimal(
        if total == 0 {
            1
        } else {
            total as nat
        },
    )
}

/// What herdr is asked for at a report, before the screen `app` takes it in: the
/// title of the pane, and a toast at the end.
pub open spec fn effects(pane: Option<Seq<char>>, app: AppView, ev: EventView, total: usize) -> Seq<
    Seq<Seq<char>>,
> {
    match pane {
        None => Seq::empty(),
        Some(pane) => match ev {
            EventView::Finished { idx, outcome: _, took: _ } => seq![
                title_call(pane, progress(idx, total)),
            ],
            EventView::Done { ok } => if !ok {
                seq![
                    title_call(pane, "Setup ✗"@),
                    notify_call(
                        called(app) + ": setup needs attention"@,
                        Some("A Worktree Setup step failed — see the setup pane"@),
                        "request"@,
                    ),
                ]
            } else if app.dry_run {
                seq![title_call(pane, "Setup ✓"@)]
            } else {
                seq![
                    title_call(pane, "Setup ✓"@),
                    notify_call(
                        called(app) + " is ready"@,
                        Some("Worktree Setup finished"@),
                        "done"@,
                    ),
                ]
            },
            EventView::Fatal(msg) => seq![
                title_call(pane, "Setup ✗"@),
                notify_call("Worktree Setup failed"@, Some(msg), "request"@),
            ],
            _ => Seq::empty(),
        },
    }
}

fn branch_or_worktree(app: &App) -> (r: String)
    ensures
        r@ == called(app@),
{
    match &app.header {
        Some(h) => match &h.branch {
            Some(b) => b.clone(),
            None => "worktree".to_owned(),
        },
        None => "worktree".to_owned(),
    }
}

fn progress_text(idx: usize, total: usize) -> (r: String)
    ensures
        r@ == progress(idx, total),
{
    let of: u128 = if total == 0 {
        1
    } else {
        total as u128
    };
    let mut out = glue3("Setup ", decimal_text(idx as u128 + 1).as_str(), "/");
    out.append(decimal_text(of).as_str());
    out
}

fn ask(calls: &mut Vec<Vec<String>>, call: Vec<String>)
    ensures
        commands_view(final(calls)@) == commands_view(old(calls)@).push(
            crate::text::texts(call@),
        ),
{
    let ghost before = calls@;
    calls.push(call);
    assert(commands_view(calls@) =~= commands_view(before).push(crate::text::texts(call@)));
}

/// Sidebar title and toast, on step boundaries.
pub fn side_effects(
    herdr: &Herdr,
    pane_id: Option<&str>,
    app: &App,
    ev: &WorkerEvent,
    total: usize,
) -> (r: Vec<Vec<String>>)
    ensures
        commands_view(r@) == effects(slice_text(pane_id), app@, ev@, total),
{
    let mut out: Vec<Vec<String>> = Vec::new();
    assert(commands_view(out@) =~= Seq::empty());
    let pane = match pane_id {
        Some(p) => p,
        None => {
            return out;
        },
    };
    match ev {
        WorkerEvent::Finished { idx, outcome: _, took: _ } => {
            let title = progress_text(*idx, total);
            ask(&mut out, herdr.set_title(pane, title.as_str()));
        },
        WorkerEvent::Done { ok } => {
            let branch = branch_or_worktree(app);
            if *ok {
                ask(&mut out, herdr.set_title(pane, "Setup ✓"));
                if !app.dry_run {
                    let text = glue(branch.as_str(), " is ready");
                    ask(
                        &mut out,
                        herdr.notify(text.as_str(), Some("Worktree Setup finished"), "done"),
                    );
                }
            } else {
                ask(&mut out, herdr.set_title(pane, "Setup ✗"));
                let text = glue(branch.as_str(), ": setup needs attention");
                ask(
                    &mut out,
                    herdr.notify(
                        text.as_str(),
                        Some("A Worktree Setup step failed — see the setup pane"),
                        "request",
                    ),
                );
            }
        },
        WorkerEvent::Fatal(msg) => {
            ask(&mut out, herdr.set_title(pane, "Setup ✗"));
            ask(
                &mut out,
                herdr.notify("Worktree Setup failed", Some(msg.as_str()), "request"),
            );
        },
        _ => {},
    }
    assert(commands_view(out@) =~= effects(slice_text(pane_id), app@, ev@, total));
    out
}

/// Outside of a herdr pane herdr is asked for nothing.
pub proof fn law_no_pane_no_effects(app: AppView, ev: EventView, total: usize)
    ensures
        effects(None, app, ev, total).len() == 0,
{
}

/// The title of the pane counts the steps that have ended, and says in the end how
/// it went. What failed is notified of, and what went well unless it was a dry run.
pub proof fn law_the_user_is_told(
    pane: Seq<char>,
    app: AppView,
    idx: usize,
    outcome: OutcomeView,
    took: u128,
    total: usize,
    msg: Seq<char>,
)
    requires
        total > 0,
    ensures
        ({
            let step = effects(
                Some(pane),
                app,
                EventView::Finished { idx, outcome, took },
                total,
            );
            let good = effects(Some(pane), app, EventView::Done { ok: true }, total);
            let bad = effects(Some(pane), app, EventView::Done { ok: false }, total);
            let fatal = effects(Some(pane), app, EventView::Fatal(msg), total);
            let name = match app.header {
                Some(h) => match h.branch {
                    Some(b) => b,
                    None => "worktree"@,
                },
                None => "worktree"@,
            };
            &&& step == seq![
                titled(
                    pane,
                    "Setup "@ + decimal((idx + 1) as nat) + "/"@ + decimal(total as nat),
                ),
            ]
            &&& good.len() == if app.dry_run {
                1int
            } else {
                2
            }
            &&& good[0] == titled(pane, "Setup ✓"@)
            &&& !app.dry_run ==> good[1].take(3) == seq![
                "notification"@,
                "show"@,
                name + " is ready"@,
            ]
            &&& bad.len() == 2 && bad[0] == titled(pane, "Setup ✗"@)
            &&& bad[1].take(3) == seq![
                "notification"@,
                "show"@,
                name + ": setup needs attention"@,
            ]
            &&& fatal.len() == 2 && fatal[0] == titled(pane, "Setup ✗"@)
            &&& fatal[1].take(5) == seq![
                "notification"@,
                "show"@,
                "Worktree Setup failed"@,
                "--body"@,
                msg,
            ]
        }),
{
    let good = effects(Some(pane), app, EventView::Done { ok: true }, total);
    let bad = effects(Some(pane), app, EventView::Done { ok: false }, total);
    let fatal = effects(Some(pane), app, EventView::Fatal(msg), total);
    assert(bad[1].take(3) =~= seq![
        "notification"@,
        "show"@,
        called(app) + ": setup needs attention"@,
    ]);
    if !app.dry_run {
        assert(good[1].take(3) =~= seq!["notification"@, "show"@, called(app) + " is ready"@]);
    }
    assert(fatal[1].take(5) =~= seq![
        "notification"@,
        "show"@,
        "Worktree Setup failed"@,
        "--body"@,
        msg,
    ]);
}

/// The call that gives a pane a title.
pub open spec fn titled(pane: Seq<char>, title: Seq<char>) -> Seq<Seq<char>> {
    seq![
        "pane"@,
        "report-metadata"@,
        pane,
        "--source"@,
        "plugin:worktree-setup"@,
        "--title"@,
        title,
    ]
}

} // verus!
