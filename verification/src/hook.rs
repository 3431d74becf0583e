//! What runs outside the pane: the `worktree.created` hook and the `run` /
//! `plan` actions. They derive a job, leave it where a live setup pane has it,
//! and ask herdr to open the pane in the new workspace.

use vstd::prelude::*;
use vstd::string::*;
use crate::config::{
    default_config, file_merged, read_failure, Config, ConfigView, LayerRead, Origin, Placement,
    USER_FILE,
};
use crate::digits::{decimal, decimal_text};
use crate::envmap::pair_texts;
use crate::herdr::{panes_view, PaneOpen};
use crate::job::{Job, JobSource, JobSourceView, JobView, Lock};
use crate::paths::joined;
use crate::text::{copy_option, glue, glue3, option_text};

verus! {

pub const PLUGIN_ID: &'static str = "worktree-setup";

pub const PANE_ENTRYPOINT: &'static str = "setup";

/// What an entry point does next.
#[derive(Debug)]
pub enum Next {
    /// Open the setup pane for this job.
    Launch(Job),
    /// Print this and exit with this code.
    Print { text: String, code: i32 },
    /// Print this on stderr and exit with this code.
    Complain { text: String, code: i32 },
    /// Fail with this error.
    Fail(String),
}

/// The hook: exit 0 whenever there is simply nothing to do. `source` is what was
/// made of the event, if there is one.
pub fn hook(source: Option<Result<JobSource, String>>) -> (r: Next)
    ensures
        match source {
            None => r matches Next::Complain { text, code } && code == 3 && text@
                == "worktree-setup: HERDR_PLUGIN_EVENT_JSON is not set (not invoked by a herdr event hook)"@,
            Some(Err(e)) => r matches Next::Fail(t) && t@ == e@,
            Some(Ok(s)) => match s@ {
                JobSourceView::Skip(reason) => r matches Next::Print { text, code } && code == 0
                    && text@ == "worktree-setup: "@ + reason,
                JobSourceView::Ready(job) => r matches Next::Launch(j) && j@ == (JobView {
                    dry_run: false,
                    ..job
                }),
            },
        },
{
    match source {
        None => Next::Complain {
            text: "worktree-setup: HERDR_PLUGIN_EVENT_JSON is not set (not invoked by a herdr event hook)".to_owned(),
            code: 3,
        },
        Some(Err(e)) => Next::Fail(e),
        Some(Ok(JobSource::Skip(reason))) => Next::Print {
            text: glue("worktree-setup: ", reason.as_str()),
            code: 0,
        },
        Some(Ok(JobSource::Ready(job))) => {
            let mut job = job;
            job.dry_run = false;
            Next::Launch(job)
        },
    }
}

/// The `run` / `plan` actions. `source` is what was made of the context, if there
/// is one.
pub fn action(dry_run: bool, source: Option<Result<JobSource, String>>) -> (r: Next)
    ensures
        match source {
            None => r matches Next::Complain { text, code } && code == 3 && text@
                == "worktree-setup: HERDR_PLUGIN_CONTEXT_JSON is not set (invoke this action from inside herdr)"@,
            Some(Err(e)) => r matches Next::Fail(t) && t@ == e@,
            Some(Ok(s)) => match s@ {
                JobSourceView::Skip(reason) => r matches Next::Complain { text, code } && code == 1
                    && text@ == "worktree-setup: "@ + reason,
                JobSourceView::Ready(job) => r matches Next::Launch(j) && j@ == (JobView {
                    dry_run,
                    ..job
                }),
            },
        },
{
    match source {
        None => Next::Complain {
            text: "worktree-setup: HERDR_PLUGIN_CONTEXT_JSON is not set (invoke this action from inside herdr)".to_owned(),
            code: 3,
        },
        Some(Err(e)) => Next::Fail(e),
        Some(Ok(JobSource::Skip(reason))) => Next::Complain {
            text: glue("worktree-setup: ", reason.as_str()),
            code: 1,
        },
        Some(Ok(JobSource::Ready(job))) => {
            let mut job = job;
            job.dry_run = dry_run;
            Next::Launch(job)
        },
    }
}

/// The configuration to open the pane with: the user's, or the defaults where
/// that is broken, with what is then to be said.
pub fn launch_config(config_dir: &str, user: LayerRead) -> (r: (Config, Option<String>))
    ensures
        match read_failure(joined(config_dir@, USER_FILE@), user) {
            Some(why) => r.0@ == default_config() && option_text(r.1) == Some(
                "worktree-setup: "@ + why + "; using defaults"@,
            ),
            None => r.0@ == file_merged(
                default_config(),
                Origin::User,
                joined(config_dir@, USER_FILE@),
                user,
            ) && r.1 is None,
        },
{
    match Config::load_user(config_dir, user) {
        Ok(cfg) => (cfg, None),
        Err(err) => (
            Config::default(),
            Some(glue3("worktree-setup: ", err.as_str(), "; using defaults")),
        ),
    }
}

/// Whether the setup pane takes the focus: where the user wants it to, and never
/// from a worktree that was created in the background.
pub open spec fn takes_focus(cfg: ConfigView, job: JobView) -> bool {
    cfg.focus && job.workspace_focused
}

/// What is said where a live process is already at the job.
pub open spec fn running_text(job: JobView, pid: u32) -> Seq<char> {
    "worktree-setup: setup already running for "@ + job.target + " (pid "@ + decimal(pid as nat)
        + ")"@
}

/// Where a live process is already at the job: the pane to focus, if any, and
/// what to say.
pub fn already_running(cfg: &Config, job: &Job, live: &Lock) -> (r: (Option<String>, String))
    ensures
        option_text(r.0) == if takes_focus(cfg@, job@) {
            option_text(live.pane_id)
        } else {
            None
        },
        r.1@ == running_text(job@, live.pid),
{
    let pane = if cfg.focus && job.workspace_focused {
        copy_option(&live.pane_id)
    } else {
        None
    };
    let mut text = glue3(
        "worktree-setup: setup already running for ",
        job.target.as_str(),
        " (pid ",
    );
    text.append(decimal_text(live.pid as u128).as_str());
    text.append(")");
    (pane, text)
}

/// Whether a placement is made beside another pane.
pub open spec fn beside(p: Placement) -> bool {
    p == Placement::Split || p == Placement::Zoomed
}

/// The workspace whose panes have to be known, if the new pane goes beside one.
pub fn panes_wanted(cfg: &Config, job: &Job) -> (r: Option<String>)
    ensures
        option_text(r) == if beside(cfg@.placement) {
            job@.workspace_id
        } else {
            None
        },
{
    match cfg.placement {
        Placement::Split | Placement::Zoomed => copy_option(&job.workspace_id),
        _ => None,
    }
}

/// The pane to go beside: the first that is focused, else the first.
pub open spec fn pane_beside(panes: Seq<(Seq<char>, bool)>) -> Option<Seq<char>> {
    if panes.len() == 0 {
        None
    } else {
        match first_focused(panes) {
            Some(id) => Some(id),
            None => Some(panes[0].0),
        }
    }
}

/// The first pane that is focused.
pub open spec fn first_focused(panes: Seq<(Seq<char>, bool)>) -> Option<Seq<char>>
    decreases panes.len(),
{
    if panes.len() == 0 {
        None
    } else if panes[0].1 {
        Some(panes[0].0)
    } else {
        first_focused(panes.skip(1))
    }
}

/// The pane of the new workspace to go beside, never one that is focused
/// elsewhere.
pub fn choose_pane(panes: &Vec<(String, bool)>) -> (r: Option<String>)
    ensures
        option_text(r) == pane_beside(panes_view(panes@)),
{
    let ghost all = panes_view(panes@);
    if panes.len() == 0 {
        return None;
    }
    let mut i: usize = 0;
    assert(all.skip(0) =~= all);
    while i < panes.len()
        invariant
            i <= panes.len(),
            all == panes_view(panes@),
            all.len() > 0,
            first_focused(all) == first_focused(all.skip(i as int)),
        decreases panes.len() - i,
    {
        assert(all.skip(i as int)[0] == all[i as int]);
        assert(all.skip(i as int).skip(1) =~= all.skip(i + 1));
        if panes[i].1 {
            return Some(panes[i].0.clone());
        }
        i += 1;
    }
    assert(all.skip(i as int) =~= Seq::empty());
    Some(panes[0].0.clone())
}

/// The placement that can be had: beside a pane only where there is one, else a
/// tab of the workspace.
pub open spec fn placement_for(wanted: Placement, has_pane: bool) -> Placement {
    if beside(wanted) && !has_pane {
        Placement::Tab
    } else {
        wanted
    }
}

/// The pane to be opened for a job. `target_pane` is the pane to go beside, if
/// there is one; `plugin` is the plugin's id, if herdr gave it.
pub fn launch(
    cfg: &Config,
    job: &Job,
    target_pane: Option<String>,
    plugin: Option<String>,
    job_file: &str,
) -> (r: PaneOpen)
    ensures
        r.plugin@ == match option_text(plugin) {
            Some(p) => p,
            None => PLUGIN_ID@,
        },
        r.entrypoint@ == PANE_ENTRYPOINT@,
        option_text(r.workspace) == job@.workspace_id,
        option_text(r.target_pane) == option_text(target_pane),
        r.placement == placement_for(cfg@.placement, target_pane is Some),
        r.direction == cfg@.direction,
        r.cwd@ == job@.target,
        pair_texts(r.env@) == seq![("HWS_JOB"@, job_file@)],
        r.focus == takes_focus(cfg@, job@),
{
    let placement = match cfg.placement {
        Placement::Split | Placement::Zoomed => if target_pane.is_none() {
            Placement::Tab
        } else {
            cfg.placement
        },
        other => other,
    };
    let mut env: Vec<(String, String)> = Vec::new();
    env.push(("HWS_JOB".to_owned(), job_file.to_owned()));
    assert(pair_texts(env@) =~= seq![("HWS_JOB"@, job_file@)]);
    PaneOpen {
        plugin: match plugin {
            Some(p) => p,
            None => PLUGIN_ID.to_owned(),
        },
        entrypoint: PANE_ENTRYPOINT.to_owned(),
        workspace: copy_option(&job.workspace_id),
        target_pane,
        placement,
        direction: cfg.direction,
        cwd: job.target.clone(),
        env,
        focus: cfg.focus && job.workspace_focused,
    }
}

/// What is said once the pane is open.
pub fn opened_text(pane: Option<String>, job: &Job) -> (r: String)
    ensures
        r@ == "worktree-setup: opened setup pane "@ + (match option_text(pane) {
            Some(p) => p,
            None => "(popup)"@,
        }) + " for "@ + job@.target,
{
    let id = match pane {
        Some(p) => p,
        None => "(popup)".to_owned(),
    };
    let mut text = glue3("worktree-setup: opened setup pane ", id.as_str(), " for ");
    text.append(job.target.as_str());
    text
}

/// A setup pane takes the focus only where the user wants it to and the new
/// workspace had it.
pub proof fn law_background_keeps_focus(cfg: ConfigView, job: JobView)
    requires
        !job.workspace_focused,
    ensures
        !takes_focus(cfg, job),
{
}

/// Without a pane to go beside, the setup pane is a tab.
pub proof fn law_no_split_without_a_pane(wanted: Placement)
    ensures
        !beside(placement_for(wanted, false)),
{
}

/// A setup pane takes the focus if the user wants it to and the new workspace had
/// it.
pub proof fn law_focus_is_taken_where_wanted(cfg: ConfigView, job: JobView)
    ensures
        takes_focus(cfg, job) <==> cfg.focus && job.workspace_focused,
{
}

/// The wanted placement is kept wherever it can be had: always where there is a
/// pane to go beside, and without one unless it is a split or zoomed, which become
/// a tab.
pub proof fn law_placement_is_kept(wanted: Placement)
    ensures
        placement_for(wanted, true) == wanted,
        placement_for(Placement::Overlay, false) == Placement::Overlay,
        placement_for(Placement::Tab, false) == Placement::Tab,
        placement_for(Placement::Split, false) == Placement::Tab,
        placement_for(Placement::Zoomed, false) == Placement::Tab,
        beside(wanted) <==> wanted == Placement::Split || wanted == Placement::Zoomed,
{
}

proof fn lemma_first_focused(panes: Seq<(Seq<char>, bool)>, i: int)
    requires
        0 <= i < panes.len(),
        panes[i].1,
        forall|j: int| 0 <= j < i ==> !(#[trigger] panes[j]).1,
    ensures
        first_focused(panes) == Some(panes[i].0),
    decreases i,
{
    if i > 0 {
        assert(!panes[0].1);
        let rest = panes.skip(1);
        assert forall|j: int| 0 <= j < i - 1 implies !(#[trigger] rest[j]).1 by {
            assert(rest[j] == panes[j + 1]);
        }
        lemma_first_focused(rest, i - 1);
    }
}

proof fn lemma_none_focused(panes: Seq<(Seq<char>, bool)>)
    requires
        forall|j: int| 0 <= j < panes.len() ==> !(#[trigger] panes[j]).1,
    ensures
        first_focused(panes) is None,
    decreases panes.len(),
{
    if panes.len() > 0 {
        assert(!panes[0].1);
        let rest = panes.skip(1);
        assert forall|j: int| 0 <= j < rest.len() implies !(#[trigger] rest[j]).1 by {
            assert(rest[j] == panes[j + 1]);
        }
        lemma_none_focused(rest);
    }
}

/// The pane to go beside is the first that is focused, whichever that is, and the
/// first of all where none is; only without any pane is there none.
pub proof fn law_pane_to_go_beside(panes: Seq<(Seq<char>, bool)>, i: int)
    ensures
        pane_beside(panes) is None <==> panes.len() == 0,
        0 <= i < panes.len() && panes[i].1 && (forall|j: int|
            0 <= j < i ==> !(#[trigger] panes[j]).1) ==> pane_beside(panes) == Some(panes[i].0),
        panes.len() > 0 && (forall|j: int| 0 <= j < panes.len() ==> !(#[trigger] panes[j]).1)
            ==> pane_beside(panes) == Some(panes[0].0),
{
    if 0 <= i < panes.len() && panes[i].1 && (forall|j: int|
        0 <= j < i ==> !(#[trigger] panes[j]).1) {
        lemma_first_focused(panes, i);
    }
    if forall|j: int| 0 <= j < panes.len() ==> !(#[trigger] panes[j]).1 {
        lemma_none_focused(panes);
    }
}

/// Where a setup already runs for a worktree, that is said with its process.
pub proof fn law_running_setup_is_named(job: JobView, pid: u32)
    ensures
        running_text(job, pid) == "worktree-setup: setup already running for "@ + job.target
            + " (pid "@ + decimal(pid as nat) + ")"@,
{
}

} // verus!
