//! The unit of work: which source checkout feeds which new worktree, plus where
//! its files lie under the plugin's state directory.

use vstd::prelude::*;
use vstd::string::*;
use crate::bytes::{lossy, lossy_text};
use crate::digits::{digit, hex, hex_text, law_hex_reads_back};
use crate::paths::{
    file_name, file_name_of, from_root, join_path, joined, last_dot, law_components_of_a_path,
    law_joined, law_under_by_names, names, paths_equal, plain_names, same_components,
    set_extension, significant, stem, trim_tail, with_extension,
};
use crate::pieces::{join, law_join_undoes_split, lemma_split_append, lemma_split_len, split};
use crate::text::{
    ascii_digit, chars_of, copy_option, glue, glue3, is_digit, is_letter, lemma_texts_push, letter,
    option_text, texts, trim, trimmed,
};

verus! {

/// Which source checkout feeds which new worktree.
#[derive(Debug, PartialEq)]
pub struct Job {
    /// Main checkout that the state is copied from.
    pub source: String,
    /// The freshly created worktree.
    pub target: String,
    pub branch: Option<String>,
    pub workspace_id: Option<String>,
    pub repo_name: String,
    pub dry_run: bool,
    /// Whether the new workspace was focused when the event fired; a setup
    /// pane never steals focus from a worktree created in the background.
    pub workspace_focused: bool,
    /// Where this job was read from; the lock lies beside it, so that the hook
    /// and the pane agree on the path whatever their environments.
    pub job_file: Option<String>,
}

/// What a job says.
#[verifier::ext_equal]
pub struct JobView {
    pub source: Seq<char>,
    pub target: Seq<char>,
    pub branch: Option<Seq<char>>,
    pub workspace_id: Option<Seq<char>>,
    pub repo_name: Seq<char>,
    pub dry_run: bool,
    pub workspace_focused: bool,
    pub job_file: Option<Seq<char>>,
}

impl View for Job {
    type V = JobView;

    open spec fn view(&self) -> JobView {
        JobView {
            source: self.source@,
            target: self.target@,
            branch: option_text(self.branch),
            workspace_id: option_text(self.workspace_id),
            repo_name: self.repo_name@,
            dry_run: self.dry_run,
            workspace_focused: self.workspace_focused,
            job_file: option_text(self.job_file),
        }
    }
}

impl Clone for Job {
    fn clone(&self) -> (r: Self)
        ensures
            r@ == self@,
    {
        Job {
            source: self.source.clone(),
            target: self.target.clone(),
            branch: copy_option(&self.branch),
            workspace_id: copy_option(&self.workspace_id),
            repo_name: self.repo_name.clone(),
            dry_run: self.dry_run,
            workspace_focused: self.workspace_focused,
            job_file: copy_option(&self.job_file),
        }
    }
}

/// What was made of herdr's message: either something to do, or a reason to
/// quietly do nothing.
#[derive(Debug)]
pub enum JobSource {
    Ready(Job),
    Skip(String),
}

/// What was made of herdr's message.
#[verifier::ext_equal]
pub enum JobSourceView {
    Ready(JobView),
    Skip(Seq<char>),
}

impl View for JobSource {
    type V = JobSourceView;

    open spec fn view(&self) -> JobSourceView {
        match *self {
            JobSource::Ready(job) => JobSourceView::Ready(job@),
            JobSource::Skip(reason) => JobSourceView::Skip(reason@),
        }
    }
}

// --- messages ----------------------------------------------------------------

/// What an event says of a new worktree.
#[derive(Debug)]
pub struct EventData {
    pub workspace: Option<WorkspaceInfo>,
    pub worktree: Option<WorktreeInfo>,
}

#[derive(Debug)]
pub struct WorkspaceInfo {
    pub workspace_id: String,
    pub focused: bool,
    pub worktree: Option<WorkspaceWorktreeInfo>,
}

#[derive(Debug)]
pub struct WorkspaceWorktreeInfo {
    pub repo_root: String,
    pub checkout_path: String,
    pub repo_name: String,
    pub is_linked_worktree: bool,
}

#[derive(Debug)]
pub struct WorktreeInfo {
    pub path: String,
    pub branch: Option<String>,
    pub open_workspace_id: Option<String>,
    pub is_linked_worktree: bool,
}

/// What an action says of the workspace that it was invoked from.
#[derive(Debug)]
pub struct InvocationContext {
    pub workspace_id: Option<String>,
    pub worktree: Option<WorkspaceWorktreeInfo>,
}

/// What the workspace of an event says of its checkout.
pub open spec fn event_info(data: EventData) -> Option<WorkspaceWorktreeInfo> {
    match data.workspace {
        Some(w) => w.worktree,
        None => None,
    }
}

/// The worktree that an event is about.
pub open spec fn event_target(data: EventData) -> Option<Seq<char>> {
    match data.worktree {
        Some(w) => Some(w.path@),
        None => match event_info(data) {
            Some(i) => Some(i.checkout_path@),
            None => None,
        },
    }
}

/// Whether two paths are the same, or lead to the same place.
pub open spec fn one_place(
    a: Seq<char>,
    b: Seq<char>,
    canonical_a: Option<Seq<char>>,
    canonical_b: Option<Seq<char>>,
) -> bool {
    same_components(a, b) || (canonical_a is Some && canonical_b is Some && same_components(
        canonical_a->0,
        canonical_b->0,
    ))
}

/// Whether two paths are the same, or lead to the same place, given their
/// canonical paths.
pub fn same_path(
    a: &str,
    b: &str,
    canonical_a: &Option<String>,
    canonical_b: &Option<String>,
) -> (r: bool)
    ensures
        r == one_place(a@, b@, option_text(*canonical_a), option_text(*canonical_b)),
{
    if paths_equal(a, b) {
        return true;
    }
    match (canonical_a, canonical_b) {
        (Some(x), Some(y)) => paths_equal(x.as_str(), y.as_str()),
        _ => false,
    }
}

/// The name of a repository: as given, else that of its directory.
pub open spec fn repo_name_for(name: Seq<char>, source: Seq<char>) -> Seq<char> {
    if name.len() > 0 {
        name
    } else {
        match file_name(source) {
            Some(n) => n,
            None => "repo"@,
        }
    }
}

/// The name of a repository.
pub fn repo_name_or_basename(name: &str, source: &str) -> (r: String)
    ensures
        r@ == repo_name_for(name@, source@),
{
    if !name.is_empty() {
        return name.to_owned();
    }
    match file_name_of(source) {
        Some(n) => n,
        None => "repo".to_owned(),
    }
}

/// Why there is nothing to do for the main checkout.
pub open spec fn main_checkout(target: Seq<char>) -> Seq<char> {
    target + " is the main checkout, nothing to set up"@
}

/// The job that an event asks for, given the canonical paths of source and
/// target.
pub open spec fn event_job(
    data: EventData,
    canonical_source: Option<Seq<char>>,
    canonical_target: Option<Seq<char>>,
) -> Result<JobSourceView, Seq<char>> {
    match event_target(data) {
        None => Err("event carries no worktree path"@),
        Some(target) => match event_info(data) {
            None => Ok(
                JobSourceView::Skip(
                    "event has no workspace.worktree.repo_root (not a git worktree workspace)"@,
                ),
            ),
            Some(info) => {
                let source = info.repo_root@;
                let linked = info.is_linked_worktree || (data.worktree is Some
                    && data.worktree->0.is_linked_worktree);
                if !linked || one_place(source, target, canonical_source, canonical_target) {
                    Ok(JobSourceView::Skip(main_checkout(target)))
                } else {
                    Ok(
                        JobSourceView::Ready(
                            JobView {
                                source,
                                target,
                                branch: match data.worktree {
                                    Some(w) => option_text(w.branch),
                                    None => None,
                                },
                                workspace_id: Some(data.workspace->0.workspace_id@),
                                repo_name: repo_name_for(info.repo_name@, source),
                                dry_run: false,
                                workspace_focused: data.workspace->0.focused,
                                job_file: None,
                            },
                        ),
                    )
                }
            },
        },
    }
}

/// The job that an action asks for, given the canonical paths of source and
/// target.
pub open spec fn context_job(
    ctx: InvocationContext,
    canonical_source: Option<Seq<char>>,
    canonical_target: Option<Seq<char>>,
) -> JobSourceView {
    match ctx.worktree {
        None => JobSourceView::Skip(
            "this workspace is not a git worktree workspace (no worktree in context)"@,
        ),
        Some(info) => {
            let source = info.repo_root@;
            let target = info.checkout_path@;
            if !info.is_linked_worktree || one_place(
                source,
                target,
                canonical_source,
                canonical_target,
            ) {
                JobSourceView::Skip(main_checkout(target))
            } else {
                JobSourceView::Ready(
                    JobView {
                        source,
                        target,
                        branch: None,
                        workspace_id: option_text(ctx.workspace_id),
                        repo_name: repo_name_for(info.repo_name@, source),
                        dry_run: false,
                        workspace_focused: true,
                        job_file: None,
                    },
                )
            }
        },
    }
}

/// A job with its branch: as given, else the one that git names, where `out` is
/// whether git succeeded and what it printed, if it could be run.
pub open spec fn on_branch(job: JobView, out: Option<(bool, Vec<u8>)>) -> JobView {
    JobView {
        branch: match job.branch {
            Some(b) => Some(b),
            None => match out {
                Some(o) => if o.0 && trimmed(lossy_text(o.1@)).len() > 0 {
                    Some(trimmed(lossy_text(o.1@)))
                } else {
                    None
                },
                None => None,
            },
        },
        ..job
    }
}

/// The job that is given by hand: it is named after the source checkout.
pub open spec fn hand_job(source: Seq<char>, target: Seq<char>, apply: bool) -> JobView {
    JobView {
        source,
        target,
        branch: None,
        workspace_id: None,
        repo_name: match file_name(source) {
            Some(name) => name,
            None => "repo"@,
        },
        dry_run: !apply,
        workspace_focused: true,
        job_file: None,
    }
}

/// What a result says.
pub open spec fn source_view(r: Result<JobSource, String>) -> Result<JobSourceView, Seq<char>> {
    match r {
        Ok(s) => Ok(s@),
        Err(e) => Err(e@),
    }
}

// --- keys --------------------------------------------------------------------

/// What `std::collections::hash_map::DefaultHasher` makes of a text.
pub uninterp spec fn text_hash(s: Seq<char>) -> u64;

/// A `std::collections::hash_map::DefaultHasher` made by `new`, which is the same
/// as all others so made, hashes a text to a number that depends on the text
/// alone.
#[verifier::external_body]
fn hash64(s: &str) -> (r: u64)
    ensures
        r == text_hash(s@),
{
    let mut hasher = std::collections::hash_map::DefaultHasher::new();
    std::hash::Hash::hash(s, &mut hasher);
    std::hash::Hasher::finish(&hasher)
}

/// The characters of a text that a key shows.
pub open spec fn key_char(c: char) -> bool {
    is_letter(c) || is_digit(c) || c == '-' || c == '_'
}

/// Those characters of a text.
pub open spec fn shown(s: Seq<char>) -> Seq<char> {
    s.filter(|c: char| key_char(c))
}

/// The readable part of a key: the first two dozen of those characters.
pub open spec fn slug(s: Seq<char>) -> Seq<char> {
    if shown(s).len() > 24 {
        shown(s).take(24)
    } else {
        shown(s)
    }
}

/// The text that a job is known by.
pub open spec fn identity(job: JobView) -> Seq<char> {
    match job.workspace_id {
        Some(w) => w,
        None => job.target,
    }
}

/// The file-name key of a text. The readable part loses characters (`w1:p1` and
/// `w1/p1` both give `w1p1`), so a hash of the whole text tells them apart.
pub open spec fn key_of(s: Seq<char>) -> Seq<char> {
    slug(s) + "-"@ + hex(text_hash(s) as nat, 16)
}

fn slug_of(s: &str) -> (r: String)
    ensures
        r@ == slug(s@),
{
    let chars = chars_of(s);
    let mut out = String::new();
    let mut n: usize = 0;
    let mut i: usize = 0;
    let ghost pred = |c: char| key_char(c);
    proof {
        reveal(Seq::filter);
        assert(s@.take(0).filter(pred) =~= Seq::empty());
        assert(out@ =~= Seq::empty());
    }
    while i < chars.len() && n < 24
        invariant
            chars@ == s@,
            i <= chars.len(),
            n <= 24,
            n == out@.len(),
            pred == (|c: char| key_char(c)),
            out@ == s@.take(i as int).filter(pred),
        decreases chars.len() - i,
    {
        proof {
            reveal(Seq::filter);
            assert(s@.take(i + 1).drop_last() =~= s@.take(i as int));
            assert(s@.take(i + 1).last() == chars@[i as int]);
        }
        let c = chars[i];
        if letter(c) || ascii_digit(c) || c == '-' || c == '_' {
            out.push(c);
            n += 1;
        }
        i += 1;
    }
    proof {
        let rest = s@.skip(i as int);
        assert(s@.take(i as int) + rest =~= s@);
        Seq::filter_distributes_over_add(s@.take(i as int), rest, pred);
        let all = shown(s@);
        if i == chars.len() {
            assert(rest =~= Seq::empty());
            reveal(Seq::filter);
            assert(all =~= out@);
        } else {
            assert(all.take(24) =~= out@);
            if all.len() == 24 {
                assert(all =~= out@);
            }
        }
    }
    out
}

/// Where jobs and locks lie in the state directory.
pub open spec fn jobs_dir(state_dir: Seq<char>) -> Seq<char> {
    joined(state_dir, "jobs"@)
}

/// The file that a job is written to.
pub open spec fn file_of(job: JobView, state_dir: Seq<char>) -> Seq<char> {
    joined(jobs_dir(state_dir), key_of(identity(job)) + ".json"@)
}

/// The lock of a job: beside its file where it came from one.
pub open spec fn lock_of(job: JobView, state_dir: Seq<char>) -> Seq<char> {
    match job.job_file {
        Some(f) => with_extension(f, "pid"@),
        None => joined(jobs_dir(state_dir), key_of(identity(job)) + ".pid"@),
    }
}

impl Job {
    /// The data of an event, which came as an envelope or bare.
    pub fn event_data(envelope: Option<EventData>, bare: Result<EventData, String>) -> (r: Result<
        EventData,
        String,
    >)
        ensures
            match envelope {
                Some(d) => r == Ok::<EventData, String>(d),
                None => match bare {
                    Ok(d) => r == Ok::<EventData, String>(d),
                    Err(e) => r matches Err(t) && t@
                        == "HERDR_PLUGIN_EVENT_JSON is not a worktree event: "@ + e@,
                },
            },
    {
        match envelope {
            Some(d) => Ok(d),
            None => match bare {
                Ok(d) => Ok(d),
                Err(e) => Err(
                    glue("HERDR_PLUGIN_EVENT_JSON is not a worktree event: ", e.as_str()),
                ),
            },
        }
    }

    /// The source and the target of an event, where it has both.
    pub fn event_paths(data: &EventData) -> (r: Option<(String, String)>)
        ensures
            match r {
                Some(p) => event_info(*data) matches Some(i) && p.0@ == i.repo_root@ && event_target(
                    *data,
                ) == Some(p.1@),
                None => event_info(*data) is None,
            },
    {
        let info = match &data.workspace {
            Some(w) => match &w.worktree {
                Some(i) => i,
                None => {
                    return None;
                },
            },
            None => {
                return None;
            },
        };
        let target = match &data.worktree {
            Some(w) => w.path.clone(),
            None => info.checkout_path.clone(),
        };
        Some((info.repo_root.clone(), target))
    }

    /// The job that a `worktree.created` event asks for, given the canonical
    /// paths of its source and target, where there are such.
    pub fn from_event_json(
        data: &EventData,
        canonical_source: Option<String>,
        canonical_target: Option<String>,
    ) -> (r: Result<JobSource, String>)
        ensures
            source_view(r) == event_job(
                *data,
                option_text(canonical_source),
                option_text(canonical_target),
            ),
    {
        let info = match &data.workspace {
            Some(w) => match &w.worktree {
                Some(i) => Some((w, i)),
                None => None,
            },
            None => None,
        };
        let (given, branch, linked) = match &data.worktree {
            Some(w) => (Some(w.path.clone()), copy_option(&w.branch), w.is_linked_worktree),
            None => (None, None, false),
        };
        let target = match given {
            Some(t) => t,
            None => match info {
                Some((_, i)) => i.checkout_path.clone(),
                None => {
                    return Err("event carries no worktree path".to_owned());
                },
            },
        };
        match info {
            None => Ok(
                JobSource::Skip(
                    "event has no workspace.worktree.repo_root (not a git worktree workspace)".to_owned(),
                ),
            ),
            Some((ws, i)) => {
                if !(i.is_linked_worktree || linked) || same_path(
                    i.repo_root.as_str(),
                    target.as_str(),
                    &canonical_source,
                    &canonical_target,
                ) {
                    return Ok(
                        JobSource::Skip(
                            glue(target.as_str(), " is the main checkout, nothing to set up"),
                        ),
                    );
                }
                Ok(
                    JobSource::Ready(
                        Job {
                            repo_name: repo_name_or_basename(
                                i.repo_name.as_str(),
                                i.repo_root.as_str(),
                            ),
                            source: i.repo_root.clone(),
                            target,
                            branch,
                            workspace_id: Some(ws.workspace_id.clone()),
                            dry_run: false,
                            workspace_focused: ws.focused,
                            job_file: None,
                        },
                    ),
                )
            },
        }
    }

    /// The job that an action asks for, given the canonical paths of its source
    /// and target, where there are such.
    pub fn from_context_json(
        ctx: &InvocationContext,
        canonical_source: Option<String>,
        canonical_target: Option<String>,
    ) -> (r: JobSource)
        ensures
            r@ == context_job(*ctx, option_text(canonical_source), option_text(canonical_target)),
    {
        match &ctx.worktree {
            None => JobSource::Skip(
                "this workspace is not a git worktree workspace (no worktree in context)".to_owned(),
            ),
            Some(info) => {
                if !info.is_linked_worktree || same_path(
                    info.repo_root.as_str(),
                    info.checkout_path.as_str(),
                    &canonical_source,
                    &canonical_target,
                ) {
                    return JobSource::Skip(
                        glue(
                            info.checkout_path.as_str(),
                            " is the main checkout, nothing to set up",
                        ),
                    );
                }
                JobSource::Ready(
                    Job {
                        repo_name: repo_name_or_basename(
                            info.repo_name.as_str(),
                            info.repo_root.as_str(),
                        ),
                        source: info.repo_root.clone(),
                        target: info.checkout_path.clone(),
                        branch: None,
                        workspace_id: copy_option(&ctx.workspace_id),
                        dry_run: false,
                        workspace_focused: true,
                        job_file: None,
                    },
                )
            },
        }
    }

    /// A job that is given by hand, outside of herdr. It is only planned unless it
    /// is to be applied.
    pub fn by_hand(source: String, target: String, apply: bool) -> (r: Job)
        ensures
            r@ == hand_job(source@, target@, apply),
    {
        let repo_name = match file_name_of(source.as_str()) {
            Some(name) => name,
            None => "repo".to_owned(),
        };
        Job {
            source,
            target,
            branch: None,
            workspace_id: None,
            repo_name,
            dry_run: !apply,
            workspace_focused: true,
            job_file: None,
        }
    }

    /// What asks git for the branch of the worktree.
    pub fn branch_args(&self) -> (r: Vec<String>)
        ensures
            texts(r@) == seq![
                "-C"@,
                self@.target,
                "symbolic-ref"@,
                "--short"@,
                "-q"@,
                "HEAD"@,
            ],
    {
        broadcast use lemma_texts_push;

        let mut out: Vec<String> = Vec::new();
        out.push("-C".to_owned());
        out.push(self.target.clone());
        out.push("symbolic-ref".to_owned());
        out.push("--short".to_owned());
        out.push("-q".to_owned());
        out.push("HEAD".to_owned());
        assert(texts(out@) =~= seq![
            "-C"@,
            self@.target,
            "symbolic-ref"@,
            "--short"@,
            "-q"@,
            "HEAD"@,
        ]);
        out
    }

    /// Take over the branch that git names, where none is known: `out` is
    /// whether git succeeded and what it printed, if it could be run.
    pub fn fill_branch(&mut self, out: Option<(bool, Vec<u8>)>)
        ensures
            final(self)@ == on_branch(old(self)@, out),
    {
        if self.branch.is_some() {
            return;
        }
        match out {
            Some((success, stdout)) => {
                let all = lossy(stdout.as_slice());
                let s = trim(all.as_str());
                if success && !s.as_str().is_empty() {
                    self.branch = Some(s);
                }
            },
            None => {},
        }
    }

    /// Stable file-name key for job/lock files. Two workspaces that share a job
    /// file would give one worktree the other's source and target paths.
    pub fn key(&self) -> (r: String)
        ensures
            r@ == key_of(identity(self@)),
    {
        let raw = match &self.workspace_id {
            Some(w) => w.clone(),
            None => self.target.clone(),
        };
        let slug = slug_of(raw.as_str());
        let hash = hex_text(hash64(raw.as_str()), 16);
        glue3(slug.as_str(), "-", hash.as_str())
    }

    /// `<jobs>/<key>.json`.
    pub fn file_path(&self, state_dir: &str) -> (r: String)
        ensures
            r@ == file_of(self@, state_dir@),
    {
        let dir = join_path(state_dir, "jobs");
        let name = glue(self.key().as_str(), ".json");
        join_path(dir.as_str(), name.as_str())
    }

    /// `<jobs>/<key>.pid`, beside the job file when the job came from one.
    pub fn lock_path(&self, state_dir: &str) -> (r: String)
        ensures
            r@ == lock_of(self@, state_dir@),
    {
        match &self.job_file {
            Some(file) => set_extension(file.as_str(), "pid"),
            None => {
                let dir = join_path(state_dir, "jobs");
                let name = glue(self.key().as_str(), ".pid");
                join_path(dir.as_str(), name.as_str())
            },
        }
    }
}

/// Where a process finds its job.
#[derive(Debug)]
pub enum JobOrigin {
    /// In the file of this name.
    File(String),
    /// In this message of an action.
    Context(String),
    /// Nowhere, and this is to be said.
    Missing(String),
}

/// Where a process finds its job: in the file it was given, else in the message
/// of the action that it was invoked by.
pub fn job_origin(hws_job: Option<String>, context: Option<String>) -> (r: JobOrigin)
    ensures
        match option_text(hws_job) {
            Some(p) => r matches JobOrigin::File(f) && f@ == p,
            None => match option_text(context) {
                Some(c) => r matches JobOrigin::Context(t) && t@ == c,
                None => r matches JobOrigin::Missing(t) && t@
                    == "no job: set HWS_JOB=<job.json> or run inside a herdr plugin pane"@,
            },
        },
{
    match hws_job {
        Some(path) => JobOrigin::File(path),
        None => match context {
            Some(raw) => JobOrigin::Context(raw),
            None => JobOrigin::Missing(
                "no job: set HWS_JOB=<job.json> or run inside a herdr plugin pane".to_owned(),
            ),
        },
    }
}

// --- state / config directories ----------------------------------------------

/// A directory that the plugin was given, else one in the home directory.
pub open spec fn own_dir(
    given: Option<Seq<char>>,
    home: Option<Seq<char>>,
    rel: Seq<char>,
) -> Seq<char> {
    match given {
        Some(d) => d,
        None => joined(
            match home {
                Some(h) => h,
                None => "/tmp"@,
            },
            rel,
        ),
    }
}

fn dir_for(given: Option<String>, home: Option<String>, rel: &str) -> (r: String)
    ensures
        r@ == own_dir(option_text(given), option_text(home), rel@),
{
    match given {
        Some(d) => d,
        None => match home {
            Some(h) => join_path(h.as_str(), rel),
            None => join_path("/tmp", rel),
        },
    }
}

/// The state directory, given `HERDR_PLUGIN_STATE_DIR` and `HOME`.
pub fn state_dir(given: Option<String>, home: Option<String>) -> (r: String)
    ensures
        r@ == own_dir(
            option_text(given),
            option_text(home),
            ".local/state/herdr-worktree-setup"@,
        ),
{
    dir_for(given, home, ".local/state/herdr-worktree-setup")
}

/// The config directory, given `HERDR_PLUGIN_CONFIG_DIR` and `HOME`.
pub fn config_dir(given: Option<String>, home: Option<String>) -> (r: String)
    ensures
        r@ == own_dir(option_text(given), option_text(home), ".config/herdr-worktree-setup"@),
{
    dir_for(given, home, ".config/herdr-worktree-setup")
}

/// Whether a job or lock file of this age, in nanoseconds, is removed: one that
/// is older than a week. The age of one from the future is not known.
pub fn sweep_old(age: Option<u128>) -> (r: bool)
    ensures
        r == (age is Some && age->0 > 604800000000000),
{
    match age {
        Some(a) => a > 604800000000000,
        None => false,
    }
}

// --- live-process lock -------------------------------------------------------

/// Who holds the lock of a job.
#[derive(Debug)]
pub struct Lock {
    pub pid: u32,
    pub pane_id: Option<String>,
}

/// What there is to a lock file.
#[derive(Debug)]
pub enum LockState {
    /// Nobody holds it: the file is a leftover, to be removed.
    Stale,
    /// A live process holds it, this one where it says so.
    Held(Option<Lock>),
    /// There is none.
    Absent,
}

impl Lock {
    /// What there is to a lock file: `taken` is whether the lock on it could be
    /// taken, if there is one; `body` is what it says, if that can be read. The
    /// system lets go of the lock when its holder exits, however it exits, so a
    /// leftover never passes for a live process as a recorded pid can.
    pub fn read_live(taken: Option<bool>, body: Option<Lock>) -> (r: LockState)
        ensures
            match taken {
                None => r is Absent,
                Some(true) => r is Stale,
                Some(false) => r == LockState::Held(body),
            },
    {
        match taken {
            None => LockState::Absent,
            Some(t) => if t {
                LockState::Stale
            } else {
                LockState::Held(body)
            },
        }
    }
}

// --- what holds of every job -------------------------------------------------

proof fn lemma_digit_injective(a: nat, b: nat)
    requires
        a < 16,
        b < 16,
        digit(a) == digit(b),
    ensures
        a == b,
{
}

proof fn lemma_hex_injective(a: nat, b: nat, width: nat)
    requires
        hex(a, width) == hex(b, width),
        a < vstd::arithmetic::power::pow(16, width),
        b < vstd::arithmetic::power::pow(16, width),
    ensures
        a == b,
    decreases width,
{
    reveal(vstd::arithmetic::power::pow);
    if width > 0 {
        let w = (width - 1) as nat;
        let x = hex(a / 16, w);
        let y = hex(b / 16, w);
        assert(hex(a, width).drop_last() =~= x);
        assert(hex(b, width).drop_last() =~= y);
        assert(hex(a, width).last() == digit(a % 16));
        assert(hex(b, width).last() == digit(b % 16));
        lemma_digit_injective(a % 16, b % 16);
        lemma_hex_injective(a / 16, b / 16, w);
    }
}

proof fn lemma_hex_len(n: nat, width: nat)
    ensures
        hex(n, width).len() == width,
        forall|i: int| 0 <= i < hex(n, width).len() ==> key_char(#[trigger] hex(n, width)[i]),
    decreases width,
{
    if width > 0 {
        lemma_hex_len(n / 16, (width - 1) as nat);
        let front = hex(n / 16, (width - 1) as nat);
        assert forall|i: int| 0 <= i < hex(n, width).len() implies key_char(
            #[trigger] hex(n, width)[i],
        ) by {
            if i < front.len() {
                assert(key_char(front[i]));
            } else {
                assert(hex(n, width)[i] == digit(n % 16));
            }
        }
    }
}

/// Keys tell workspaces apart wherever their hashes do: two texts have the same
/// key if and only if they have the same readable part and the same hash.
pub proof fn law_keys_tell_apart(a: Seq<char>, b: Seq<char>)
    ensures
        (key_of(a) == key_of(b)) == (slug(a) == slug(b) && text_hash(a) == text_hash(b)),
{
    let x = hex(text_hash(a) as nat, 16);
    let y = hex(text_hash(b) as nat, 16);
    lemma_hex_len(text_hash(a) as nat, 16);
    lemma_hex_len(text_hash(b) as nat, 16);
    reveal_strlit("-");
    if key_of(a) == key_of(b) {
        let n = key_of(a).len();
        assert(key_of(a).skip(n - 16) =~= x);
        assert(key_of(b).skip(n - 16) =~= y);
        assert(key_of(a).take(n - 17) =~= slug(a));
        assert(key_of(b).take(n - 17) =~= slug(b));
        assert(vstd::arithmetic::power::pow(16, 16) == 0x1_0000_0000_0000_0000) by {
            reveal(vstd::arithmetic::power::pow);
            reveal_with_fuel(vstd::arithmetic::power::pow, 17);
        }
        lemma_hex_injective(text_hash(a) as nat, text_hash(b) as nat, 16);
    }
}

proof fn lemma_shown(s: Seq<char>)
    ensures
        forall|i: int| 0 <= i < shown(s).len() ==> key_char(#[trigger] shown(s)[i]),
    decreases s.len(),
{
    reveal(Seq::filter);
    if s.len() > 0 {
        lemma_shown(s.drop_last());
        let front = shown(s.drop_last());
        assert forall|i: int| 0 <= i < shown(s).len() implies key_char(#[trigger] shown(s)[i]) by {
            if i < front.len() {
                assert(shown(s)[i] == front[i]);
            }
        }
    }
}

/// A key is a plain file name: letters, digits, `-` and `_` only, so it leads
/// nowhere else, and it is never empty.
pub proof fn law_key_is_a_plain_name(s: Seq<char>)
    ensures
        key_of(s).len() >= 17,
        forall|i: int| 0 <= i < key_of(s).len() ==> key_char(#[trigger] key_of(s)[i]),
{
    lemma_shown(s);
    lemma_hex_len(text_hash(s) as nat, 16);
    reveal_strlit("-");
    let k = key_of(s);
    assert forall|i: int| 0 <= i < k.len() implies key_char(#[trigger] k[i]) by {
        if i < slug(s).len() {
            assert(k[i] == shown(s)[i]);
        } else if i == slug(s).len() {
            assert(k[i] == '-');
        } else {
            assert(k[i] == hex(text_hash(s) as nat, 16)[i - slug(s).len() - 1]);
        }
    }
}

proof fn lemma_json_stem(key: Seq<char>)
    requires
        key.len() > 0,
    ensures
        stem(key + ".json"@) == key,
{
    reveal_strlit(".json");
    let name = key + ".json"@;
    let a = name.drop_last();
    let b = a.drop_last();
    let c = b.drop_last();
    let d = c.drop_last();
    assert(name.last() == 'n' && a.last() == 'o' && b.last() == 's' && c.last() == 'j');
    assert(d =~= key.push('.'));
    assert(last_dot(d) == Some(key.len() as int));
    assert(last_dot(c) == last_dot(d));
    assert(last_dot(b) == last_dot(c));
    assert(last_dot(a) == last_dot(b));
    assert(last_dot(name) == last_dot(a));
    assert(name.take(key.len() as int) =~= key);
}

/// A job that is read back from the file it was written to has the lock of the
/// job that was written, whatever the state directory is by then.
pub proof fn law_read_back_job_has_the_same_lock(
    job: JobView,
    state_dir: Seq<char>,
    state_dir_then: Seq<char>,
)
    requires
        job.job_file is None,
    ensures
        lock_of(
            JobView { job_file: Some(file_of(job, state_dir)), ..job },
            state_dir_then,
        ) == lock_of(job, state_dir),
{
    reveal_strlit("jobs");
    reveal_strlit(".json");
    reveal_strlit(".pid");
    reveal_strlit("pid");
    let jobs = jobs_dir(state_dir);
    let key = key_of(identity(job));
    let name = key + ".json"@;
    let file = file_of(job, state_dir);
    law_key_is_a_plain_name(identity(job));
    lemma_json_stem(key);
    assert(jobs.len() > 0 && jobs.last() == 's');
    assert forall|i: int| 0 <= i < name.len() implies name[i] != '/' by {
        if i < key.len() {
            assert(key_char(key[i]));
        }
    }
    assert(name[0] == key[0]);
    assert(file == jobs.push('/') + name);
    let pieces = split(jobs, '/');
    lemma_split_append(jobs, name, '/');
    lemma_split_len(jobs, '/');
    assert(significant(name));
    assert(file_name(file) == Some(name)) by {
        reveal(Seq::filter);
        assert(pieces.push(name).drop_last() =~= pieces);
        assert(names(pieces.push(name)) =~= names(pieces).push(name));
    }
    assert(trim_tail(pieces.push(name)) == pieces.push(name));
    assert(pieces.push(name).drop_last() =~= pieces);
    law_join_undoes_split(jobs, '/');
    assert(pieces.push(key).drop_last() =~= pieces);
    assert(join(pieces.push(key), seq!['/']) == jobs + seq!['/'] + key);
    assert(key[0] == (key + ".pid"@)[0]);
    assert(key_char(key[0]));
    assert((jobs + seq!['/'] + key).push('.') + "pid"@ =~= jobs.push('/') + (key + ".pid"@));
}

/// Whether an event has the pieces of a job: where the worktree is, and what its
/// workspace says of its repository.
pub open spec fn told_of(data: EventData, target: Seq<char>) -> bool {
    &&& data.workspace matches Some(w) && w.worktree is Some
    &&& match data.worktree {
        Some(w) => w.path@ == target,
        None => data.workspace->0.worktree->0.checkout_path@ == target,
    }
}

/// An event gives a job if and only if it tells of a linked worktree that is not
/// the source checkout itself, and the job is the one that it tells of. Without
/// any path it is an error; anything else is nothing to do.
pub proof fn law_event_gives_its_job(
    data: EventData,
    target: Seq<char>,
    canonical_source: Option<Seq<char>>,
    canonical_target: Option<Seq<char>>,
)
    ensures
        ({
            let r = event_job(data, canonical_source, canonical_target);
            &&& r is Err <==> data.worktree is None && (data.workspace is None
                || data.workspace->0.worktree is None)
            &&& data.worktree is Some && (data.workspace is None || data.workspace->0.worktree
                is None) ==> (r matches Ok(JobSourceView::Skip(_)))
            &&& told_of(data, target) ==> {
                let info = data.workspace->0.worktree->0;
                let linked = info.is_linked_worktree || (data.worktree matches Some(w)
                    && w.is_linked_worktree);
                let same = one_place(info.repo_root@, target, canonical_source, canonical_target);
                &&& linked && !same ==> (r matches Ok(JobSourceView::Ready(job)) && {
                    &&& job.source == info.repo_root@
                    &&& job.target == target
                    &&& job.branch == match data.worktree {
                        Some(w) => option_text(w.branch),
                        None => None,
                    }
                    &&& job.workspace_id == Some(data.workspace->0.workspace_id@)
                    &&& info.repo_name@.len() > 0 ==> job.repo_name == info.repo_name@
                    &&& !job.dry_run
                    &&& job.workspace_focused == data.workspace->0.focused
                    &&& job.job_file is None
                })
                &&& !linked || same ==> r == Ok::<JobSourceView, Seq<char>>(
                    JobSourceView::Skip(target + " is the main checkout, nothing to set up"@),
                )
            }
        }),
{
}

/// An action gives a job if and only if it was invoked from a linked worktree that
/// is not the source checkout itself, and the job is for that worktree.
pub proof fn law_action_gives_its_job(
    ctx: InvocationContext,
    canonical_source: Option<Seq<char>>,
    canonical_target: Option<Seq<char>>,
)
    ensures
        ({
            let r = context_job(ctx, canonical_source, canonical_target);
            &&& ctx.worktree is None ==> r is Skip
            &&& ctx.worktree matches Some(info) ==> {
                let same = one_place(
                    info.repo_root@,
                    info.checkout_path@,
                    canonical_source,
                    canonical_target,
                );
                &&& info.is_linked_worktree && !same ==> (r matches JobSourceView::Ready(job) && {
                    &&& job.source == info.repo_root@
                    &&& job.target == info.checkout_path@
                    &&& job.branch is None
                    &&& job.workspace_id == option_text(ctx.workspace_id)
                    &&& info.repo_name@.len() > 0 ==> job.repo_name == info.repo_name@
                    &&& !job.dry_run
                    &&& job.workspace_focused
                    &&& job.job_file is None
                })
                &&& !info.is_linked_worktree || same ==> r == JobSourceView::Skip(
                    info.checkout_path@ + " is the main checkout, nothing to set up"@,
                )
            }
        }),
{
}

/// Two paths are one place if they have the same names, or lead to one canonical
/// path; without canonical paths only the former counts. Which comes first makes
/// no difference.
pub proof fn law_one_place(
    a: Seq<Seq<char>>,
    b: Seq<Seq<char>>,
    canonical_a: Option<Seq<char>>,
    canonical_b: Option<Seq<char>>,
)
    requires
        a.len() > 0,
        b.len() > 0,
        plain_names(a),
        plain_names(b),
    ensures
        one_place(from_root(a), from_root(b), None, canonical_b) <==> a == b,
        one_place(from_root(a), from_root(b), canonical_a, None) <==> a == b,
        canonical_a is Some ==> one_place(from_root(a), from_root(b), canonical_a, canonical_a),
        one_place(from_root(a), from_root(a), canonical_a, canonical_b),
        one_place(from_root(a), from_root(b), canonical_a, canonical_b) == one_place(
            from_root(b),
            from_root(a),
            canonical_b,
            canonical_a,
        ),
{
    law_under_by_names(a, b);
}

/// A branch that is known stays; one that is not is what git printed, without the
/// white space around it, where git succeeded and printed one. Nothing else of a
/// job changes.
pub proof fn law_branch_is_filled_in(job: JobView, printed: Vec<u8>)
    ensures
        (JobView { branch: job.branch, ..on_branch(job, None) }) == job,
        (JobView { branch: job.branch, ..on_branch(job, Some((true, printed))) }) == job,
        on_branch(job, None) == job,
        on_branch(job, Some((false, printed))) == job,
        job.branch is Some ==> on_branch(job, Some((true, printed))) == job,
        job.branch is None && trimmed(lossy_text(printed@)).len() > 0 ==> on_branch(
            job,
            Some((true, printed)),
        ).branch == Some(trimmed(lossy_text(printed@))),
        trimmed(lossy_text(printed@)).len() == 0 ==> on_branch(job, Some((true, printed))) == job,
{
}

/// A job that is given by hand is for the two paths, is named after the source
/// checkout, and is a dry run unless it is to be applied.
pub proof fn law_job_by_hand(source: Seq<Seq<char>>, target: Seq<char>, apply: bool)
    requires
        source.len() > 0,
        plain_names(source),
        source.last() != seq!['.', '.'],
    ensures
        ({
            let job = hand_job(from_root(source), target, apply);
            &&& job.source == from_root(source)
            &&& job.target == target
            &&& job.repo_name == source.last()
            &&& job.dry_run == !apply
            &&& job.branch is None && job.workspace_id is None && job.job_file is None
            &&& job.workspace_focused
        }),
{
    law_components_of_a_path(source);
}

/// A job without a name of its repository is named after the source checkout.
pub proof fn law_repository_is_named(name: Seq<char>, source: Seq<Seq<char>>)
    requires
        source.len() > 0,
        plain_names(source),
        source.last() != seq!['.', '.'],
    ensures
        name.len() > 0 ==> repo_name_for(name, from_root(source)) == name,
        name.len() == 0 ==> repo_name_for(name, from_root(source)) == source.last(),
{
    law_components_of_a_path(source);
}

/// The files of a job lie in the state directory under one key, which goes by the
/// workspace where there is one and by the worktree else.
pub proof fn law_files_of_a_job(job: JobView, state_dir: Seq<char>)
    requires
        state_dir.len() > 0,
        state_dir.last() != '/',
    ensures
        ({
            let key = key_of(
                match job.workspace_id {
                    Some(w) => w,
                    None => job.target,
                },
            );
            &&& file_of(job, state_dir) == state_dir + "/jobs/"@ + key + ".json"@
            &&& job.job_file is None ==> lock_of(job, state_dir) == state_dir + "/jobs/"@ + key
                + ".pid"@
        }),
{
    reveal_strlit("jobs");
    reveal_strlit("/jobs/");
    assert(seq!['/'] + "jobs"@ + seq!['/'] =~= "/jobs/"@);
    law_joined(state_dir, "jobs"@);
    let dir = jobs_dir(state_dir);
    assert(dir.last() == 's');
    let key = key_of(identity(job));
    law_key_is_a_plain_name(identity(job));
    assert(key.len() > 0);
    law_joined(dir, key + ".json"@);
    law_joined(dir, key + ".pid"@);
    assert(state_dir + seq!['/'] + "jobs"@ + seq!['/'] =~= state_dir + "/jobs/"@);
    assert(file_of(job, state_dir) =~= state_dir + "/jobs/"@ + key + ".json"@);
    if job.job_file is None {
        assert(lock_of(job, state_dir) =~= state_dir + "/jobs/"@ + key + ".pid"@);
    }
}

/// A directory of the plugin is the one that is given, else one in the home
/// directory.
pub proof fn law_own_directories(given: Seq<char>, home: Seq<char>, rel: Seq<char>)
    requires
        home.len() > 0,
        home.last() != '/',
        rel.len() > 0,
        rel[0] != '/',
    ensures
        own_dir(Some(given), Some(home), rel) == given,
        own_dir(Some(given), None, rel) == given,
        own_dir(None, Some(home), rel) == home + seq!['/'] + rel,
        own_dir(None, None, rel) == "/tmp/"@ + rel,
{
    law_joined(home, rel);
    reveal_strlit("/tmp");
    reveal_strlit("/tmp/");
    law_joined("/tmp"@, rel);
    assert("/tmp"@ + seq!['/'] =~= "/tmp/"@);
}

/// A short name of letters, digits, `-` and `_` stands at the start of its key as it
/// is, so that people can tell whose key it is; the rest are sixteen digits.
pub proof fn law_key_starts_with_the_name(s: Seq<char>)
    requires
        forall|i: int| 0 <= i < s.len() ==> key_char(#[trigger] s[i]),
    ensures
        s.len() <= 24 ==> key_of(s) == s + seq!['-'] + hex(text_hash(s) as nat, 16),
        s.len() > 24 ==> key_of(s) == s.take(24) + seq!['-'] + hex(text_hash(s) as nat, 16),
        hex(text_hash(s) as nat, 16).len() == 16,
{
    lemma_all_shown(s);
    law_hex_reads_back(text_hash(s) as nat, 16);
    reveal_strlit("-");
    assert("-"@ =~= seq!['-']);
}

proof fn lemma_all_shown(s: Seq<char>)
    requires
        forall|i: int| 0 <= i < s.len() ==> key_char(#[trigger] s[i]),
    ensures
        shown(s) == s,
    decreases s.len(),
{
    reveal(Seq::filter);
    if s.len() > 0 {
        let front = s.drop_last();
        assert forall|i: int| 0 <= i < front.len() implies key_char(#[trigger] front[i]) by {
            assert(front[i] == s[i]);
        }
        lemma_all_shown(front);
        assert(key_char(s[s.len() - 1]));
        assert(shown(s) =~= s);
    } else {
        assert(shown(s) =~= s);
    }
}

/// Letters, digits, `-` and `_`, and no other characters, may stand in a key.
pub proof fn law_key_characters(c: char)
    ensures
        key_char(c) <==> ('a' <= c <= 'z') || ('A' <= c <= 'Z') || ('0' <= c <= '9') || c == '-' || c
            == '_',
{
}

} // verus!
