//! The ordered steps for one job: what each is going to do, whether it runs, and
//! what came of it. Whoever runs the commands and copies the files reports back
//! here.

use vstd::prelude::*;
use vstd::string::*;
use vstd::utf8::*;
use crate::bytes::{byte_lists, lossy_texts, records, records_of, utf8_text};
use crate::config::{merged, Config, ConfigView, LayerView, Origin, StepDef, StepDefView};
use crate::detect::{
    configured_for_mise, declared, detect_installs, has_envrc, installs,
    law_mise_is_configured_by_any_file, mise_config_files, mise_files, paths_present, InstallCmd,
    InstallView,
};
use crate::digits::{count_text, decimal, decimal_text, signed_decimal, signed_text};
use crate::discover::{entries_of, ignored, list_ignored, EntryStat};
use crate::envmap::{
    law_lookup_after_remove, lemma_lookup_last, lemma_lookup_pushed, lookup, ordered, pair_texts,
    Pair,
};
use crate::exec::{all_quoted, direct_argv, display, prefix, shell_argv, StepCmd, TIMED_OUT};
use crate::fsops::{copier_for, human_bytes, size_text, Copier, Method, TargetView};
use crate::job::{on_branch, Job, JobView};
use crate::order::text_before;
use crate::paths::{
    file_name, file_name_of, from_root, law_components_of_a_path, plain_names,
};
use crate::pieces::{join, join_with};
use crate::planner::{
    blocked, existing, grouped, items_view, law_groups_and_states, listings_view, pending, planned,
    CopyPlan, Group, Listing, PlanItem, PlanItemView, StateView,
};
use crate::rules::{reports_behind, rules_fault, rules_of, Fault, Rules, RulesView};
use crate::shellenv::ResolvedEnv;
use crate::text::{
    chars_of, copy_list, copy_option, glue, glue3, holds, lemma_texts_push, option_text, same,
    starts, starts_with, string_of, texts,
};

verus! {

// --- what is shown -----------------------------------------------------------

/// What a run is about.
#[derive(Debug)]
pub struct Header {
    pub repo_name: String,
    pub branch: Option<String>,
    pub source: String,
    pub target: String,
    pub env_origin: String,
    pub dry_run: bool,
    pub layers: Vec<String>,
    pub warnings: Vec<String>,
}

/// What a header says.
#[verifier::ext_equal]
pub struct HeaderView {
    pub repo_name: Seq<char>,
    pub branch: Option<Seq<char>>,
    pub source: Seq<char>,
    pub target: Seq<char>,
    pub env_origin: Seq<char>,
    pub dry_run: bool,
    pub layers: Seq<Seq<char>>,
    pub warnings: Seq<Seq<char>>,
}

impl View for Header {
    type V = HeaderView;

    open spec fn view(&self) -> HeaderView {
        HeaderView {
            repo_name: self.repo_name@,
            branch: option_text(self.branch),
            source: self.source@,
            target: self.target@,
            env_origin: self.env_origin@,
            dry_run: self.dry_run,
            layers: texts(self.layers@),
            warnings: texts(self.warnings@),
        }
    }
}

impl Clone for Header {
    fn clone(&self) -> (r: Self)
        ensures
            r@ == self@,
    {
        Header {
            repo_name: self.repo_name.clone(),
            branch: copy_option(&self.branch),
            source: self.source.clone(),
            target: self.target.clone(),
            env_origin: self.env_origin.clone(),
            dry_run: self.dry_run,
            layers: copy_list(&self.layers),
            warnings: copy_list(&self.warnings),
        }
    }
}

#[derive(Debug)]
pub struct StepMeta {
    pub name: String,
    /// What the step is going to do, shown before it runs.
    pub hint: String,
}

/// The name and the hint of a step.
pub type MetaView = (Seq<char>, Seq<char>);

impl View for StepMeta {
    type V = MetaView;

    open spec fn view(&self) -> MetaView {
        (self.name@, self.hint@)
    }
}

impl Clone for StepMeta {
    fn clone(&self) -> (r: Self)
        ensures
            r@ == self@,
    {
        StepMeta { name: self.name.clone(), hint: self.hint.clone() }
    }
}

/// What some metas say.
pub open spec fn metas_view(v: Seq<StepMeta>) -> Seq<MetaView> {
    Seq::new(v.len(), |i: int| v[i]@)
}

/// What came of a step.
#[derive(Debug, PartialEq, Eq)]
pub enum Outcome {
    Succeeded(String),
    Skipped(String),
    Failed(String),
}

/// What an outcome says.
#[verifier::ext_equal]
pub enum OutcomeView {
    Succeeded(Seq<char>),
    Skipped(Seq<char>),
    Failed(Seq<char>),
}

impl View for Outcome {
    type V = OutcomeView;

    open spec fn view(&self) -> OutcomeView {
        match *self {
            Outcome::Succeeded(d) => OutcomeView::Succeeded(d@),
            Outcome::Skipped(d) => OutcomeView::Skipped(d@),
            Outcome::Failed(d) => OutcomeView::Failed(d@),
        }
    }
}

impl Clone for Outcome {
    fn clone(&self) -> (r: Self)
        ensures
            r@ == self@,
    {
        match self {
            Outcome::Succeeded(d) => Outcome::Succeeded(d.clone()),
            Outcome::Skipped(d) => Outcome::Skipped(d.clone()),
            Outcome::Failed(d) => Outcome::Failed(d.clone()),
        }
    }
}

/// What a run reports. Times are in nanoseconds.
#[derive(Debug)]
pub enum WorkerEvent {
    Preparing(String),
    Plan { header: Header, steps: Vec<StepMeta> },
    Started { idx: usize },
    Line { idx: usize, text: String },
    Finished { idx: usize, outcome: Outcome, took: u128 },
    Done { ok: bool },
    Fatal(String),
}

/// What a run is asked for.
#[derive(Debug)]
pub enum UiCommand {
    Retry(Vec<usize>),
    Abort,
}

/// What a report says.
#[verifier::ext_equal]
pub enum EventView {
    Preparing(Seq<char>),
    Plan { header: HeaderView, steps: Seq<MetaView> },
    Started { idx: usize },
    Line { idx: usize, text: Seq<char> },
    Finished { idx: usize, outcome: OutcomeView, took: u128 },
    Done { ok: bool },
    Fatal(Seq<char>),
}

impl View for WorkerEvent {
    type V = EventView;

    open spec fn view(&self) -> EventView {
        match *self {
            WorkerEvent::Preparing(what) => EventView::Preparing(what@),
            WorkerEvent::Plan { header, steps } => EventView::Plan {
                header: header@,
                steps: metas_view(steps@),
            },
            WorkerEvent::Started { idx } => EventView::Started { idx },
            WorkerEvent::Line { idx, text } => EventView::Line { idx, text: text@ },
            WorkerEvent::Finished { idx, outcome, took } => EventView::Finished {
                idx,
                outcome: outcome@,
                took,
            },
            WorkerEvent::Done { ok } => EventView::Done { ok },
            WorkerEvent::Fatal(msg) => EventView::Fatal(msg@),
        }
    }
}

/// What a request says.
#[verifier::ext_equal]
pub enum CommandView {
    Retry(Seq<usize>),
    Abort,
}

impl View for UiCommand {
    type V = CommandView;

    open spec fn view(&self) -> CommandView {
        match *self {
            UiCommand::Retry(idxs) => CommandView::Retry(idxs@),
            UiCommand::Abort => CommandView::Abort,
        }
    }
}

// --- steps -------------------------------------------------------------------

/// What a step does.
#[derive(Debug)]
pub enum StepKind {
    CopyState,
    CloneCaches,
    MiseTrust(Vec<String>),
    DirenvAllow,
    Install(InstallCmd),
    Custom(StepDef),
}

/// What a kind of step says.
#[verifier::ext_equal]
pub enum KindView {
    CopyState,
    CloneCaches,
    MiseTrust(Seq<Seq<char>>),
    DirenvAllow,
    Install(InstallView),
    Custom(StepDefView),
}

impl View for StepKind {
    type V = KindView;

    open spec fn view(&self) -> KindView {
        match *self {
            StepKind::CopyState => KindView::CopyState,
            StepKind::CloneCaches => KindView::CloneCaches,
            StepKind::MiseTrust(files) => KindView::MiseTrust(texts(files@)),
            StepKind::DirenvAllow => KindView::DirenvAllow,
            StepKind::Install(cmd) => KindView::Install(cmd@),
            StepKind::Custom(def) => KindView::Custom(def@),
        }
    }
}

#[derive(Debug)]
pub struct Step {
    pub meta: StepMeta,
    pub kind: StepKind,
}

/// What a step says.
#[verifier::ext_equal]
pub struct StepView {
    pub meta: MetaView,
    pub kind: KindView,
}

impl View for Step {
    type V = StepView;

    open spec fn view(&self) -> StepView {
        StepView { meta: self.meta@, kind: self.kind@ }
    }
}

/// What some steps say.
pub open spec fn steps_view(v: Seq<Step>) -> Seq<StepView> {
    Seq::new(v.len(), |i: int| v[i]@)
}

/// What some outcomes say.
pub open spec fn outcomes_view(v: Seq<Option<Outcome>>) -> Seq<Option<OutcomeView>> {
    Seq::new(
        v.len(),
        |i: int|
            match v[i] {
                Some(o) => Some(o@),
                None => None,
            },
    )
}

/// So many of something, or a word for none.
pub open spec fn count_hint(n: nat, unit: Seq<char>, none: Seq<char>) -> Seq<char> {
    if n == 0 {
        none
    } else {
        decimal(n) + unit
    }
}

/// The file names of some paths.
pub open spec fn base_names(files: Seq<Seq<char>>) -> Seq<Seq<char>> {
    Seq::new(
        files.len(),
        |i: int|
            match file_name(files[i]) {
                Some(n) => n,
                None => Seq::empty(),
            },
    )
}

/// The hint of the step that trusts mise config files.
pub open spec fn mise_hint(files: Seq<Seq<char>>) -> Seq<char> {
    if files.len() == 0 {
        "no mise config"@
    } else {
        join(base_names(files), ", "@)
    }
}

/// The tool managers that a command goes through.
pub open spec fn managers(use_direnv: bool, use_mise: bool) -> Seq<char> {
    if use_direnv && use_mise {
        "direnv + mise"@
    } else if use_direnv {
        "direnv"@
    } else {
        "mise"@
    }
}

/// The hint of an install step.
pub open spec fn install_hint(label: Seq<char>, use_direnv: bool, use_mise: bool) -> Seq<char> {
    if !use_direnv && !use_mise {
        label
    } else {
        label + " (via "@ + managers(use_direnv, use_mise) + ")"@
    }
}

/// The steps that every job has.
pub open spec fn fixed_steps(
    plan: Seq<PlanItemView>,
    mise_files: Seq<Seq<char>>,
    has_envrc: bool,
) -> Seq<StepView> {
    seq![
        StepView {
            meta: (
                "copy dev state"@,
                count_hint(
                    pending(grouped(plan, Group::State)).len(),
                    " items"@,
                    "nothing to copy"@,
                ),
            ),
            kind: KindView::CopyState,
        },
        StepView {
            meta: (
                "clone caches"@,
                count_hint(
                    pending(grouped(plan, Group::Caches)).len(),
                    " dirs"@,
                    "nothing to clone"@,
                ),
            ),
            kind: KindView::CloneCaches,
        },
        StepView {
            meta: ("mise trust"@, mise_hint(mise_files)),
            kind: KindView::MiseTrust(mise_files),
        },
        StepView {
            meta: (
                "direnv allow"@,
                if has_envrc {
                    ".envrc"@
                } else {
                    "no .envrc"@
                },
            ),
            kind: KindView::DirenvAllow,
        },
    ]
}

/// The step for an install command.
pub open spec fn install_step(cmd: InstallView, use_direnv: bool, use_mise: bool) -> StepView {
    StepView {
        meta: (cmd.label, install_hint(cmd.label, use_direnv, use_mise)),
        kind: KindView::Install(cmd),
    }
}

/// The step for a custom step.
pub open spec fn custom_step(def: StepDefView) -> StepView {
    StepView { meta: (def.name, def.run), kind: KindView::Custom(def) }
}

/// All steps of a job.
pub open spec fn steps_for(
    plan: Seq<PlanItemView>,
    mise_files: Seq<Seq<char>>,
    has_envrc: bool,
    installs: Seq<InstallView>,
    custom: Seq<StepDefView>,
    use_direnv: bool,
    use_mise: bool,
) -> Seq<StepView> {
    fixed_steps(plan, mise_files, has_envrc) + Seq::new(
        installs.len(),
        |i: int| install_step(installs[i], use_direnv, use_mise),
    ) + Seq::new(custom.len(), |i: int| custom_step(custom[i]))
}

// --- the environment of a step -----------------------------------------------

/// `env` with `k` set to `v`, at its end.
pub open spec fn env_set(env: Seq<Pair>, k: Seq<char>, v: Seq<char>) -> Seq<Pair> {
    crate::envmap::without(env, k).push((k, v))
}

/// `env` with all of `more` set, one after the other.
pub open spec fn env_set_all(env: Seq<Pair>, more: Seq<Pair>) -> Seq<Pair>
    decreases more.len(),
{
    if more.len() == 0 {
        env
    } else {
        env_set(env_set_all(env, more.drop_last()), more.last().0, more.last().1)
    }
}

/// The text, or none.
pub open spec fn text_or_empty(s: Option<Seq<char>>) -> Seq<char> {
    match s {
        Some(t) => t,
        None => Seq::empty(),
    }
}

/// The environment of the steps of a job.
pub open spec fn step_env_for(env: Seq<Pair>, job: JobView, cfg: ConfigView) -> Seq<Pair> {
    let a = crate::envmap::without(env, "HWS_JOB"@);
    let b = env_set(a, "HWS_SOURCE"@, job.source);
    let c = env_set(b, "HWS_TARGET"@, job.target);
    let d = env_set(c, "HWS_BRANCH"@, text_or_empty(job.branch));
    let e = env_set(d, "HWS_WORKSPACE_ID"@, text_or_empty(job.workspace_id));
    let f = if cfg.color {
        env_set(e, "FORCE_COLOR"@, "1"@)
    } else {
        e
    };
    env_set_all(f, cfg.env)
}

fn remove_name(env: Vec<(String, String)>, k: &str) -> (r: Vec<(String, String)>)
    ensures
        pair_texts(r@) == crate::envmap::without(pair_texts(env@), k@),
{
    let ghost p = pair_texts(env@);
    let mut kept: Vec<(String, String)> = Vec::new();
    let mut i: usize = 0;
    proof {
        reveal(Seq::filter);
        assert(pair_texts(kept@) =~= crate::envmap::without(p.take(0), k@));
    }
    while i < env.len()
        invariant
            i <= env.len(),
            p == pair_texts(env@),
            pair_texts(kept@) == crate::envmap::without(p.take(i as int), k@),
        decreases env.len() - i,
    {
        proof {
            reveal(Seq::filter);
            assert(p.take(i + 1).drop_last() =~= p.take(i as int));
            assert(p.take(i + 1).last() == p[i as int]);
        }
        let ghost before = kept@;
        if !same(env[i].0.as_str(), k) {
            kept.push((env[i].0.clone(), env[i].1.clone()));
            assert(pair_texts(kept@) =~= pair_texts(before).push(p[i as int]));
        }
        i += 1;
    }
    assert(p.take(i as int) =~= p);
    kept
}

fn set_name(env: Vec<(String, String)>, k: &str, v: &str) -> (r: Vec<(String, String)>)
    ensures
        pair_texts(r@) == env_set(pair_texts(env@), k@, v@),
{
    let mut out = remove_name(env, k);
    let ghost before = out@;
    out.push((k.to_owned(), v.to_owned()));
    assert(pair_texts(out@) =~= pair_texts(before).push((k@, v@)));
    out
}

fn or_empty(s: &Option<String>) -> (r: String)
    ensures
        r@ == text_or_empty(option_text(*s)),
{
    match s {
        Some(t) => t.clone(),
        None => {
            let e = String::new();
            assert(e@ =~= Seq::empty());
            e
        },
    }
}

/// The environment of the steps of a job.
fn make_step_env(env: &ResolvedEnv, job: &Job, cfg: &Config) -> (r: Vec<(String, String)>)
    ensures
        pair_texts(r@) == step_env_for(env.vars@, job@, cfg@),
{
    let mut out = remove_name(env.to_vec(), "HWS_JOB");
    out = set_name(out, "HWS_SOURCE", job.source.as_str());
    out = set_name(out, "HWS_TARGET", job.target.as_str());
    out = set_name(out, "HWS_BRANCH", or_empty(&job.branch).as_str());
    out = set_name(out, "HWS_WORKSPACE_ID", or_empty(&job.workspace_id).as_str());
    if cfg.color {
        out = set_name(out, "FORCE_COLOR", "1");
    }
    let ghost start = pair_texts(out@);
    let ghost more = cfg.env@;
    let mut i: usize = 0;
    assert(more.take(0) =~= Seq::empty());
    while i < cfg.env.len()
        invariant
            i <= more.len(),
            more == cfg.env@,
            pair_texts(out@) == env_set_all(start, more.take(i as int)),
        decreases more.len() - i,
    {
        assert(more.take(i + 1).drop_last() =~= more.take(i as int));
        assert(more.take(i + 1).last() == more[i as int]);
        out = set_name(out, cfg.env.name(i).as_str(), cfg.env.value(i).as_str());
        i += 1;
    }
    assert(more.take(i as int) =~= more);
    out
}

// --- the pipeline ------------------------------------------------------------

/// The steps of a job, and how far they have come.
#[derive(Debug)]
pub struct Pipeline {
    job: Job,
    cfg: Config,
    env: ResolvedEnv,
    plan: CopyPlan,
    steps: Vec<Step>,
    outcomes: Vec<Option<Outcome>>,
    step_env: Vec<(String, String)>,
    use_mise: bool,
    use_direnv: bool,
    mise_bin: Option<String>,
    direnv_bin: Option<String>,
    step_timeout: Option<u128>,
    home: Option<String>,
}

/// What a pipeline goes by.
#[verifier::ext_equal]
pub struct PipelineView {
    pub job: JobView,
    pub cfg: ConfigView,
    /// Where the environment comes from, for people.
    pub env_text: Seq<char>,
    pub plan: Seq<PlanItemView>,
    pub steps: Seq<StepView>,
    pub outcomes: Seq<Option<OutcomeView>>,
    pub step_env: Seq<Pair>,
    pub use_mise: bool,
    pub use_direnv: bool,
    pub mise_bin: Option<Seq<char>>,
    pub direnv_bin: Option<Seq<char>>,
    pub step_timeout: Option<u128>,
    pub home: Option<Seq<char>>,
}

impl View for Pipeline {
    type V = PipelineView;

    closed spec fn view(&self) -> PipelineView {
        PipelineView {
            job: self.job@,
            cfg: self.cfg@,
            env_text: self.env.text(),
            plan: items_view(self.plan.items@),
            steps: steps_view(self.steps@),
            outcomes: outcomes_view(self.outcomes@),
            step_env: pair_texts(self.step_env@),
            use_mise: self.use_mise,
            use_direnv: self.use_direnv,
            mise_bin: option_text(self.mise_bin),
            direnv_bin: option_text(self.direnv_bin),
            step_timeout: self.step_timeout,
            home: option_text(self.home),
        }
    }
}

/// The limit on a step, in nanoseconds.
pub open spec fn timeout_of(secs: u64) -> Option<u128> {
    if secs > 0 {
        Some((secs * 1000000000) as u128)
    } else {
        None
    }
}

/// The pipeline for a job, from its plan and what there is in the worktree.
pub open spec fn assembled(
    job: JobView,
    cfg: ConfigView,
    env: ResolvedEnv,
    plan: Seq<PlanItemView>,
    mise_files: Seq<Seq<char>>,
    has_envrc: bool,
    installs: Seq<InstallView>,
    mise_bin: Option<Seq<char>>,
    direnv_bin: Option<Seq<char>>,
    home: Option<Seq<char>>,
) -> PipelineView {
    let use_mise = cfg.use_mise && mise_files.len() > 0 && mise_bin is Some;
    let use_direnv = cfg.use_direnv && has_envrc && direnv_bin is Some;
    let steps = steps_for(
        plan,
        mise_files,
        has_envrc,
        installs,
        cfg.steps,
        use_direnv,
        use_mise,
    );
    PipelineView {
        job,
        cfg,
        env_text: env.text(),
        plan,
        steps,
        outcomes: Seq::new(steps.len(), |i: int| None),
        step_env: step_env_for(env.vars@, job, cfg),
        use_mise,
        use_direnv,
        mise_bin,
        direnv_bin,
        step_timeout: timeout_of(cfg.step_timeout_secs),
        home,
    }
}

/// Why a job cannot be started, if it cannot.
pub fn missing_dir(job: &Job, target_is_dir: bool, source_is_dir: bool) -> (r: Option<String>)
    ensures
        option_text(r) == if !target_is_dir {
            Some("worktree "@ + job@.target + " does not exist"@)
        } else if !source_is_dir {
            Some("source checkout "@ + job@.source + " does not exist"@)
        } else {
            None
        },
{
    if !target_is_dir {
        return Some(glue3("worktree ", job.target.as_str(), " does not exist"));
    }
    if !source_is_dir {
        return Some(glue3("source checkout ", job.source.as_str(), " does not exist"));
    }
    None
}

/// The rules for a job.
pub fn rules_for(cfg: &Config) -> (r: Result<Rules, String>)
    ensures
        match r {
            Ok(rules) => rules_fault(cfg@.exclude, cfg@.symlink, cfg@.clone, cfg@.copy) is None
                && rules@ == rules_of(cfg@.exclude, cfg@.symlink, cfg@.clone, cfg@.copy),
            Err(e) => rules_fault(cfg@.exclude, cfg@.symlink, cfg@.clone, cfg@.copy) matches Some(f)
                && reports_behind(e@, "invalid copy/clone/exclude patterns: "@, f),
        },
{
    match Rules::from_config(cfg) {
        Ok(rules) => Ok(rules),
        Err(e) => {
            let r = glue("invalid copy/clone/exclude patterns: ", e.as_str());
            let ghost words = "invalid copy/clone/exclude patterns: "@;
            assert(r@.take(words.len() as int) =~= words);
            assert(r@.skip(words.len() as int) =~= e@);
            Err(r)
        },
    }
}

fn hint_of(n: usize, unit: &str, none: &str) -> (r: String)
    ensures
        r@ == count_hint(n as nat, unit@, none@),
{
    if n == 0 {
        none.to_owned()
    } else {
        glue(count_text(n).as_str(), unit)
    }
}

fn mise_hint_of(files: &Vec<String>) -> (r: String)
    ensures
        r@ == mise_hint(texts(files@)),
{
    broadcast use lemma_texts_push;

    if files.len() == 0 {
        return "no mise config".to_owned();
    }
    let ghost all = base_names(texts(files@));
    let mut shown: Vec<String> = Vec::new();
    let mut i: usize = 0;
    while i < files.len()
        invariant
            i <= files.len(),
            all == base_names(texts(files@)),
            texts(shown@) =~= all.take(i as int),
        decreases files.len() - i,
    {
        let name = match file_name_of(files[i].as_str()) {
            Some(n) => n,
            None => {
                let e = String::new();
                assert(e@ =~= Seq::empty());
                e
            },
        };
        assert(all.take(i as int).push(name@) =~= all.take(i + 1));
        shown.push(name);
        i += 1;
    }
    assert(all.take(i as int) =~= all);
    join_with(&shown, ", ")
}

fn install_hint_of(label: &str, use_direnv: bool, use_mise: bool) -> (r: String)
    ensures
        r@ == install_hint(label@, use_direnv, use_mise),
{
    if !use_direnv && !use_mise {
        return label.to_owned();
    }
    let via = if use_direnv && use_mise {
        "direnv + mise"
    } else if use_direnv {
        "direnv"
    } else {
        "mise"
    };
    let mut out = glue3(label, " (via ", via);
    out.append(")");
    out
}

fn push_step(steps: &mut Vec<Step>, step: Step)
    ensures
        steps_view(final(steps)@) == steps_view(old(steps)@).push(step@),
{
    let ghost before = steps@;
    steps.push(step);
    assert(steps_view(steps@) =~= steps_view(before).push(step@));
}

fn make_fixed_steps(plan: &CopyPlan, mise_files: Vec<String>, has_envrc: bool) -> (r: Vec<Step>)
    ensures
        steps_view(r@) == fixed_steps(items_view(plan.items@), texts(mise_files@), has_envrc),
{
    let ghost p = items_view(plan.items@);
    let ghost m = texts(mise_files@);
    let state = plan.pending_in(Group::State);
    let caches = plan.pending_in(Group::Caches);
    assert(crate::planner::refs_view(state@).len() == state@.len());
    assert(crate::planner::refs_view(caches@).len() == caches@.len());
    let mut steps: Vec<Step> = Vec::new();
    push_step(
        &mut steps,
        Step {
            meta: StepMeta {
                name: "copy dev state".to_owned(),
                hint: hint_of(state.len(), " items", "nothing to copy"),
            },
            kind: StepKind::CopyState,
        },
    );
    push_step(
        &mut steps,
        Step {
            meta: StepMeta {
                name: "clone caches".to_owned(),
                hint: hint_of(caches.len(), " dirs", "nothing to clone"),
            },
            kind: StepKind::CloneCaches,
        },
    );
    let hint = mise_hint_of(&mise_files);
    push_step(
        &mut steps,
        Step {
            meta: StepMeta { name: "mise trust".to_owned(), hint },
            kind: StepKind::MiseTrust(mise_files),
        },
    );
    push_step(
        &mut steps,
        Step {
            meta: StepMeta {
                name: "direnv allow".to_owned(),
                hint: if has_envrc {
                    ".envrc".to_owned()
                } else {
                    "no .envrc".to_owned()
                },
            },
            kind: StepKind::DirenvAllow,
        },
    );
    assert(steps_view(steps@) =~= fixed_steps(p, m, has_envrc));
    steps
}

fn add_installs(steps: &mut Vec<Step>, installs: &Vec<InstallCmd>, use_direnv: bool, use_mise: bool)
    ensures
        steps_view(final(steps)@) == steps_view(old(steps)@) + Seq::new(
            installs@.len(),
            |i: int| install_step(installs@[i]@, use_direnv, use_mise),
        ),
{
    let ghost start = steps_view(steps@);
    let ghost all = Seq::new(
        installs@.len(),
        |i: int| install_step(installs@[i]@, use_direnv, use_mise),
    );
    let mut i: usize = 0;
    assert(start + all.take(0) =~= start);
    while i < installs.len()
        invariant
            i <= installs.len(),
            all == Seq::new(
                installs@.len(),
                |i: int| install_step(installs@[i]@, use_direnv, use_mise),
            ),
            steps_view(steps@) == start + all.take(i as int),
        decreases installs.len() - i,
    {
        let cmd = installs[i].clone();
        let step = Step {
            meta: StepMeta {
                name: cmd.label.clone(),
                hint: install_hint_of(cmd.label.as_str(), use_direnv, use_mise),
            },
            kind: StepKind::Install(cmd),
        };
        assert(step@ == all[i as int]);
        push_step(steps, step);
        assert(steps_view(steps@) =~= start + all.take(i + 1));
        i += 1;
    }
    assert(all.take(i as int) =~= all);
}

fn add_custom(steps: &mut Vec<Step>, custom: &Vec<StepDef>)
    ensures
        steps_view(final(steps)@) == steps_view(old(steps)@) + Seq::new(
            custom@.len(),
            |i: int| custom_step(custom@[i]@),
        ),
{
    let ghost start = steps_view(steps@);
    let ghost all = Seq::new(custom@.len(), |i: int| custom_step(custom@[i]@));
    let mut i: usize = 0;
    assert(start + all.take(0) =~= start);
    while i < custom.len()
        invariant
            i <= custom.len(),
            all == Seq::new(custom@.len(), |i: int| custom_step(custom@[i]@)),
            steps_view(steps@) == start + all.take(i as int),
        decreases custom.len() - i,
    {
        let def = custom[i].clone();
        let step = Step {
            meta: StepMeta { name: def.name.clone(), hint: def.run.clone() },
            kind: StepKind::Custom(def),
        };
        assert(step@ == all[i as int]);
        push_step(steps, step);
        assert(steps_view(steps@) =~= start + all.take(i + 1));
        i += 1;
    }
    assert(all.take(i as int) =~= all);
}

fn no_outcomes(n: usize) -> (r: Vec<Option<Outcome>>)
    ensures
        r@.len() == n,
        outcomes_view(r@) == Seq::new(n as nat, |i: int| None::<OutcomeView>),
{
    let mut out: Vec<Option<Outcome>> = Vec::new();
    let mut i: usize = 0;
    while i < n
        invariant
            i <= n,
            out@.len() == i,
            forall|k: int| 0 <= k < i ==> (#[trigger] out@[k]) is None,
        decreases n - i,
    {
        out.push(None);
        i += 1;
    }
    assert(outcomes_view(out@) =~= Seq::new(n as nat, |i: int| None::<OutcomeView>));
    out
}

impl Pipeline {
    #[verifier::type_invariant]
    spec fn one_outcome_each(self) -> bool {
        self.steps@.len() == self.outcomes@.len()
    }

    /// The pipeline for a job, from the environment of its steps, its plan, the
    /// mise config files of the worktree, whether it has an `.envrc`, its install
    /// commands, and where `mise` and `direnv` were found.
    fn assemble(
        job: Job,
        cfg: Config,
        env: ResolvedEnv,
        plan: CopyPlan,
        mise_files: Vec<String>,
        has_envrc: bool,
        installs: Vec<InstallCmd>,
        mise_bin: Option<String>,
        direnv_bin: Option<String>,
        home: Option<String>,
    ) -> (r: Pipeline)
        ensures
            r@ == assembled(
                job@,
                cfg@,
                env,
                items_view(plan.items@),
                texts(mise_files@),
                has_envrc,
                crate::detect::installs_view(installs@),
                option_text(mise_bin),
                option_text(direnv_bin),
                option_text(home),
            ),
    {
        let use_mise = cfg.use_mise && mise_files.len() > 0 && mise_bin.is_some();
        let use_direnv = cfg.use_direnv && has_envrc && direnv_bin.is_some();
        let ghost files = texts(mise_files@);
        let ghost inst = crate::detect::installs_view(installs@);
        let mut steps = make_fixed_steps(&plan, mise_files, has_envrc);
        let ghost a = steps_view(steps@);
        add_installs(&mut steps, &installs, use_direnv, use_mise);
        assert(steps_view(steps@) =~= a + Seq::new(
            inst.len(),
            |i: int| install_step(inst[i], use_direnv, use_mise),
        ));
        let ghost b = steps_view(steps@);
        add_custom(&mut steps, &cfg.steps);
        assert(steps_view(steps@) =~= b + Seq::new(
            cfg@.steps.len(),
            |i: int| custom_step(cfg@.steps[i]),
        ));
        let step_env = make_step_env(&env, &job, &cfg);
        let step_timeout: Option<u128> = if cfg.step_timeout_secs > 0 {
            Some(cfg.step_timeout_secs as u128 * 1000000000)
        } else {
            None
        };
        let outcomes = no_outcomes(steps.len());
        let r = Pipeline {
            job,
            cfg,
            env,
            plan,
            steps,
            outcomes,
            step_env,
            use_mise,
            use_direnv,
            mise_bin,
            direnv_bin,
            step_timeout,
            home,
        };
        assert(r@ =~= assembled(
            job@,
            cfg@,
            env,
            items_view(plan.items@),
            files,
            has_envrc,
            inst,
            option_text(mise_bin),
            option_text(direnv_bin),
            option_text(home),
        ));
        r
    }
}

/// What was gathered for a job.
#[derive(Debug)]
pub struct Gathered {
    pub env: ResolvedEnv,
    /// Whether git could tell the branch of the worktree, and what it printed.
    pub branch: Option<(bool, Vec<u8>)>,
    /// Git's listing of the ignored paths of the source checkout.
    pub ignored: Vec<u8>,
    /// What there is at each of the listed paths.
    pub stats: Vec<EntryStat>,
    /// Git's listing of the files that are tracked under the listed directories.
    pub in_git: Vec<u8>,
    /// What the directories hold that are looked into.
    pub listings: Vec<Listing>,
    /// What there is in the worktree where something may be copied to.
    pub view: TargetView,
    /// Those of the files that tell of tools that the worktree has.
    pub files: Vec<String>,
    pub package_json: Option<String>,
    /// The canonical path of the source checkout.
    pub canonical_source: Option<String>,
    pub mise_bin: Option<String>,
    pub direnv_bin: Option<String>,
    pub home: Option<String>,
}

/// The rules of a configuration.
pub open spec fn cfg_rules(cfg: ConfigView) -> RulesView {
    rules_of(cfg.exclude, cfg.symlink, cfg.clone, cfg.copy)
}

/// Why there is no pipeline for a job.
#[verifier::ext_equal]
pub enum Unready {
    /// Its patterns make no rules.
    Patterns(Fault),
    /// Another number of ignored paths was looked at than git listed.
    Changed,
}

/// Why there is no pipeline for a job, where there is none.
pub open spec fn not_prepared(cfg: ConfigView, g: Gathered) -> Option<Unready> {
    match rules_fault(cfg.exclude, cfg.symlink, cfg.clone, cfg.copy) {
        Some(f) => Some(Unready::Patterns(f)),
        None => if g.stats@.len() != entries_of(lossy_texts(records(g.ignored@))).len() {
            Some(Unready::Changed)
        } else {
            None
        },
    }
}

/// Whether a text says why there is no pipeline.
pub open spec fn explains(text: Seq<char>, why: Unready) -> bool {
    match why {
        Unready::Patterns(f) => reports_behind(text, "invalid copy/clone/exclude patterns: "@, f),
        Unready::Changed => text == "the ignored paths changed while they were looked at"@,
    }
}

/// The plan for a job.
pub open spec fn plan_for(job: JobView, cfg: ConfigView, g: Gathered) -> Seq<PlanItemView> {
    planned(
        cfg_rules(cfg),
        listings_view(g.listings@),
        ignored(g.ignored@, g.stats@, g.in_git@),
        job.target,
        texts(g.view.present@),
        texts(g.view.symlinks@),
    )
}

/// The pipeline for a job, from what was gathered for it.
pub open spec fn prepared(job: JobView, cfg: ConfigView, g: Gathered) -> PipelineView {
    assembled(
        on_branch(job, g.branch),
        cfg,
        g.env,
        plan_for(job, cfg, g),
        paths_present(job.target, mise_files(), texts(g.files@)),
        texts(g.files@).contains(".envrc"@),
        installs(texts(g.files@), declared(option_text(g.package_json))),
        option_text(g.mise_bin),
        option_text(g.direnv_bin),
        option_text(g.home),
    )
}

impl Pipeline {
    /// The pipeline for a job, and what copies for it, from what was gathered.
    pub fn prepare(job: Job, cfg: Config, g: Gathered) -> (r: Result<(Pipeline, Copier), String>)
        ensures
            match r {
                Ok(p) => not_prepared(cfg@, g) is None && p.0@ == prepared(job@, cfg@, g) && p.1@
                    == copier_for(
                    job@.source,
                    job@.target,
                    option_text(g.canonical_source),
                    cfg@,
                    cfg_rules(cfg@),
                ),
                Err(e) => not_prepared(cfg@, g) matches Some(why) && explains(e@, why),
            },
    {
        let mut job = job;
        let ghost given = job@;
        job.fill_branch(g.branch);
        let rules = match rules_for(&cfg) {
            Ok(rules) => rules,
            Err(e) => {
                return Err(e);
            },
        };
        let cands = match list_ignored(g.ignored.as_slice(), &g.stats, g.in_git.as_slice()) {
            Some(cands) => cands,
            None => {
                return Err("the ignored paths changed while they were looked at".to_owned());
            },
        };
        let plan = CopyPlan::build(job.target.as_str(), &cands, &rules, &g.listings, &g.view);
        let copier = Copier::new(
            job.source.as_str(),
            job.target.as_str(),
            g.canonical_source,
            &cfg,
            rules,
        );
        let mise_files = mise_config_files(job.target.as_str(), &g.files);
        let has_envrc = has_envrc(&g.files);
        let package_json = match &g.package_json {
            Some(s) => Some(s.as_str()),
            None => None,
        };
        let installs = detect_installs(&g.files, package_json);
        let pipeline = Pipeline::assemble(
            job,
            cfg,
            g.env,
            plan,
            mise_files,
            has_envrc,
            installs,
            g.mise_bin,
            g.direnv_bin,
            g.home,
        );
        Ok((pipeline, copier))
    }
}

/// A path as it is shown: `~` stands for the home directory.
pub open spec fn shortened(path: Seq<char>, home: Option<Seq<char>>) -> Seq<char> {
    match home {
        Some(h) => if h.len() > 0 && starts(path, h) {
            "~"@ + path.skip(h.len() as int)
        } else {
            path
        },
        None => path,
    }
}

/// A path as it is shown: `~` stands for the home directory.
pub fn shorten_home(path: &str, home: &Option<String>) -> (r: String)
    ensures
        r@ == shortened(path@, option_text(*home)),
{
    match home {
        Some(h) => {
            if !h.as_str().is_empty() && starts_with(path, h.as_str()) {
                let chars = chars_of(path);
                let n: usize = chars_of(h.as_str()).len();
                let rest = string_of(&chars, n, chars.len());
                assert(rest@ =~= path@.skip(n as int));
                glue("~", rest.as_str())
            } else {
                path.to_owned()
            }
        },
        None => path.to_owned(),
    }
}

/// The config files of a run as they are shown.
pub open spec fn layer_texts(cfg: ConfigView, home: Option<Seq<char>>) -> Seq<Seq<char>> {
    Seq::new(cfg.layers.len(), |i: int| shortened(cfg.layers[i].1, home))
}

/// What a run is about.
pub open spec fn header_of(p: PipelineView) -> HeaderView {
    HeaderView {
        repo_name: p.job.repo_name,
        branch: p.job.branch,
        source: shortened(p.job.source, p.home),
        target: shortened(p.job.target, p.home),
        env_origin: p.env_text,
        dry_run: p.job.dry_run,
        layers: layer_texts(p.cfg, p.home),
        warnings: p.cfg.warnings,
    }
}

/// Whether a step failed.
pub open spec fn has_failed(o: Option<OutcomeView>) -> bool {
    o matches Some(OutcomeView::Failed(_))
}

/// Whether no step failed.
pub open spec fn none_failed(outcomes: Seq<Option<OutcomeView>>) -> bool {
    forall|i: int| 0 <= i < outcomes.len() ==> !has_failed(#[trigger] outcomes[i])
}

/// The steps that failed, of the first `n`, in order.
pub open spec fn failed_of(outcomes: Seq<Option<OutcomeView>>, n: nat) -> Seq<nat>
    decreases n,
{
    if n == 0 {
        Seq::empty()
    } else {
        let r = failed_of(outcomes, (n - 1) as nat);
        if has_failed(outcomes[n - 1]) {
            r.push((n - 1) as nat)
        } else {
            r
        }
    }
}

/// Some numbers.
pub open spec fn numbers(v: Seq<usize>) -> Seq<nat> {
    Seq::new(v.len(), |i: int| v[i] as nat)
}

fn is_failed(o: &Option<Outcome>) -> (r: bool)
    ensures
        r == has_failed(
            match *o {
                Some(x) => Some(x@),
                None => None,
            },
        ),
{
    match o {
        Some(Outcome::Failed(_)) => true,
        _ => false,
    }
}

impl Pipeline {
    /// What the run is about.
    pub fn header(&self) -> (r: Header)
        ensures
            r@ == header_of(self@),
    {
        broadcast use lemma_texts_push;

        let ghost all = layer_texts(self@.cfg, self@.home);
        let mut layers: Vec<String> = Vec::new();
        let mut i: usize = 0;
        while i < self.cfg.layers.len()
            invariant
                i <= self.cfg.layers.len(),
                all == layer_texts(self@.cfg, self@.home),
                all.len() == self.cfg.layers@.len(),
                texts(layers@) =~= all.take(i as int),
            decreases self.cfg.layers.len() - i,
        {
            assert(self@.cfg.layers[i as int].1 == self.cfg.layers@[i as int].1@);
            let t = shorten_home(self.cfg.layers[i].1.as_str(), &self.home);
            assert(all.take(i as int).push(t@) =~= all.take(i + 1));
            layers.push(t);
            i += 1;
        }
        assert(all.take(i as int) =~= all);
        Header {
            repo_name: self.job.repo_name.clone(),
            branch: copy_option(&self.job.branch),
            source: shorten_home(self.job.source.as_str(), &self.home),
            target: shorten_home(self.job.target.as_str(), &self.home),
            env_origin: self.env.describe(),
            dry_run: self.job.dry_run,
            layers,
            warnings: copy_list(&self.cfg.warnings),
        }
    }

    /// The names and the hints of the steps.
    pub fn metas(&self) -> (r: Vec<StepMeta>)
        ensures
            metas_view(r@) == Seq::new(self@.steps.len(), |i: int| self@.steps[i].meta),
    {
        let ghost all = Seq::new(self@.steps.len(), |i: int| self@.steps[i].meta);
        let mut out: Vec<StepMeta> = Vec::new();
        let mut i: usize = 0;
        while i < self.steps.len()
            invariant
                i <= self.steps.len(),
                self@.steps.len() == self.steps@.len(),
                all == Seq::new(self@.steps.len(), |i: int| self@.steps[i].meta),
                metas_view(out@) =~= all.take(i as int),
            decreases self.steps.len() - i,
        {
            let ghost before = out@;
            assert(self@.steps[i as int] == self.steps@[i as int]@);
            out.push(self.steps[i].meta.clone());
            assert(metas_view(out@) =~= metas_view(before).push(all[i as int]));
            i += 1;
        }
        assert(all.take(i as int) =~= all);
        out
    }

    /// How many steps there are.
    pub fn len(&self) -> (r: usize)
        ensures
            r == self@.steps.len(),
            self@.outcomes.len() == self@.steps.len(),
    {
        proof {
            use_type_invariant(self);
        }
        self.steps.len()
    }

    /// What a step does, if there is such a step.
    pub fn step_kind(&self, idx: usize) -> (r: Option<&StepKind>)
        ensures
            match r {
                Some(k) => idx < self@.steps.len() && k@ == self@.steps[idx as int].kind,
                None => idx >= self@.steps.len(),
            },
    {
        if idx < self.steps.len() {
            assert(self@.steps[idx as int] == self.steps@[idx as int]@);
            Some(&self.steps[idx].kind)
        } else {
            None
        }
    }

    /// The job that the steps are for.
    pub fn job(&self) -> (r: &Job)
        ensures
            r@ == self@.job,
    {
        &self.job
    }

    /// Whether no step failed.
    pub fn all_ok(&self) -> (r: bool)
        ensures
            r == none_failed(self@.outcomes),
    {
        let mut i: usize = 0;
        while i < self.outcomes.len()
            invariant
                i <= self.outcomes.len(),
                self@.outcomes.len() == self.outcomes@.len(),
                forall|k: int| 0 <= k < i ==> !has_failed(#[trigger] self@.outcomes[k]),
            decreases self.outcomes.len() - i,
        {
            if is_failed(&self.outcomes[i]) {
                assert(has_failed(self@.outcomes[i as int]));
                return false;
            }
            i += 1;
        }
        true
    }

    /// The steps that failed.
    pub fn failed_indices(&self) -> (r: Vec<usize>)
        ensures
            numbers(r@) == failed_of(self@.outcomes, self@.outcomes.len()),
    {
        let mut out: Vec<usize> = Vec::new();
        let mut i: usize = 0;
        assert(numbers(out@) =~= failed_of(self@.outcomes, 0));
        while i < self.outcomes.len()
            invariant
                i <= self.outcomes.len(),
                self@.outcomes.len() == self.outcomes@.len(),
                numbers(out@) == failed_of(self@.outcomes, i as nat),
            decreases self.outcomes.len() - i,
        {
            if is_failed(&self.outcomes[i]) {
                assert(has_failed(self@.outcomes[i as int]));
                let ghost before = out@;
                out.push(i);
                assert(numbers(out@) =~= numbers(before).push(i as nat));
            } else {
                assert(!has_failed(self@.outcomes[i as int]));
            }
            i += 1;
        }
        out
    }

    /// The steps to run for a retry: those that were asked for, or all that
    /// failed where none was.
    pub fn retry_indices(&self, asked: Vec<usize>) -> (r: Vec<usize>)
        ensures
            numbers(r@) == if asked@.len() == 0 {
                failed_of(self@.outcomes, self@.outcomes.len())
            } else {
                numbers(asked@)
            },
    {
        if asked.len() == 0 {
            self.failed_indices()
        } else {
            asked
        }
    }

    /// The steps to run at first: all of them.
    pub fn run_all(&self) -> (r: Vec<usize>)
        ensures
            numbers(r@) == Seq::new(self@.steps.len(), |i: int| i as nat),
    {
        let mut out: Vec<usize> = Vec::new();
        let mut i: usize = 0;
        let ghost all = Seq::new(self@.steps.len(), |i: int| i as nat);
        while i < self.steps.len()
            invariant
                i <= self.steps.len(),
                self@.steps.len() == self.steps@.len(),
                all == Seq::new(self@.steps.len(), |i: int| i as nat),
                numbers(out@) =~= all.take(i as int),
            decreases self.steps.len() - i,
        {
            let ghost before = out@;
            out.push(i);
            assert(numbers(out@) =~= numbers(before).push(i as nat));
            i += 1;
        }
        assert(all.take(i as int) =~= all);
        out
    }

    /// Those of the steps that are asked for that there are, in the order in
    /// which they run.
    pub fn run_indices(&self, idxs: &Vec<usize>) -> (r: Vec<usize>)
        ensures
            numbers(r@) == numbers(idxs@).filter(|i: nat| i < self@.steps.len()),
    {
        let ghost all = numbers(idxs@);
        let ghost there = |i: nat| i < self@.steps.len();
        let mut out: Vec<usize> = Vec::new();
        let mut k: usize = 0;
        proof {
            reveal(Seq::filter);
            assert(numbers(out@) =~= all.take(0).filter(there));
        }
        while k < idxs.len()
            invariant
                k <= idxs.len(),
                all == numbers(idxs@),
                there == (|i: nat| i < self@.steps.len()),
                self@.steps.len() == self.steps@.len(),
                numbers(out@) == all.take(k as int).filter(there),
            decreases idxs.len() - k,
        {
            proof {
                reveal(Seq::filter);
                assert(all.take(k + 1).drop_last() =~= all.take(k as int));
                assert(all.take(k + 1).last() == idxs@[k as int] as nat);
            }
            let idx: usize = idxs[k];
            if idx < self.steps.len() {
                let ghost before = out@;
                out.push(idx);
                assert(numbers(out@) =~= numbers(before).push(idx as nat));
            }
            k += 1;
        }
        assert(all.take(k as int) =~= all);
        out
    }

    /// The outcome of a step that is not run because the run was aborted.
    pub fn aborted() -> (r: Outcome)
        ensures
            r@ == OutcomeView::Skipped("aborted"@),
    {
        Outcome::Skipped("aborted".to_owned())
    }

    /// Take note of the outcome of a step. A step that is not there has none.
    pub fn record(&mut self, idx: usize, outcome: Outcome)
        ensures
            final(self)@ == (PipelineView {
                outcomes: if idx < old(self)@.steps.len() {
                    old(self)@.outcomes.update(idx as int, Some(outcome@))
                } else {
                    old(self)@.outcomes
                },
                ..old(self)@
            }),
    {
        proof {
            use_type_invariant(&*self);
        }
        if idx < self.steps.len() {
            let mut outcomes: Vec<Option<Outcome>> = Vec::new();
            let ghost before = outcomes_view(self.outcomes@);
            let n: usize = self.outcomes.len();
            let mut k: usize = 0;
            while k < n
                invariant
                    k <= n,
                    n == self.outcomes@.len(),
                    idx < n,
                    before == outcomes_view(self.outcomes@),
                    outcomes@.len() == k,
                    outcomes_view(outcomes@) =~= before.update(idx as int, Some(outcome@)).take(
                        k as int,
                    ),
                decreases n - k,
            {
                let o = if k == idx {
                    Some(outcome.clone())
                } else {
                    match &self.outcomes[k] {
                        Some(x) => Some(x.clone()),
                        None => None,
                    }
                };
                let ghost so_far = outcomes@;
                outcomes.push(o);
                assert(outcomes_view(outcomes@) =~= outcomes_view(so_far).push(
                    before.update(idx as int, Some(outcome@))[k as int],
                ));
                k += 1;
            }
            assert(before.update(idx as int, Some(outcome@)).take(n as int) =~= before.update(
                idx as int,
                Some(outcome@),
            ));
            self.outcomes = outcomes;
        }
    }
}

// --- copying -----------------------------------------------------------------

/// The line for an item that is already there.
pub open spec fn kept_line(rel: Seq<char>) -> Seq<char> {
    "= "@ + rel + "  (already in worktree, kept)"@
}

/// The line for an item that is refused.
pub open spec fn refused_line(rel: Seq<char>, reason: Seq<char>) -> Seq<char> {
    "! "@ + rel + "  refused: "@ + reason
}

/// The line for an item in a dry run.
pub open spec fn would_line(item: PlanItemView) -> Seq<char> {
    "~ would "@ + (match item.action {
        Some(a) => a.text(),
        None => "copy"@,
    }) + " "@ + item.rel + if item.is_symlink {
        " (symlink)"@
    } else if item.is_dir {
        "/"@
    } else {
        ""@
    }
}

/// The line for each of some items.
pub open spec fn item_lines(items: Seq<PlanItemView>, f: spec_fn(PlanItemView) -> Seq<char>) -> Seq<
    Seq<char>,
> {
    Seq::new(items.len(), |i: int| f(items[i]))
}

/// The line for a kept item.
pub open spec fn kept_item() -> spec_fn(PlanItemView) -> Seq<char> {
    |i: PlanItemView| kept_line(i.rel)
}

/// The line for a blocked item.
pub open spec fn blocked_item() -> spec_fn(PlanItemView) -> Seq<char> {
    |i: PlanItemView| refused_line(i.rel, i.state->Blocked_0)
}

/// The line for an item in a dry run.
pub open spec fn would_item() -> spec_fn(PlanItemView) -> Seq<char> {
    |i: PlanItemView| would_line(i)
}

/// What is said before a group is copied.
pub open spec fn start_lines(items: Seq<PlanItemView>, dry_run: bool) -> Seq<Seq<char>> {
    item_lines(existing(items), kept_item()) + item_lines(blocked(items), blocked_item()) + if dry_run {
        item_lines(pending(items), would_item())
    } else {
        Seq::empty()
    }
}

/// How refused items are reported.
pub open spec fn refused_text(n: nat) -> Seq<char> {
    decimal(n) + " refused for safety"@
}

/// The outcome of copying a group where nothing is to be copied.
pub open spec fn start_outcome(
    items: Seq<PlanItemView>,
    group: Group,
    dry_run: bool,
) -> Option<OutcomeView> {
    let n = blocked(items).len();
    if pending(items).len() == 0 {
        if n > 0 {
            Some(OutcomeView::Failed(refused_text(n)))
        } else {
            Some(
                OutcomeView::Skipped(
                    match group {
                        Group::State => "nothing to copy"@,
                        Group::Caches => "nothing to clone"@,
                    },
                ),
            )
        }
    } else if dry_run {
        if n > 0 {
            Some(OutcomeView::Failed(refused_text(n)))
        } else {
            Some(OutcomeView::Succeeded(decimal(pending(items).len()) + " planned"@))
        }
    } else {
        None
    }
}

/// How copying a group starts: what is said, and the outcome where it is over
/// with that, else the items to be copied and an empty tally.
#[derive(Debug)]
pub struct CopyStart {
    pub lines: Vec<String>,
    pub next: CopyNext,
}

#[derive(Debug)]
pub enum CopyNext {
    Over(Outcome),
    Apply { items: Vec<PlanItem>, tally: CopyTally },
}

/// What has come of copying the items of a group so far.
#[derive(Debug)]
pub struct CopyTally {
    pub group: Group,
    pub total: usize,
    pub done: usize,
    pub failed: usize,
    pub refused: usize,
    pub files: u64,
    pub bytes: u64,
    pub methods: Vec<Method>,
    pub copied: Vec<String>,
}

/// What a tally says.
#[verifier::ext_equal]
pub struct TallyView {
    pub group: Group,
    pub total: nat,
    pub done: nat,
    pub failed: nat,
    pub refused: nat,
    pub files: u64,
    pub bytes: u64,
    pub methods: Seq<Method>,
    pub copied: Seq<Seq<char>>,
}

impl View for CopyTally {
    type V = TallyView;

    open spec fn view(&self) -> TallyView {
        TallyView {
            group: self.group,
            total: self.total as nat,
            done: self.done as nat,
            failed: self.failed as nat,
            refused: self.refused as nat,
            files: self.files,
            bytes: self.bytes,
            methods: self.methods@,
            copied: texts(self.copied@),
        }
    }
}

/// A tally before anything was copied.
pub open spec fn fresh_tally(group: Group, total: nat, refused: nat) -> TallyView {
    TallyView {
        group,
        total,
        done: 0,
        failed: 0,
        refused,
        files: 0,
        bytes: 0,
        methods: Seq::empty(),
        copied: Seq::empty(),
    }
}

/// A size in a list, where it is not zero.
pub open spec fn size_part(bytes: u64) -> Seq<char> {
    if bytes > 0 {
        ", "@ + size_text(bytes as nat)
    } else {
        ""@
    }
}

/// The tally after one more item.
pub open spec fn tallied(
    t: TallyView,
    item: PlanItemView,
    o: crate::fsops::OutcomeView,
) -> TallyView {
    match o {
        crate::fsops::OutcomeView::Done { method, files, bytes } => TallyView {
            done: t.done + 1,
            files: (t.files + files) as u64,
            bytes: (t.bytes + bytes) as u64,
            copied: t.copied.push(item.rel),
            methods: if t.methods.contains(method) {
                t.methods
            } else {
                t.methods.push(method)
            },
            ..t
        },
        crate::fsops::OutcomeView::Refused(_) => TallyView { refused: t.refused + 1, ..t },
        crate::fsops::OutcomeView::Failed(_) => TallyView { failed: t.failed + 1, ..t },
        _ => t,
    }
}

/// The line for what came of an item.
pub open spec fn item_line(item: PlanItemView, o: crate::fsops::OutcomeView) -> Seq<char> {
    match o {
        crate::fsops::OutcomeView::Done { method, files, bytes } => if item.is_dir
            && !item.is_symlink {
            "✓ "@ + item.rel + "/  ("@ + method.text() + ", "@ + decimal(files as nat) + " files"@
                + size_part(bytes) + ")"@
        } else {
            "✓ "@ + item.rel + "  ("@ + method.text() + ")"@
        },
        crate::fsops::OutcomeView::Exists => kept_line(item.rel),
        crate::fsops::OutcomeView::Refused(reason) => refused_line(item.rel, reason),
        crate::fsops::OutcomeView::TooLarge { bytes } => "! "@ + item.rel + "  skipped: "@
            + size_text(bytes as nat) + " exceeds the copy cap and this volume cannot reflink"@,
        crate::fsops::OutcomeView::Failed(err) => "✗ "@ + item.rel + "  "@ + err,
    }
}

/// The names of some methods.
pub open spec fn method_texts(v: Seq<Method>) -> Seq<Seq<char>> {
    Seq::new(v.len(), |i: int| v[i].text())
}

/// The outcome of copying a group.
pub open spec fn tally_outcome(t: TallyView) -> OutcomeView {
    let how = join(method_texts(t.methods), "+"@);
    if t.failed > 0 {
        OutcomeView::Failed(decimal(t.failed) + " of "@ + decimal(t.total) + " failed"@)
    } else if t.refused > 0 {
        OutcomeView::Failed(refused_text(t.refused))
    } else {
        OutcomeView::Succeeded(
            match t.group {
                Group::State => decimal(t.done) + " items via "@ + how,
                Group::Caches => decimal(t.done) + " dirs via "@ + how + " ("@ + decimal(
                    t.files as nat,
                ) + " files"@ + size_part(t.bytes) + ")"@,
            },
        )
    }
}

fn size_part_of(bytes: u64) -> (r: String)
    ensures
        r@ == size_part(bytes),
{
    if bytes > 0 {
        glue(", ", human_bytes(bytes).as_str())
    } else {
        "".to_owned()
    }
}

fn has_method(methods: &Vec<Method>, m: Method) -> (r: bool)
    ensures
        r == methods@.contains(m),
{
    let mut i: usize = 0;
    while i < methods.len()
        invariant
            i <= methods.len(),
            forall|k: int| 0 <= k < i ==> methods@[k] != m,
        decreases methods.len() - i,
    {
        if methods[i] == m {
            return true;
        }
        i += 1;
    }
    false
}

impl CopyTally {
    /// Take note of what came of an item; the line for it comes out.
    pub fn record(&mut self, item: &PlanItem, outcome: &crate::fsops::Outcome) -> (r: String)
        requires
            old(self).done < usize::MAX,
            old(self).failed < usize::MAX,
            old(self).refused < usize::MAX,
            outcome@ matches crate::fsops::OutcomeView::Done { method, files, bytes } ==> old(
                self,
            ).files
                + files <= u64::MAX && old(self).bytes + bytes <= u64::MAX,
        ensures
            final(self)@ == tallied(old(self)@, item@, outcome@),
            r@ == item_line(item@, outcome@),
    {
        broadcast use lemma_texts_push;

        let rel = item.rel.as_str();
        match outcome {
            crate::fsops::Outcome::Done { method, files, bytes } => {
                self.done = self.done + 1;
                self.files = self.files + *files;
                self.bytes = self.bytes + *bytes;
                self.copied.push(item.rel.clone());
                if !has_method(&self.methods, *method) {
                    self.methods.push(*method);
                }
                if item.is_dir && !item.is_symlink {
                    let mut out = glue3("✓ ", rel, "/  (");
                    out.append(method.label());
                    out.append(", ");
                    out.append(decimal_text(*files as u128).as_str());
                    out.append(" files");
                    out.append(size_part_of(*bytes).as_str());
                    out.append(")");
                    out
                } else {
                    let mut out = glue3("✓ ", rel, "  (");
                    out.append(method.label());
                    out.append(")");
                    out
                }
            },
            crate::fsops::Outcome::Exists => kept_text(rel),
            crate::fsops::Outcome::Refused(reason) => {
                self.refused = self.refused + 1;
                refused_item_text(rel, reason.as_str())
            },
            crate::fsops::Outcome::TooLarge { bytes } => {
                let mut out = glue3("! ", rel, "  skipped: ");
                out.append(human_bytes(*bytes).as_str());
                out.append(" exceeds the copy cap and this volume cannot reflink");
                out
            },
            crate::fsops::Outcome::Failed(err) => {
                self.failed = self.failed + 1;
                let mut out = glue3("✗ ", rel, "  ");
                out.append(err.as_str());
                out
            },
        }
    }

    /// The outcome once no more items are copied.
    pub fn finish(&self) -> (r: Outcome)
        ensures
            r@ == tally_outcome(self@),
    {
        broadcast use lemma_texts_push;

        if self.failed > 0 {
            let mut out = glue3(
                count_text(self.failed).as_str(),
                " of ",
                count_text(self.total).as_str(),
            );
            out.append(" failed");
            return Outcome::Failed(out);
        }
        if self.refused > 0 {
            return Outcome::Failed(glue(count_text(self.refused).as_str(), " refused for safety"));
        }
        let mut names: Vec<String> = Vec::new();
        let ghost all = method_texts(self.methods@);
        let mut i: usize = 0;
        while i < self.methods.len()
            invariant
                i <= self.methods.len(),
                all == method_texts(self.methods@),
                texts(names@) =~= all.take(i as int),
            decreases self.methods.len() - i,
        {
            names.push(self.methods[i].label().to_owned());
            assert(all.take(i as int).push(all[i as int]) =~= all.take(i + 1));
            i += 1;
        }
        assert(all.take(i as int) =~= all);
        let how = join_with(&names, "+");
        match self.group {
            Group::State => Outcome::Succeeded(
                glue3(count_text(self.done).as_str(), " items via ", how.as_str()),
            ),
            Group::Caches => {
                let mut out = glue3(count_text(self.done).as_str(), " dirs via ", how.as_str());
                out.append(" (");
                out.append(decimal_text(self.files as u128).as_str());
                out.append(" files");
                out.append(size_part_of(self.bytes).as_str());
                out.append(")");
                Outcome::Succeeded(out)
            },
        }
    }
}

fn kept_text(rel: &str) -> (r: String)
    ensures
        r@ == kept_line(rel@),
{
    glue3("= ", rel, "  (already in worktree, kept)")
}

fn refused_item_text(rel: &str, reason: &str) -> (r: String)
    ensures
        r@ == refused_line(rel@, reason@),
{
    let mut out = glue3("! ", rel, "  refused: ");
    out.append(reason);
    out
}

fn would_text(item: &PlanItem) -> (r: String)
    ensures
        r@ == would_line(item@),
{
    let verb = match item.action {
        Some(a) => a.verb(),
        None => "copy",
    };
    let mut out = glue3("~ would ", verb, " ");
    out.append(item.rel.as_str());
    if item.is_symlink {
        out.append(" (symlink)");
    } else if item.is_dir {
        out.append("/");
    } else {
        out.append("");
    }
    out
}

/// The lines for the items of a group that are already there.
fn kept_lines(items: &Vec<&PlanItem>) -> (r: Vec<String>)
    ensures
        texts(r@) == item_lines(existing(crate::planner::refs_view(items@)), kept_item()),
{
    broadcast use lemma_texts_push;

    let ghost all = crate::planner::refs_view(items@);
    let mut out: Vec<String> = Vec::new();
    let mut i: usize = 0;
    proof {
        reveal(Seq::filter);
        assert(texts(out@) =~= item_lines(existing(all.take(0)), kept_item()));
    }
    while i < items.len()
        invariant
            i <= items.len(),
            all == crate::planner::refs_view(items@),
            texts(out@) == item_lines(existing(all.take(i as int)), kept_item()),
        decreases items.len() - i,
    {
        let ghost so_far = existing(all.take(i as int));
        proof {
            reveal(Seq::filter);
            assert(all.take(i + 1).drop_last() =~= all.take(i as int));
            assert(all.take(i + 1).last() == items@[i as int]@);
        }
        if items[i].state.is_there() {
            out.push(kept_text(items[i].rel.as_str()));
            assert(item_lines(so_far.push(all[i as int]), kept_item()) =~= item_lines(
                so_far,
                kept_item(),
            ).push(kept_line(all[i as int].rel)));
        }
        i += 1;
    }
    assert(all.take(i as int) =~= all);
    out
}

fn copy_items(items: &Vec<&PlanItem>) -> (r: Vec<PlanItem>)
    ensures
        items_view(r@) == crate::planner::refs_view(items@),
{
    let ghost all = crate::planner::refs_view(items@);
    let mut out: Vec<PlanItem> = Vec::new();
    let mut i: usize = 0;
    while i < items.len()
        invariant
            i <= items.len(),
            all == crate::planner::refs_view(items@),
            items_view(out@) =~= all.take(i as int),
        decreases items.len() - i,
    {
        let ghost before = out@;
        out.push(items[i].clone_item());
        assert(items_view(out@) =~= items_view(before).push(all[i as int]));
        i += 1;
    }
    assert(all.take(i as int) =~= all);
    out
}

impl Pipeline {
    /// How copying a group starts.
    pub fn run_copy(&self, group: Group) -> (r: CopyStart)
        ensures
            texts(r.lines@) == start_lines(grouped(self@.plan, group), self@.job.dry_run),
            match start_outcome(grouped(self@.plan, group), group, self@.job.dry_run) {
                Some(o) => r.next matches CopyNext::Over(x) && x@ == o,
                None => r.next matches CopyNext::Apply { items, tally } && items_view(items@)
                    == pending(grouped(self@.plan, group)) && tally@ == fresh_tally(
                    group,
                    pending(grouped(self@.plan, group)).len(),
                    blocked(grouped(self@.plan, group)).len(),
                ),
            },
    {
        broadcast use lemma_texts_push;

        let items = self.plan.items_in(group);
        let ghost all = grouped(self@.plan, group);
        let pending_items = self.plan.pending_in(group);
        let blocked_items = self.plan.blocked_in(group);
        let ghost pe = pending(all);
        let ghost bl = blocked(all);
        assert(crate::planner::refs_view(pending_items@).len() == pending_items@.len());
        assert(crate::planner::blocked_view(blocked_items@).len() == blocked_items@.len());
        let mut lines = kept_lines(&items);
        let ghost a = texts(lines@);
        let mut i: usize = 0;
        let ghost want = item_lines(bl, blocked_item());
        assert(a + want.take(0) =~= a);
        while i < blocked_items.len()
            invariant
                i <= blocked_items.len(),
                bl == crate::planner::blocked_view(blocked_items@),
                forall|k: int|
                    0 <= k < blocked_items@.len() ==> (#[trigger] blocked_items@[k]).0@.state
                        == StateView::Blocked(blocked_items@[k].1@),
                want == item_lines(bl, blocked_item()),
                texts(lines@) == a + want.take(i as int),
            decreases blocked_items.len() - i,
        {
            let (item, reason) = blocked_items[i];
            assert(bl[i as int] == blocked_items@[i as int].0@);
            let t = refused_item_text(item.rel.as_str(), reason);
            assert(t@ == want[i as int]);
            let ghost before = texts(lines@);
            lines.push(t);
            assert(texts(lines@) == before.push(want[i as int]));
            assert(texts(lines@) =~= a + want.take(i + 1));
            i += 1;
        }
        assert(want.take(i as int) =~= want);
        let ghost b = texts(lines@);
        assert(b + Seq::<Seq<char>>::empty() =~= b);
        if self.job.dry_run {
            let ghost would = item_lines(pe, would_item());
            let mut k: usize = 0;
            assert(b + would.take(0) =~= b);
            while k < pending_items.len()
                invariant
                    k <= pending_items.len(),
                    pe == crate::planner::refs_view(pending_items@),
                    would == item_lines(pe, would_item()),
                    texts(lines@) == b + would.take(k as int),
                decreases pending_items.len() - k,
            {
                let t = would_text(pending_items[k]);
                assert(t@ == would[k as int]);
                let ghost before = texts(lines@);
                lines.push(t);
                assert(texts(lines@) == before.push(would[k as int]));
                assert(texts(lines@) =~= b + would.take(k + 1));
                k += 1;
            }
            assert(would.take(k as int) =~= would);
        }
        let n: usize = blocked_items.len();
        if pending_items.len() == 0 {
            let outcome = if n > 0 {
                Outcome::Failed(glue(count_text(n).as_str(), " refused for safety"))
            } else {
                Outcome::Skipped(
                    match group {
                        Group::State => "nothing to copy".to_owned(),
                        Group::Caches => "nothing to clone".to_owned(),
                    },
                )
            };
            return CopyStart { lines, next: CopyNext::Over(outcome) };
        }
        if self.job.dry_run {
            let outcome = if n > 0 {
                Outcome::Failed(glue(count_text(n).as_str(), " refused for safety"))
            } else {
                Outcome::Succeeded(glue(count_text(pending_items.len()).as_str(), " planned"))
            };
            return CopyStart { lines, next: CopyNext::Over(outcome) };
        }
        let tally = CopyTally {
            group,
            total: pending_items.len(),
            done: 0,
            failed: 0,
            refused: n,
            files: 0,
            bytes: 0,
            methods: Vec::new(),
            copied: Vec::new(),
        };
        assert(tally@ =~= fresh_tally(group, pe.len(), bl.len()));
        CopyStart { lines, next: CopyNext::Apply { items: copy_items(&pending_items), tally } }
    }
}

impl CopyTally {
    /// Whether git is asked which of the copied files it ignores in the worktree:
    /// not for caches.
    pub fn asks_git(&self) -> (r: bool)
        ensures
            r == (self@.group == Group::State && self@.copied.len() > 0),
    {
        assert(texts(self.copied@).len() == self.copied@.len());
        matches!(self.group, Group::State) && self.copied.len() > 0
    }
}

// --- exposed files -----------------------------------------------------------

/// What asks git which of some paths it ignores in the worktree.
pub open spec fn check_ignore_call(target: Seq<char>) -> Seq<Seq<char>> {
    seq!["-C"@, target, "--literal-pathspecs"@, "check-ignore"@, "--stdin"@, "-z"@]
}

/// The paths as they are handed to git: each ends with a NUL.
pub open spec fn check_ignore_bytes(copied: Seq<Seq<char>>) -> Seq<u8>
    decreases copied.len(),
{
    if copied.len() == 0 {
        Seq::empty()
    } else {
        check_ignore_bytes(copied.drop_last()) + encode_utf8(copied.last()).push(0)
    }
}

/// The paths in what git printed.
pub open spec fn ignored_paths(recs: Seq<Seq<u8>>) -> Seq<Seq<char>>
    decreases recs.len(),
{
    if recs.len() == 0 {
        Seq::empty()
    } else {
        let r = ignored_paths(recs.drop_last());
        if valid_utf8(recs.last()) {
            r.push(decode_utf8(recs.last()))
        } else {
            r
        }
    }
}

/// The copied paths that git does not ignore in the worktree.
pub open spec fn exposed(copied: Seq<Seq<char>>, printed: Seq<u8>) -> Seq<Seq<char>> {
    copied.filter(|rel: Seq<char>| !ignored_paths(records(printed)).contains(rel))
}

/// The warning about copied files that git does not ignore in the worktree.
pub open spec fn exposed_line(paths: Seq<Seq<char>>) -> Seq<char> {
    "! "@ + decimal(paths.len())
        + " copied file(s) are NOT gitignored on this branch — `git add -A` would commit them: "@
        + join(paths, ", "@)
}

/// What asks git which of some paths it ignores in the worktree.
pub fn check_ignore_args(target: &str) -> (r: Vec<String>)
    ensures
        texts(r@) == check_ignore_call(target@),
{
    let v = ["-C", target, "--literal-pathspecs", "check-ignore", "--stdin", "-z"];
    assert(crate::text::slices(v@) =~= check_ignore_call(target@));
    crate::text::owned(&v)
}

/// The paths as they are handed to git.
pub fn check_ignore_input(copied: &Vec<String>) -> (r: Vec<u8>)
    ensures
        r@ == check_ignore_bytes(texts(copied@)),
{
    let ghost all = texts(copied@);
    let mut out: Vec<u8> = Vec::new();
    let mut i: usize = 0;
    assert(all.take(0) =~= Seq::empty());
    while i < copied.len()
        invariant
            i <= copied.len(),
            all == texts(copied@),
            out@ == check_ignore_bytes(all.take(i as int)),
        decreases copied.len() - i,
    {
        assert(all.take(i + 1).drop_last() =~= all.take(i as int));
        assert(all.take(i + 1).last() == copied@[i as int]@);
        let ghost before = out@;
        let mut bytes = copied[i].as_str().as_bytes_vec();
        bytes.push(0);
        let ghost more = bytes@;
        out.append(&mut bytes);
        assert(out@ =~= before + more);
        i += 1;
    }
    assert(all.take(i as int) =~= all);
    out
}

/// The warning about copied files that git does not ignore in the worktree, where
/// there are such. Whether a file is ignored in the source is what made it a
/// candidate; whether it stays ignored is up to the branch. A branch that drops
/// `.env` from its `.gitignore` turns a routine `git add -A` into a commit of the
/// user's credentials.
pub fn warn_about_untracked_secrets(copied: &Vec<String>, printed: &[u8]) -> (r: Option<String>)
    ensures
        option_text(r) == if exposed(texts(copied@), printed@).len() == 0 {
            None
        } else {
            Some(exposed_line(exposed(texts(copied@), printed@)))
        },
{
    broadcast use lemma_texts_push;

    let recs = records_of(printed);
    let ghost all_recs = records(printed@);
    let mut ignored: Vec<String> = Vec::new();
    let mut i: usize = 0;
    assert(all_recs.take(0) =~= Seq::empty());
    assert(texts(ignored@) =~= ignored_paths(all_recs.take(0)));
    while i < recs.len()
        invariant
            i <= recs.len(),
            byte_lists(recs@) == all_recs,
            texts(ignored@) == ignored_paths(all_recs.take(i as int)),
        decreases recs.len() - i,
    {
        assert(all_recs.take(i + 1).drop_last() =~= all_recs.take(i as int));
        assert(all_recs.take(i + 1).last() == recs@[i as int]@);
        match utf8_text(recs[i].as_slice()) {
            Some(s) => {
                ignored.push(s);
            },
            None => {},
        }
        i += 1;
    }
    assert(all_recs.take(i as int) =~= all_recs);
    let ghost all = texts(copied@);
    let mut out: Vec<String> = Vec::new();
    let mut k: usize = 0;
    proof {
        reveal(Seq::filter);
        assert(texts(out@) =~= exposed(all.take(0), printed@));
    }
    while k < copied.len()
        invariant
            k <= copied.len(),
            all == texts(copied@),
            texts(ignored@) == ignored_paths(records(printed@)),
            texts(out@) == exposed(all.take(k as int), printed@),
        decreases copied.len() - k,
    {
        proof {
            reveal(Seq::filter);
            assert(all.take(k + 1).drop_last() =~= all.take(k as int));
            assert(all.take(k + 1).last() == copied@[k as int]@);
        }
        if !holds(&ignored, copied[k].as_str()) {
            out.push(copied[k].clone());
        }
        k += 1;
    }
    assert(all.take(k as int) =~= all);
    assert(texts(out@).len() == out@.len());
    if out.len() == 0 {
        return None;
    }
    let list = join_with(&out, ", ");
    let mut line = glue3(
        "! ",
        count_text(out.len()).as_str(),
        " copied file(s) are NOT gitignored on this branch — `git add -A` would commit them: ",
    );
    line.append(list.as_str());
    Some(line)
}

// --- commands ----------------------------------------------------------------

/// Whether a step runs commands, and which.
#[derive(Debug)]
pub enum Gate {
    /// It runs none: this is the outcome.
    Over(Outcome),
    /// It runs these, one after the other.
    Run(Vec<Vec<String>>),
}

/// What a gate says.
#[verifier::ext_equal]
pub enum GateView {
    Over(OutcomeView),
    Run(Seq<Seq<Seq<char>>>),
}

/// What some commands say.
pub open spec fn commands_view(v: Seq<Vec<String>>) -> Seq<Seq<Seq<char>>> {
    Seq::new(v.len(), |i: int| texts(v[i]@))
}

impl View for Gate {
    type V = GateView;

    open spec fn view(&self) -> GateView {
        match *self {
            Gate::Over(o) => GateView::Over(o@),
            Gate::Run(c) => GateView::Run(commands_view(c@)),
        }
    }
}

/// What is shown in place of a command in a dry run.
pub open spec fn dry_text(argv: Seq<Seq<char>>) -> Seq<char> {
    "dry run: "@ + join(all_quoted(argv), " "@)
}

/// The tool managers that commands go through, where the job uses them.
pub open spec fn tools(p: PipelineView) -> Seq<Seq<char>> {
    prefix(
        p.job.target,
        if p.use_direnv {
            p.direnv_bin
        } else {
            None
        },
        if p.use_mise {
            p.mise_bin
        } else {
            None
        },
    )
}

/// A command without a shell, through the tool managers.
pub open spec fn direct(p: PipelineView, argv: Seq<Seq<char>>) -> Seq<Seq<char>> {
    tools(p) + argv
}

/// A shell command, through the tool managers.
pub open spec fn shelled(p: PipelineView, line: Seq<char>) -> Seq<Seq<char>> {
    tools(p) + seq!["/bin/sh"@, "-c"@, line]
}

/// Whether mise config files are trusted, and by which commands.
pub open spec fn mise_gate(p: PipelineView, files: Seq<Seq<char>>) -> GateView {
    if files.len() == 0 {
        GateView::Over(OutcomeView::Skipped("no mise config"@))
    } else if !p.cfg.mise_trust {
        GateView::Over(OutcomeView::Skipped("disabled (mise_trust = false)"@))
    } else if p.mise_bin is None {
        GateView::Over(OutcomeView::Skipped("mise not found on PATH ("@ + p.env_text + ")"@))
    } else if p.job.dry_run {
        GateView::Over(OutcomeView::Skipped("dry run: mise trust ×"@ + decimal(files.len())))
    } else {
        GateView::Run(
            Seq::new(files.len(), |i: int| seq![p.mise_bin->0, "trust"@, files[i]]),
        )
    }
}

/// Whether the `.envrc` of the worktree is allowed, and by which command.
pub open spec fn direnv_gate(p: PipelineView, has_envrc: bool) -> GateView {
    if !has_envrc {
        GateView::Over(OutcomeView::Skipped("no .envrc"@))
    } else if !p.cfg.direnv_allow {
        GateView::Over(OutcomeView::Skipped("disabled (direnv_allow = false)"@))
    } else if p.direnv_bin is None {
        GateView::Over(OutcomeView::Skipped("direnv not found on PATH ("@ + p.env_text + ")"@))
    } else if p.job.dry_run {
        GateView::Over(OutcomeView::Skipped("dry run: direnv allow"@))
    } else {
        GateView::Run(seq![seq![p.direnv_bin->0, "allow"@, p.job.target]])
    }
}

/// Whether dependencies are installed, and by which command. `found` is whether
/// the tool is on the PATH.
pub open spec fn install_gate(p: PipelineView, cmd: InstallView, found: bool) -> GateView {
    if !p.cfg.install {
        GateView::Over(OutcomeView::Skipped("disabled (install = false)"@))
    } else if !p.use_mise && !found {
        GateView::Over(
            OutcomeView::Failed(
                "`"@ + cmd.tool + "` not found on PATH (resolved from "@ + p.env_text + ")"@,
            ),
        )
    } else if p.job.dry_run {
        GateView::Over(OutcomeView::Skipped(dry_text(direct(p, cmd.argv))))
    } else {
        GateView::Run(seq![direct(p, cmd.argv)])
    }
}

/// Whether a custom step runs, and which command. `present` is whether the path
/// that it asks for exists in the worktree.
pub open spec fn custom_gate(p: PipelineView, def: StepDefView, present: bool) -> GateView {
    if def.origin.repo() && !p.cfg.trust_repo_steps {
        GateView::Over(OutcomeView::Skipped("repo step not run (trust_repo_steps = false)"@))
    } else if def.if_path is Some && !present {
        GateView::Over(OutcomeView::Skipped("if: "@ + def.if_path->0 + " not present"@))
    } else if p.job.dry_run {
        GateView::Over(OutcomeView::Skipped(dry_text(shelled(p, def.run))))
    } else {
        GateView::Run(seq![shelled(p, def.run)])
    }
}

/// What is said of a step that took too long.
pub open spec fn timeout_text(limit: Option<u128>) -> Seq<char> {
    match limit {
        Some(n) => "timed out after "@ + decimal((n / 1000000000) as nat) + "s"@,
        None => "timed out"@,
    }
}

/// How a command that did not succeed is reported: what it could not be started
/// for, or how it ended. `what` stands in front of its exit code.
pub open spec fn command_failure(
    p: PipelineView,
    what: Seq<char>,
    r: Result<i32, String>,
) -> Option<Seq<char>> {
    match r {
        Err(e) => Some(e@),
        Ok(code) => if code == 0 {
            None
        } else if code == TIMED_OUT {
            Some(timeout_text(p.step_timeout))
        } else {
            Some(what + "exited "@ + signed_decimal(code as int))
        },
    }
}

/// What came of trusting so many files.
pub open spec fn trusted_text(n: nat) -> Seq<char> {
    "trusted "@ + decimal(n) + " file"@ + if n == 1 {
        ""@
    } else {
        "s"@
    }
}

/// The outcome of a custom step. One that may fail counts as skipped where it
/// does, however it fails.
pub open spec fn custom_outcome(
    p: PipelineView,
    def: StepDefView,
    r: Result<i32, String>,
) -> OutcomeView {
    match command_failure(p, ""@, r) {
        None => OutcomeView::Succeeded("done"@),
        Some(text) => if def.continue_on_error {
            OutcomeView::Skipped(text + " (ignored)"@)
        } else {
            OutcomeView::Failed(text)
        },
    }
}

fn one_command(argv: Vec<String>) -> (r: Gate)
    ensures
        r@ == GateView::Run(seq![texts(argv@)]),
{
    let mut commands: Vec<Vec<String>> = Vec::new();
    commands.push(argv);
    assert(commands_view(commands@) =~= seq![texts(argv@)]);
    Gate::Run(commands)
}

fn three_words(a: &str, b: &str, c: &str) -> (r: Vec<String>)
    ensures
        texts(r@) == seq![a@, b@, c@],
{
    let v = [a, b, c];
    assert(crate::text::slices(v@) =~= seq![a@, b@, c@]);
    crate::text::owned(&v)
}

fn as_slice_option(s: &Option<String>, used: bool) -> (r: Option<&str>)
    ensures
        crate::text::slice_text(r) == if used {
            option_text(*s)
        } else {
            None
        },
{
    if used {
        match s {
            Some(t) => Some(t.as_str()),
            None => None,
        }
    } else {
        None
    }
}

impl Pipeline {
    /// A shell command line, for custom steps only.
    pub fn wrapped(&self, command: &str) -> (r: Vec<String>)
        ensures
            texts(r@) == shelled(self@, command@),
    {
        shell_argv(
            command,
            self.job.target.as_str(),
            as_slice_option(&self.direnv_bin, self.use_direnv),
            as_slice_option(&self.mise_bin, self.use_mise),
        )
    }

    /// An install command: argv, executed directly, never through a shell.
    pub fn wrapped_argv(&self, argv: &Vec<String>) -> (r: Vec<String>)
        ensures
            texts(r@) == direct(self@, texts(argv@)),
    {
        direct_argv(
            argv.as_slice(),
            self.job.target.as_str(),
            as_slice_option(&self.direnv_bin, self.use_direnv),
            as_slice_option(&self.mise_bin, self.use_mise),
        )
    }

    /// The line that shows a command before it runs.
    pub fn command_line(argv: &Vec<String>) -> (r: String)
        ensures
            r@ == "$ "@ + join(all_quoted(texts(argv@)), " "@),
    {
        glue("$ ", display(argv.as_slice()).as_str())
    }

    /// A command of a step: it runs in the worktree, with the environment and
    /// the limit of the steps.
    pub fn run_cmd(&self, argv: Vec<String>) -> (r: StepCmd)
        ensures
            texts(r.argv@) == texts(argv@),
            r.cwd@ == self@.job.target,
            pair_texts(r.env@) == self@.step_env,
            r.timeout == self@.step_timeout,
    {
        let mut env: Vec<(String, String)> = Vec::new();
        let mut i: usize = 0;
        while i < self.step_env.len()
            invariant
                i <= self.step_env.len(),
                pair_texts(env@) =~= pair_texts(self.step_env@).take(i as int),
            decreases self.step_env.len() - i,
        {
            let ghost before = env@;
            env.push((self.step_env[i].0.clone(), self.step_env[i].1.clone()));
            assert(pair_texts(env@) =~= pair_texts(before).push(
                pair_texts(self.step_env@)[i as int],
            ));
            i += 1;
        }
        assert(pair_texts(self.step_env@).take(i as int) =~= pair_texts(self.step_env@));
        StepCmd { argv, cwd: self.job.target.clone(), env, timeout: self.step_timeout }
    }

    /// What is said of a step that took too long.
    pub fn timeout_message(&self) -> (r: String)
        ensures
            r@ == timeout_text(self@.step_timeout),
    {
        match self.step_timeout {
            Some(limit) => glue3(
                "timed out after ",
                decimal_text(limit / 1000000000).as_str(),
                "s",
            ),
            None => "timed out".to_owned(),
        }
    }

    fn failure(&self, what: &str, result: Result<i32, String>) -> (r: Option<String>)
        ensures
            option_text(r) == command_failure(self@, what@, result),
    {
        match result {
            Err(e) => Some(e),
            Ok(code) => if code == 0 {
                None
            } else if code == TIMED_OUT {
                Some(self.timeout_message())
            } else {
                Some(glue3(what, "exited ", signed_text(code).as_str()))
            },
        }
    }

    /// Whether mise config files are trusted, and by which commands.
    pub fn run_mise_trust(&self, files: &Vec<String>) -> (r: Gate)
        ensures
            r@ == mise_gate(self@, texts(files@)),
    {
        assert(texts(files@).len() == files@.len());
        if files.len() == 0 {
            return Gate::Over(Outcome::Skipped("no mise config".to_owned()));
        }
        if !self.cfg.mise_trust {
            return Gate::Over(Outcome::Skipped("disabled (mise_trust = false)".to_owned()));
        }
        let mise = match &self.mise_bin {
            Some(m) => m.as_str(),
            None => {
                return Gate::Over(
                    Outcome::Skipped(
                        glue3("mise not found on PATH (", self.env.describe().as_str(), ")"),
                    ),
                );
            },
        };
        if self.job.dry_run {
            return Gate::Over(
                Outcome::Skipped(glue("dry run: mise trust ×", count_text(files.len()).as_str())),
            );
        }
        let ghost all = Seq::new(
            texts(files@).len(),
            |i: int| seq![mise@, "trust"@, texts(files@)[i]],
        );
        let mut commands: Vec<Vec<String>> = Vec::new();
        let mut i: usize = 0;
        while i < files.len()
            invariant
                i <= files.len(),
                all == Seq::new(
                    texts(files@).len(),
                    |i: int| seq![mise@, "trust"@, texts(files@)[i]],
                ),
                commands_view(commands@) =~= all.take(i as int),
            decreases files.len() - i,
        {
            let argv = three_words(mise, "trust", files[i].as_str());
            let ghost before = commands@;
            commands.push(argv);
            assert(commands_view(commands@) =~= commands_view(before).push(all[i as int]));
            i += 1;
        }
        assert(all.take(i as int) =~= all);
        Gate::Run(commands)
    }

    /// The outcome after one of the commands that trust mise config files, where
    /// it did not succeed.
    pub fn mise_trust_failed(&self, result: Result<i32, String>) -> (r: Option<Outcome>)
        ensures
            match command_failure(self@, "mise trust "@, result) {
                Some(t) => r matches Some(o) && o@ == OutcomeView::Failed(t),
                None => r is None,
            },
    {
        match self.failure("mise trust ", result) {
            Some(t) => Some(Outcome::Failed(t)),
            None => None,
        }
    }

    /// The outcome after all commands that trust mise config files succeeded.
    pub fn mise_trusted(trusted: usize) -> (r: Outcome)
        ensures
            r@ == OutcomeView::Succeeded(trusted_text(trusted as nat)),
    {
        let mut out = glue3("trusted ", count_text(trusted).as_str(), " file");
        if trusted == 1 {
            out.append("");
        } else {
            out.append("s");
        }
        Outcome::Succeeded(out)
    }

    /// Whether the `.envrc` of the worktree is allowed, and by which command.
    pub fn run_direnv_allow(&self, has_envrc: bool) -> (r: Gate)
        ensures
            r@ == direnv_gate(self@, has_envrc),
    {
        if !has_envrc {
            return Gate::Over(Outcome::Skipped("no .envrc".to_owned()));
        }
        if !self.cfg.direnv_allow {
            return Gate::Over(Outcome::Skipped("disabled (direnv_allow = false)".to_owned()));
        }
        let direnv = match &self.direnv_bin {
            Some(d) => d.as_str(),
            None => {
                return Gate::Over(
                    Outcome::Skipped(
                        glue3("direnv not found on PATH (", self.env.describe().as_str(), ")"),
                    ),
                );
            },
        };
        if self.job.dry_run {
            return Gate::Over(Outcome::Skipped("dry run: direnv allow".to_owned()));
        }
        one_command(three_words(direnv, "allow", self.job.target.as_str()))
    }

    /// The outcome of allowing the `.envrc`.
    pub fn direnv_allowed(&self, result: Result<i32, String>) -> (r: Outcome)
        ensures
            r@ == match command_failure(self@, "direnv allow "@, result) {
                Some(t) => OutcomeView::Failed(t),
                None => OutcomeView::Succeeded("allowed"@),
            },
    {
        match self.failure("direnv allow ", result) {
            Some(t) => Outcome::Failed(t),
            None => Outcome::Succeeded("allowed".to_owned()),
        }
    }

    /// Whether dependencies are installed, and by which command.
    pub fn run_install(&self, cmd: &InstallCmd, found: bool) -> (r: Gate)
        ensures
            r@ == install_gate(self@, cmd@, found),
    {
        if !self.cfg.install {
            return Gate::Over(Outcome::Skipped("disabled (install = false)".to_owned()));
        }
        if !self.use_mise && !found {
            let mut out = glue3(
                "`",
                cmd.tool.as_str(),
                "` not found on PATH (resolved from ",
            );
            out.append(self.env.describe().as_str());
            out.append(")");
            return Gate::Over(Outcome::Failed(out));
        }
        let argv = self.wrapped_argv(&cmd.argv);
        if self.job.dry_run {
            return Gate::Over(
                Outcome::Skipped(glue("dry run: ", display(argv.as_slice()).as_str())),
            );
        }
        one_command(argv)
    }

    /// The outcome of installing dependencies.
    pub fn installed(&self, result: Result<i32, String>) -> (r: Outcome)
        ensures
            r@ == match command_failure(self@, ""@, result) {
                Some(t) => OutcomeView::Failed(t),
                None => OutcomeView::Succeeded("done"@),
            },
    {
        match self.failure("", result) {
            Some(t) => Outcome::Failed(t),
            None => Outcome::Succeeded("done".to_owned()),
        }
    }

    /// Whether a custom step runs, and which command.
    pub fn run_custom(&self, def: &StepDef, present: bool) -> (r: Gate)
        ensures
            r@ == custom_gate(self@, def@, present),
    {
        if def.origin.is_repo() && !self.cfg.trust_repo_steps {
            return Gate::Over(
                Outcome::Skipped("repo step not run (trust_repo_steps = false)".to_owned()),
            );
        }
        match &def.if_path {
            Some(gate) => {
                if !present {
                    return Gate::Over(
                        Outcome::Skipped(glue3("if: ", gate.as_str(), " not present")),
                    );
                }
            },
            None => {},
        }
        let argv = self.wrapped(def.run.as_str());
        if self.job.dry_run {
            return Gate::Over(
                Outcome::Skipped(glue("dry run: ", display(argv.as_slice()).as_str())),
            );
        }
        one_command(argv)
    }

    /// The outcome of a custom step.
    pub fn custom_ran(&self, def: &StepDef, result: Result<i32, String>) -> (r: Outcome)
        ensures
            r@ == custom_outcome(self@, def@, result),
    {
        match self.failure("", result) {
            Some(text) => if def.continue_on_error {
                Outcome::Skipped(glue(text.as_str(), " (ignored)"))
            } else {
                Outcome::Failed(text)
            },
            None => Outcome::Succeeded("done".to_owned()),
        }
    }
}

// --- what holds of every run -------------------------------------------------

/// Whether a step of this kind runs commands.
pub open spec fn runs_commands(
    p: PipelineView,
    kind: KindView,
    has_envrc: bool,
    found: bool,
    present: bool,
) -> bool {
    match kind {
        KindView::CopyState => false,
        KindView::CloneCaches => false,
        KindView::MiseTrust(files) => mise_gate(p, files) is Run,
        KindView::DirenvAllow => direnv_gate(p, has_envrc) is Run,
        KindView::Install(cmd) => install_gate(p, cmd, found) is Run,
        KindView::Custom(def) => custom_gate(p, def, present) is Run,
    }
}

/// With `install`, `trust_repo_steps`, `mise_trust` and `direnv_allow` all off,
/// only files are copied: the one thing that can still run is a step that the
/// user's own configuration defines.
pub proof fn law_all_off_runs_nothing_of_the_branch(
    p: PipelineView,
    kind: KindView,
    has_envrc: bool,
    found: bool,
    present: bool,
)
    requires
        !p.cfg.install,
        !p.cfg.trust_repo_steps,
        !p.cfg.mise_trust,
        !p.cfg.direnv_allow,
        runs_commands(p, kind, has_envrc, found, present),
    ensures
        kind matches KindView::Custom(def) && !def.origin.repo(),
{
}

/// A dry run runs no command and copies nothing.
pub proof fn law_dry_run_does_nothing(
    p: PipelineView,
    kind: KindView,
    group: Group,
    has_envrc: bool,
    found: bool,
    present: bool,
)
    requires
        p.job.dry_run,
    ensures
        !runs_commands(p, kind, has_envrc, found, present),
        start_outcome(grouped(p.plan, group), group, p.job.dry_run) is Some,
{
}

/// An install command goes through no shell: its words are those of the command
/// behind those of the tool managers, each as it was.
pub proof fn law_install_has_no_shell(p: PipelineView, cmd: InstallView, found: bool)
    requires
        install_gate(p, cmd, found) is Run,
    ensures
        install_gate(p, cmd, found) == GateView::Run(seq![tools(p) + cmd.argv]),
        !p.use_direnv && !p.use_mise ==> install_gate(p, cmd, found) == GateView::Run(
            seq![cmd.argv],
        ),
{
    if !p.use_direnv && !p.use_mise {
        assert(tools(p) + cmd.argv =~= cmd.argv);
    }
}

/// The tool managers are only ever invoked by the paths at which they were found.
pub proof fn law_tools_by_resolved_path(p: PipelineView)
    ensures
        tools(p).len() > 0 ==> (p.direnv_bin is Some && tools(p)[0] == p.direnv_bin->0) || (
        p.mise_bin is Some && tools(p)[0] == p.mise_bin->0),
{
}

/// A file of the repository cannot lengthen the time that a step gets: where a
/// limit stands, there still is one after the file was merged, and it is no
/// longer.
pub proof fn law_repo_cannot_lengthen_steps(cfg: ConfigView, layer: LayerView, origin: Origin)
    requires
        origin.repo(),
    ensures
        timeout_of(cfg.step_timeout_secs) is Some ==> {
            &&& timeout_of(merged(cfg, layer, origin).step_timeout_secs) is Some
            &&& timeout_of(merged(cfg, layer, origin).step_timeout_secs)->0 <= timeout_of(
                cfg.step_timeout_secs,
            )->0
        },
{
}

/// A step that may fail never fails the run, be it that it exits with an error,
/// takes too long or cannot be started; what went wrong is said all the same.
pub proof fn law_continue_on_error(p: PipelineView, def: StepDefView, r: Result<i32, String>)
    requires
        def.continue_on_error,
    ensures
        !(custom_outcome(p, def, r) is Failed),
        command_failure(p, ""@, r) is Some ==> custom_outcome(p, def, r) == OutcomeView::Skipped(
            command_failure(p, ""@, r)->0 + " (ignored)"@,
        ),
{
}

/// The steps that a retry runs are exactly those that failed.
pub proof fn law_retry_runs_what_failed(outcomes: Seq<Option<OutcomeView>>, n: nat, k: nat)
    requires
        n <= outcomes.len(),
    ensures
        failed_of(outcomes, n).contains(k) <==> k < n && has_failed(outcomes[k as int]),
    decreases n,
{
    let r = failed_of(outcomes, n);
    if n > 0 {
        let m = (n - 1) as nat;
        law_retry_runs_what_failed(outcomes, m, k);
        let f = failed_of(outcomes, m);
        if has_failed(outcomes[m as int]) {
            assert(r[r.len() - 1] == m);
            if f.contains(k) {
                let i = choose|i: int| 0 <= i < f.len() && f[i] == k;
                assert(r[i] == k);
            }
            if r.contains(k) && k != m {
                let i = choose|i: int| 0 <= i < r.len() && r[i] == k;
                assert(f[i] == k);
            }
        }
    }
}

/// A run is fine if and only if there is nothing to retry.
pub proof fn law_ok_means_nothing_to_retry(outcomes: Seq<Option<OutcomeView>>)
    ensures
        none_failed(outcomes) <==> failed_of(outcomes, outcomes.len()).len() == 0,
{
    let f = failed_of(outcomes, outcomes.len());
    if !none_failed(outcomes) {
        let k = choose|k: int| 0 <= k < outcomes.len() && has_failed(#[trigger] outcomes[k]);
        law_retry_runs_what_failed(outcomes, outcomes.len(), k as nat);
        assert(f.contains(k as nat));
    }
    if f.len() > 0 {
        law_retry_runs_what_failed(outcomes, outcomes.len(), f[0]);
        assert(f.contains(f[0]));
    }
}

/// Every copied file that git does not ignore in the worktree is named in the
/// warning, and no other.
pub proof fn law_exposed_files_are_named(copied: Seq<Seq<char>>, printed: Seq<u8>, rel: Seq<char>)
    ensures
        exposed(copied, printed).contains(rel) <==> copied.contains(rel) && !ignored_paths(
            records(printed),
        ).contains(rel),
    decreases copied.len(),
{
    reveal(Seq::filter);
    if copied.len() > 0 {
        let front = copied.drop_last();
        let last = copied.last();
        law_exposed_files_are_named(front, printed, rel);
        let a = exposed(front, printed);
        let r = exposed(copied, printed);
        if front.contains(rel) {
            let k = choose|k: int| 0 <= k < front.len() && front[k] == rel;
            assert(copied[k] == rel);
        }
        if copied.contains(rel) && rel != last {
            let k = choose|k: int| 0 <= k < copied.len() && copied[k] == rel;
            assert(front[k] == rel);
        }
        if rel == last {
            assert(copied[copied.len() - 1] == rel);
        }
        if !ignored_paths(records(printed)).contains(last) {
            assert(r[r.len() - 1] == last);
            if a.contains(rel) {
                let k = choose|k: int| 0 <= k < a.len() && a[k] == rel;
                assert(r[k] == rel);
            }
            if r.contains(rel) && rel != last {
                let k = choose|k: int| 0 <= k < r.len() && r[k] == rel;
                assert(a[k] == rel);
            }
        }
    }
}

/// A plan shows what a run would do: where a run starts a command to install
/// dependencies or for a custom step, a dry run shows that very command.
pub proof fn law_plan_shows_what_runs(
    p: PipelineView,
    cmd: InstallView,
    found: bool,
    def: StepDefView,
    present: bool,
)
    requires
        !p.job.dry_run,
    ensures
        ({
            let dry = PipelineView { job: JobView { dry_run: true, ..p.job }, ..p };
            &&& install_gate(p, cmd, found) matches GateView::Run(commands) ==> commands.len() == 1
                && install_gate(dry, cmd, found) == GateView::Over(
                OutcomeView::Skipped(dry_text(commands[0])),
            )
            &&& custom_gate(p, def, present) matches GateView::Run(commands) ==> commands.len() == 1
                && custom_gate(dry, def, present) == GateView::Over(
                OutcomeView::Skipped(dry_text(commands[0])),
            )
        }),
{
}

proof fn lemma_env_set(env: Seq<Pair>, k: Seq<char>, v: Seq<char>, other: Seq<char>)
    ensures
        lookup(env_set(env, k, v), k) == Some(v),
        other != k ==> lookup(env_set(env, k, v), other) == lookup(env, other),
{
    let rest = crate::envmap::without(env, k);
    law_lookup_after_remove(env, k, other);
    lemma_lookup_pushed(rest, (k, v), k);
    lemma_lookup_pushed(rest, (k, v), other);
}

proof fn lemma_env_set_all(env: Seq<Pair>, more: Seq<Pair>, k: Seq<char>)
    requires
        lookup(more, k) is None,
    ensures
        lookup(env_set_all(env, more), k) == lookup(env, k),
    decreases more.len(),
{
    if more.len() > 0 {
        let front = more.drop_last();
        lemma_lookup_pushed(front, more.last(), k);
        assert(front.push(more.last()) =~= more);
        lemma_env_set_all(env, front, k);
        lemma_env_set(env_set_all(env, front), more.last().0, more.last().1, k);
    }
}

proof fn lemma_step_env(env: Seq<Pair>, job: JobView, cfg: ConfigView, k: Seq<char>)
    requires
        k != "FORCE_COLOR"@,
    ensures
        lookup(cfg.env, k) is None ==> lookup(step_env_for(env, job, cfg), k) == if k == "HWS_WORKSPACE_ID"@ {
            Some(text_or_empty(job.workspace_id))
        } else if k == "HWS_BRANCH"@ {
            Some(text_or_empty(job.branch))
        } else if k == "HWS_TARGET"@ {
            Some(job.target)
        } else if k == "HWS_SOURCE"@ {
            Some(job.source)
        } else {
            lookup(crate::envmap::without(env, "HWS_JOB"@), k)
        },
{
    let a = crate::envmap::without(env, "HWS_JOB"@);
    let b = env_set(a, "HWS_SOURCE"@, job.source);
    let c = env_set(b, "HWS_TARGET"@, job.target);
    let d = env_set(c, "HWS_BRANCH"@, text_or_empty(job.branch));
    let e = env_set(d, "HWS_WORKSPACE_ID"@, text_or_empty(job.workspace_id));
    lemma_env_set(a, "HWS_SOURCE"@, job.source, k);
    lemma_env_set(b, "HWS_TARGET"@, job.target, k);
    lemma_env_set(c, "HWS_BRANCH"@, text_or_empty(job.branch), k);
    lemma_env_set(d, "HWS_WORKSPACE_ID"@, text_or_empty(job.workspace_id), k);
    lemma_env_set(e, "FORCE_COLOR"@, "1"@, k);
    if lookup(cfg.env, k) is None {
        lemma_env_set_all(e, cfg.env, k);
        lemma_env_set_all(env_set(e, "FORCE_COLOR"@, "1"@), cfg.env, k);
    }
}

/// A step sees which job it belongs to, and where the job file lies it does not
/// see, unless the configuration sets such a variable itself.
pub proof fn law_steps_see_the_job(env: Seq<Pair>, job: JobView, cfg: ConfigView)
    ensures
        ({
            let e = step_env_for(env, job, cfg);
            &&& lookup(cfg.env, "HWS_SOURCE"@) is None ==> lookup(e, "HWS_SOURCE"@) == Some(
                job.source,
            )
            &&& lookup(cfg.env, "HWS_TARGET"@) is None ==> lookup(e, "HWS_TARGET"@) == Some(
                job.target,
            )
            &&& lookup(cfg.env, "HWS_BRANCH"@) is None ==> lookup(e, "HWS_BRANCH"@) == Some(
                text_or_empty(job.branch),
            )
            &&& lookup(cfg.env, "HWS_WORKSPACE_ID"@) is None ==> lookup(e, "HWS_WORKSPACE_ID"@)
                == Some(text_or_empty(job.workspace_id))
            &&& lookup(cfg.env, "HWS_JOB"@) is None ==> lookup(e, "HWS_JOB"@) is None
        }),
{
    reveal_strlit("HWS_JOB");
    reveal_strlit("HWS_SOURCE");
    reveal_strlit("HWS_TARGET");
    reveal_strlit("HWS_BRANCH");
    reveal_strlit("HWS_WORKSPACE_ID");
    reveal_strlit("FORCE_COLOR");
    assert("HWS_JOB"@.len() == 7 && "HWS_WORKSPACE_ID"@.len() == 16 && "FORCE_COLOR"@.len() == 11);
    assert("HWS_SOURCE"@[4] == 'S' && "HWS_TARGET"@[4] == 'T' && "HWS_BRANCH"@[4] == 'B');
    lemma_step_env(env, job, cfg, "HWS_SOURCE"@);
    lemma_step_env(env, job, cfg, "HWS_TARGET"@);
    lemma_step_env(env, job, cfg, "HWS_BRANCH"@);
    lemma_step_env(env, job, cfg, "HWS_WORKSPACE_ID"@);
    lemma_step_env(env, job, cfg, "HWS_JOB"@);
    law_lookup_after_remove(env, "HWS_JOB"@, "HWS_JOB"@);
}

/// The tally after some items, one after the other.
pub open spec fn all_tallied(
    t: TallyView,
    done: Seq<(PlanItemView, crate::fsops::OutcomeView)>,
) -> TallyView
    decreases done.len(),
{
    if done.len() == 0 {
        t
    } else {
        tallied(all_tallied(t, done.drop_last()), done.last().0, done.last().1)
    }
}

/// Whether an item fails the step that it belongs to.
pub open spec fn fails_step(o: crate::fsops::OutcomeView) -> bool {
    o is Failed || o is Refused
}

/// A step that copies fails if and only if an item was refused or failed, be it
/// in the plan or when it was copied; one that is too large or already there
/// fails no step.
pub proof fn law_copy_fails_with_an_item(
    group: Group,
    total: nat,
    refused: nat,
    done: Seq<(PlanItemView, crate::fsops::OutcomeView)>,
)
    ensures
        tally_outcome(all_tallied(fresh_tally(group, total, refused), done)) is Failed <==> (refused
            > 0 || exists|i: int| 0 <= i < done.len() && fails_step((#[trigger] done[i]).1)),
    decreases done.len(),
{
    let t = fresh_tally(group, total, refused);
    if done.len() > 0 {
        let front = done.drop_last();
        law_copy_fails_with_an_item(group, total, refused, front);
        if fails_step(done.last().1) {
            assert(fails_step(done[done.len() - 1].1));
        } else {
            if exists|i: int| 0 <= i < front.len() && fails_step((#[trigger] front[i]).1) {
                let i = choose|i: int| 0 <= i < front.len() && fails_step((#[trigger] front[i]).1);
                assert(fails_step(done[i].1));
            }
            if exists|i: int| 0 <= i < done.len() && fails_step((#[trigger] done[i]).1) {
                let i = choose|i: int| 0 <= i < done.len() && fails_step((#[trigger] done[i]).1);
                assert(i < front.len());
                assert(fails_step(front[i].1));
            }
        }
    }
}

/// Every file that was copied, and no other, is among those that git is asked
/// about.
pub proof fn law_copied_files_are_asked_about(
    group: Group,
    total: nat,
    refused: nat,
    done: Seq<(PlanItemView, crate::fsops::OutcomeView)>,
    rel: Seq<char>,
)
    ensures
        all_tallied(fresh_tally(group, total, refused), done).copied.contains(rel) <==> exists|
            i: int,
        |
            0 <= i < done.len() && (#[trigger] done[i]).0.rel == rel && done[i].1 is Done,
    decreases done.len(),
{
    let t = fresh_tally(group, total, refused);
    if done.len() > 0 {
        let front = done.drop_last();
        law_copied_files_are_asked_about(group, total, refused, front, rel);
        let a = all_tallied(t, front).copied;
        let r = all_tallied(t, done).copied;
        if done.last().1 is Done {
            assert(r == a.push(done.last().0.rel));
            if r.contains(rel) && !a.contains(rel) {
                assert(rel == done[done.len() - 1].0.rel);
            }
            if a.contains(rel) {
                let k = choose|k: int| 0 <= k < a.len() && a[k] == rel;
                assert(r[k] == rel);
            }
            assert(r[r.len() - 1] == done.last().0.rel);
        }
        if a.contains(rel) {
            let i = choose|i: int|
                0 <= i < front.len() && (#[trigger] front[i]).0.rel == rel && front[i].1 is Done;
            assert(done[i].0.rel == rel && done[i].1 is Done);
        }
        if exists|i: int|
            0 <= i < done.len() && (#[trigger] done[i]).0.rel == rel && done[i].1 is Done {
            let i = choose|i: int|
                0 <= i < done.len() && (#[trigger] done[i]).0.rel == rel && done[i].1 is Done;
            if i < front.len() {
                assert(front[i].0.rel == rel && front[i].1 is Done);
            }
        }
    }
}

/// Whether the commands of a job go through mise: it is wanted, the worktree is
/// configured for it, and it was found.
pub open spec fn through_mise(cfg: ConfigView, g: Gathered) -> bool {
    cfg.use_mise && configured_for_mise(texts(g.files@)) && g.mise_bin is Some
}

/// Whether the commands of a job go through direnv: it is wanted, there is an
/// `.envrc`, and it was found.
pub open spec fn through_direnv(cfg: ConfigView, g: Gathered) -> bool {
    cfg.use_direnv && texts(g.files@).contains(".envrc"@) && g.direnv_bin is Some
}

/// The words of both in front of a command, each where the command goes through
/// it.
pub open spec fn managed(job: JobView, cfg: ConfigView, g: Gathered, own: Seq<Seq<char>>) -> Seq<
    Seq<char>,
> {
    let by_mise = if through_mise(cfg, g) {
        seq![g.mise_bin->0@, "exec"@, "--"@] + own
    } else {
        own
    };
    if through_direnv(cfg, g) {
        seq![g.direnv_bin->0@, "exec"@, job.target] + by_mise
    } else {
        by_mise
    }
}

proof fn lemma_prepared(job: JobView, cfg: ConfigView, g: Gathered)
    ensures
        prepared(job, cfg, g).use_mise == through_mise(cfg, g),
        prepared(job, cfg, g).use_direnv == through_direnv(cfg, g),
        prepared(job, cfg, g).job.target == job.target,
        prepared(job, cfg, g).job.dry_run == job.dry_run,
        prepared(job, cfg, g).cfg == cfg,
{
    law_mise_is_configured_by_any_file(job.target, texts(g.files@));
}

/// Every install or custom command that runs has the words of mise directly in
/// front of its own where mise is wanted, configured and found, whether or not
/// there is an `.envrc`; in front of these stand the words of direnv where direnv
/// is wanted, there is an `.envrc` and direnv was found. Nothing else is in it.
pub proof fn law_commands_go_through_the_tool_managers(
    job: JobView,
    cfg: ConfigView,
    g: Gathered,
    cmd: InstallView,
    found: bool,
    def: StepDefView,
    present: bool,
)
    ensures
        ({
            let p = prepared(job, cfg, g);
            &&& install_gate(p, cmd, found) matches GateView::Run(commands) ==> commands == seq![
                managed(job, cfg, g, cmd.argv),
            ]
            &&& custom_gate(p, def, present) matches GateView::Run(commands) ==> commands == seq![
                managed(job, cfg, g, seq!["/bin/sh"@, "-c"@, def.run]),
            ]
        }),
{
    let p = prepared(job, cfg, g);
    lemma_prepared(job, cfg, g);
    assert(tools(p) + cmd.argv =~= managed(job, cfg, g, cmd.argv));
    let own = seq!["/bin/sh"@, "-c"@, def.run];
    assert(tools(p) + own =~= managed(job, cfg, g, own));
}

/// A command runs if and only if it is wanted and nothing is missing, and never in
/// a dry run: an install command needs its tool on the PATH or mise to provide it;
/// a custom step needs the path that it asks for, and one of the repository to be
/// trusted. Only a missing tool is a failure.
pub proof fn law_what_runs(
    job: JobView,
    cfg: ConfigView,
    g: Gathered,
    cmd: InstallView,
    found: bool,
    def: StepDefView,
    present: bool,
)
    ensures
        ({
            let p = prepared(job, cfg, g);
            let own = def.origin == Origin::Default || def.origin == Origin::User;
            &&& install_gate(p, cmd, found) is Run <==> cfg.install && (found || through_mise(
                cfg,
                g,
            )) && !job.dry_run
            &&& install_gate(p, cmd, found) matches GateView::Over(o) ==> {
                &&& o is Failed <==> cfg.install && !found && !through_mise(cfg, g)
                &&& !(o is Succeeded)
            }
            &&& custom_gate(p, def, present) is Run <==> (own || cfg.trust_repo_steps) && (
            def.if_path is None || present) && !job.dry_run
            &&& custom_gate(p, def, present) matches GateView::Over(o) ==> o is Skipped
        }),
{
    lemma_prepared(job, cfg, g);
}

/// Every mise config file of the worktree is trusted, each by one command of the
/// mise that was found, if and only if trusting is wanted and it is no dry run.
pub proof fn law_mise_files_are_trusted(p: PipelineView, files: Seq<Seq<char>>)
    ensures
        mise_gate(p, files) is Run <==> files.len() > 0 && p.cfg.mise_trust && p.mise_bin is Some
            && !p.job.dry_run,
        mise_gate(p, files) matches GateView::Over(o) ==> o is Skipped,
        mise_gate(p, files) matches GateView::Run(commands) ==> {
            &&& commands.len() == files.len()
            &&& forall|i: int|
                0 <= i < files.len() ==> #[trigger] commands[i] == seq![
                    p.mise_bin->0,
                    "trust"@,
                    files[i],
                ]
        },
{
}

/// The `.envrc` of the worktree is allowed by the direnv that was found, if and
/// only if that is wanted and it is no dry run.
pub proof fn law_envrc_is_allowed(p: PipelineView, has_envrc: bool)
    ensures
        direnv_gate(p, has_envrc) is Run <==> has_envrc && p.cfg.direnv_allow && p.direnv_bin
            is Some && !p.job.dry_run,
        direnv_gate(p, has_envrc) matches GateView::Over(o) ==> o is Skipped,
        direnv_gate(p, has_envrc) matches GateView::Run(commands) ==> commands == seq![
            seq![p.direnv_bin->0, "allow"@, p.job.target],
        ],
{
}

/// A job has its steps in a fixed order: dev state, caches, mise, direnv, then one
/// step for each install command and one for each step of the configuration. None
/// has an outcome yet.
pub proof fn law_steps_of_a_job(job: JobView, cfg: ConfigView, g: Gathered, i: int)
    ensures
        ({
            let p = prepared(job, cfg, g);
            let cmds = installs(texts(g.files@), declared(option_text(g.package_json)));
            let n = cmds.len();
            &&& p.steps.len() == 4 + n + cfg.steps.len()
            &&& p.outcomes.len() == p.steps.len()
            &&& 0 <= i < p.outcomes.len() ==> p.outcomes[i] is None
            &&& p.steps[0].kind is CopyState && p.steps[1].kind is CloneCaches
            &&& p.steps[2].kind == KindView::MiseTrust(
                paths_present(job.target, mise_files(), texts(g.files@)),
            )
            &&& p.steps[3].kind is DirenvAllow
            &&& 0 <= i < n ==> p.steps[4 + i].kind == KindView::Install(cmds[i])
            &&& 0 <= i < n ==> p.steps[4 + i].meta.0 == cmds[i].label
            &&& 0 <= i < cfg.steps.len() ==> {
                &&& p.steps[4 + n + i].kind == KindView::Custom(cfg.steps[i])
                &&& p.steps[4 + n + i].meta == (cfg.steps[i].name, cfg.steps[i].run)
            }
        }),
{
}

/// The hint of an install step names the tool managers that its command goes
/// through, those and no others.
pub proof fn law_hints_name_the_tool_managers(job: JobView, cfg: ConfigView, g: Gathered, i: int)
    requires
        0 <= i < installs(texts(g.files@), declared(option_text(g.package_json))).len(),
    ensures
        ({
            let label = installs(
                texts(g.files@),
                declared(option_text(g.package_json)),
            )[i].label;
            prepared(job, cfg, g).steps[4 + i].meta.1 == if through_direnv(cfg, g) && through_mise(
                cfg,
                g,
            ) {
                label + " (via direnv + mise)"@
            } else if through_direnv(cfg, g) {
                label + " (via direnv)"@
            } else if through_mise(cfg, g) {
                label + " (via mise)"@
            } else {
                label
            }
        }),
{
    lemma_prepared(job, cfg, g);
    reveal_strlit(" (via direnv + mise)");
    reveal_strlit(" (via direnv)");
    reveal_strlit(" (via mise)");
    reveal_strlit(" (via ");
    reveal_strlit("direnv + mise");
    reveal_strlit("direnv");
    reveal_strlit("mise");
    reveal_strlit(")");
    let label = installs(texts(g.files@), declared(option_text(g.package_json)))[i].label;
    assert(" (via "@ + "direnv + mise"@ + ")"@ =~= " (via direnv + mise)"@);
    assert(" (via "@ + "direnv"@ + ")"@ =~= " (via direnv)"@);
    assert(" (via "@ + "mise"@ + ")"@ =~= " (via mise)"@);
    assert(label + " (via "@ + "direnv + mise"@ + ")"@ =~= label + (" (via "@ + "direnv + mise"@
        + ")"@));
    assert(label + " (via "@ + "direnv"@ + ")"@ =~= label + (" (via "@ + "direnv"@ + ")"@));
    assert(label + " (via "@ + "mise"@ + ")"@ =~= label + (" (via "@ + "mise"@ + ")"@));
}

/// The hints of the copying steps count what is still to be brought over.
pub proof fn law_hints_count_what_is_pending(job: JobView, cfg: ConfigView, g: Gathered)
    ensures
        ({
            let p = prepared(job, cfg, g);
            let state = pending(grouped(p.plan, Group::State)).len();
            let caches = pending(grouped(p.plan, Group::Caches)).len();
            &&& state > 0 ==> p.steps[0].meta.1 == decimal(state) + " items"@
            &&& state == 0 ==> p.steps[0].meta.1 == "nothing to copy"@
            &&& caches > 0 ==> p.steps[1].meta.1 == decimal(caches) + " dirs"@
            &&& caches == 0 ==> p.steps[1].meta.1 == "nothing to clone"@
            &&& texts(g.files@).contains(".envrc"@) ==> p.steps[3].meta.1 == ".envrc"@
            &&& !texts(g.files@).contains(".envrc"@) ==> p.steps[3].meta.1 == "no .envrc"@
        }),
{
}

/// A step has the time that the configuration gives it, in nanoseconds; with zero
/// seconds there is no limit.
pub proof fn law_steps_have_their_time(job: JobView, cfg: ConfigView, g: Gathered)
    ensures
        cfg.step_timeout_secs == 0 <==> prepared(job, cfg, g).step_timeout is None,
        prepared(job, cfg, g).step_timeout matches Some(n) ==> n == cfg.step_timeout_secs
            * 1_000_000_000,
{
}

proof fn lemma_env_set_all_wins(env: Seq<Pair>, more: Seq<Pair>, k: Seq<char>)
    requires
        ordered(more),
    ensures
        lookup(env_set_all(env, more), k) == if lookup(more, k) is Some {
            lookup(more, k)
        } else {
            lookup(env, k)
        },
    decreases more.len(),
{
    if more.len() > 0 {
        let front = more.drop_last();
        assert forall|i: int, j: int| 0 <= i < j < front.len() implies text_before(
            #[trigger] front[i].0,
            #[trigger] front[j].0,
        ) by {
            assert(text_before(more[i].0, more[j].0));
        }
        lemma_lookup_last(more, k);
        lemma_env_set_all_wins(env, front, k);
        lemma_env_set(env_set_all(env, front), more.last().0, more.last().1, k);
    }
}

/// Every variable of the environment reaches the steps as it is, but for those
/// that tell of the job and those that the configuration sets: there its value
/// counts. Where color is wanted it is asked for.
pub proof fn law_variables_reach_the_steps(
    env: Seq<Pair>,
    job: JobView,
    cfg: ConfigView,
    k: Seq<char>,
)
    requires
        ordered(cfg.env),
    ensures
        ({
            let e = step_env_for(env, job, cfg);
            &&& lookup(cfg.env, k) is Some ==> lookup(e, k) == lookup(cfg.env, k)
            &&& lookup(cfg.env, k) is None && k != "HWS_JOB"@ && k != "HWS_SOURCE"@ && k
                != "HWS_TARGET"@ && k != "HWS_BRANCH"@ && k != "HWS_WORKSPACE_ID"@ && k
                != "FORCE_COLOR"@ ==> lookup(e, k) == lookup(env, k)
            &&& lookup(cfg.env, k) is None && k == "FORCE_COLOR"@ && cfg.color ==> lookup(e, k)
                == Some(seq!['1'])
            &&& lookup(cfg.env, k) is None && k == "FORCE_COLOR"@ && !cfg.color ==> lookup(e, k)
                == lookup(env, k)
        }),
{
    let a = crate::envmap::without(env, "HWS_JOB"@);
    let b = env_set(a, "HWS_SOURCE"@, job.source);
    let c = env_set(b, "HWS_TARGET"@, job.target);
    let d = env_set(c, "HWS_BRANCH"@, text_or_empty(job.branch));
    let e = env_set(d, "HWS_WORKSPACE_ID"@, text_or_empty(job.workspace_id));
    law_lookup_after_remove(env, "HWS_JOB"@, k);
    lemma_env_set(a, "HWS_SOURCE"@, job.source, k);
    lemma_env_set(b, "HWS_TARGET"@, job.target, k);
    lemma_env_set(c, "HWS_BRANCH"@, text_or_empty(job.branch), k);
    lemma_env_set(d, "HWS_WORKSPACE_ID"@, text_or_empty(job.workspace_id), k);
    lemma_env_set(e, "FORCE_COLOR"@, "1"@, k);
    lemma_env_set_all_wins(e, cfg.env, k);
    lemma_env_set_all_wins(env_set(e, "FORCE_COLOR"@, "1"@), cfg.env, k);
    reveal_strlit("HWS_JOB");
    reveal_strlit("HWS_SOURCE");
    reveal_strlit("HWS_TARGET");
    reveal_strlit("HWS_BRANCH");
    reveal_strlit("HWS_WORKSPACE_ID");
    reveal_strlit("FORCE_COLOR");
    reveal_strlit("1");
    assert("1"@ =~= seq!['1']);
    assert("HWS_JOB"@.len() == 7 && "HWS_WORKSPACE_ID"@.len() == 16 && "FORCE_COLOR"@.len() == 11);
    assert("HWS_SOURCE"@.len() == 10 && "HWS_TARGET"@.len() == 10 && "HWS_BRANCH"@.len() == 10);
}

/// A command that ends with zero has succeeded, and no other: one that could not
/// be started is reported by what stopped it, one that took too long as such, and
/// any other by its exit code.
pub proof fn law_only_zero_is_success(
    p: PipelineView,
    what: Seq<char>,
    r: Result<i32, String>,
    def: StepDefView,
)
    ensures
        command_failure(p, what, r) is None <==> r == Ok::<i32, String>(0),
        r matches Err(e) ==> command_failure(p, what, r) == Some(e@),
        r matches Ok(code) ==> code != 0 && code != TIMED_OUT ==> command_failure(p, what, r)
            == Some(what + "exited "@ + signed_decimal(code as int)),
        r == Ok::<i32, String>(TIMED_OUT) && p.step_timeout == timeout_of(p.cfg.step_timeout_secs)
            && p.cfg.step_timeout_secs > 0 ==> command_failure(p, what, r) == Some(
            "timed out after "@ + decimal(p.cfg.step_timeout_secs as nat) + "s"@,
        ),
        custom_outcome(p, def, r) is Succeeded <==> r == Ok::<i32, String>(0),
        custom_outcome(p, def, r) is Failed <==> r != Ok::<i32, String>(0)
            && !def.continue_on_error,
{
    if p.cfg.step_timeout_secs > 0 {
        let s = p.cfg.step_timeout_secs as int;
        assert((s * 1000000000) / 1000000000 == s) by (nonlinear_arith);
    }
}

/// How many items were really copied, how many failed and how many were refused is
/// counted, each item once.
pub open spec fn counted(
    done: Seq<(PlanItemView, crate::fsops::OutcomeView)>,
    f: spec_fn(crate::fsops::OutcomeView) -> bool,
) -> nat
    decreases done.len(),
{
    if done.len() == 0 {
        0
    } else {
        counted(done.drop_last(), f) + if f(done.last().1) {
            1nat
        } else {
            0nat
        }
    }
}

/// All bytes that were copied for some items.
pub open spec fn bytes_of(done: Seq<(PlanItemView, crate::fsops::OutcomeView)>) -> nat
    decreases done.len(),
{
    if done.len() == 0 {
        0
    } else {
        bytes_of(done.drop_last()) + match done.last().1 {
            crate::fsops::OutcomeView::Done { bytes, .. } => bytes as nat,
            _ => 0nat,
        }
    }
}

/// All files that were copied for some items.
pub open spec fn files_of(done: Seq<(PlanItemView, crate::fsops::OutcomeView)>) -> nat
    decreases done.len(),
{
    if done.len() == 0 {
        0
    } else {
        files_of(done.drop_last()) + match done.last().1 {
            crate::fsops::OutcomeView::Done { files, .. } => files as nat,
            _ => 0nat,
        }
    }
}

/// A tally counts each item once, as what came of it, adds up the files and the
/// bytes, and names each way of copying that was used, and no other.
pub proof fn law_tally_counts_every_item(
    group: Group,
    total: nat,
    refused: nat,
    done: Seq<(PlanItemView, crate::fsops::OutcomeView)>,
    way: Method,
)
    requires
        bytes_of(done) <= u64::MAX,
        files_of(done) <= u64::MAX,
    ensures
        ({
            let t = all_tallied(fresh_tally(group, total, refused), done);
            &&& t.group == group && t.total == total
            &&& t.done == counted(done, |o: crate::fsops::OutcomeView| o is Done)
            &&& t.failed == counted(done, |o: crate::fsops::OutcomeView| o is Failed)
            &&& t.refused == refused + counted(
                done,
                |o: crate::fsops::OutcomeView| o is Refused,
            )
            &&& t.bytes == bytes_of(done)
            &&& t.files == files_of(done)
            &&& t.copied.len() == t.done
            &&& t.methods.contains(way) <==> exists|i: int|
                0 <= i < done.len() && copied_by((#[trigger] done[i]).1, way)
        }),
    decreases done.len(),
{
    let start = fresh_tally(group, total, refused);
    if done.len() > 0 {
        let front = done.drop_last();
        law_tally_counts_every_item(group, total, refused, front, way);
        let a = all_tallied(start, front);
        let t = all_tallied(start, done);
        assert(t == tallied(a, done.last().0, done.last().1));
        assert(done[done.len() - 1] == done.last());
        if exists|i: int| 0 <= i < front.len() && copied_by((#[trigger] front[i]).1, way) {
            let i = choose|i: int| 0 <= i < front.len() && copied_by((#[trigger] front[i]).1, way);
            assert(copied_by(done[i].1, way));
        }
        if exists|i: int| 0 <= i < done.len() && copied_by((#[trigger] done[i]).1, way) {
            let i = choose|i: int| 0 <= i < done.len() && copied_by((#[trigger] done[i]).1, way);
            if i < front.len() {
                assert(copied_by(front[i].1, way));
            }
        }
        if a.methods.contains(way) {
            let k = choose|k: int| 0 <= k < a.methods.len() && a.methods[k] == way;
            assert(t.methods[k] == way);
        }
        if copied_by(done.last().1, way) && !a.methods.contains(way) {
            assert(t.methods[t.methods.len() - 1] == way);
        }
        if t.methods.contains(way) && !a.methods.contains(way) {
            assert(copied_by(done.last().1, way));
        }
    }
}

/// Whether an item was copied this way.
pub open spec fn copied_by(o: crate::fsops::OutcomeView, way: Method) -> bool {
    o matches crate::fsops::OutcomeView::Done { method, .. } && method == way
}

/// Items are copied if and only if some are pending and it is no dry run. With
/// nothing to do a step is skipped; items that are refused fail it either way.
pub proof fn law_copying_starts_with_something_to_copy(
    items: Seq<PlanItemView>,
    group: Group,
    dry_run: bool,
)
    ensures
        start_outcome(items, group, dry_run) is None <==> pending(items).len() > 0 && !dry_run,
        start_outcome(items, group, dry_run) matches Some(o) ==> {
            &&& o is Failed <==> blocked(items).len() > 0
            &&& o is Skipped <==> blocked(items).len() == 0 && pending(items).len() == 0
            &&& o is Succeeded <==> blocked(items).len() == 0 && pending(items).len() > 0
            &&& o is Succeeded ==> o == OutcomeView::Succeeded(
                decimal(pending(items).len()) + " planned"@,
            )
            &&& o is Failed ==> o == OutcomeView::Failed(
                decimal(blocked(items).len()) + " refused for safety"@,
            )
        },
{
}

/// Before a group is copied, every item that is kept or refused is named, and in a
/// dry run every one that would be copied.
pub proof fn law_every_item_is_named(items: Seq<PlanItemView>, dry_run: bool, x: PlanItemView)
    requires
        items.contains(x),
    ensures
        ({
            let lines = start_lines(items, dry_run);
            &&& x.state == StateView::Exists ==> lines.contains(
                "= "@ + x.rel + "  (already in worktree, kept)"@,
            )
            &&& x.state matches StateView::Blocked(why) ==> lines.contains(
                "! "@ + x.rel + "  refused: "@ + why,
            )
            &&& x.state == StateView::Pending && dry_run ==> lines.contains(would_line(x))
            &&& lines.len() == existing(items).len() + blocked(items).len() + if dry_run {
                pending(items).len()
            } else {
                0
            }
        }),
{
    law_groups_and_states(items, x);
    let lines = start_lines(items, dry_run);
    let e = existing(items);
    let b = blocked(items);
    let p = pending(items);
    if x.state == StateView::Exists {
        let i = choose|i: int| 0 <= i < e.len() && e[i] == x;
        assert(lines[i] == kept_line(x.rel));
    }
    if x.state is Blocked {
        let i = choose|i: int| 0 <= i < b.len() && b[i] == x;
        assert(lines[e.len() + i] == refused_line(x.rel, x.state->Blocked_0));
    }
    if x.state == StateView::Pending && dry_run {
        let i = choose|i: int| 0 <= i < p.len() && p[i] == x;
        assert(lines[e.len() + b.len() + i] == would_line(x));
    }
}

/// The home directory, and no other start of a path, is shown as `~`.
pub proof fn law_home_is_shown_short(home: Seq<char>, rest: Seq<char>, path: Seq<char>)
    requires
        home.len() > 0,
    ensures
        shortened(home + rest, Some(home)) == seq!['~'] + rest,
        !home.is_prefix_of(path) ==> shortened(path, Some(home)) == path,
        shortened(path, None) == path,
{
    reveal_strlit("~");
    assert("~"@ =~= seq!['~']);
    let whole = home + rest;
    assert(home =~= whole.subrange(0, home.len() as int));
    assert(whole.skip(home.len() as int) =~= rest);
}

/// What is shown above a run is what the job and the configuration say.
pub proof fn law_header_shows_the_job(job: JobView, cfg: ConfigView, g: Gathered, i: int)
    ensures
        ({
            let h = header_of(prepared(job, cfg, g));
            let home = option_text(g.home);
            &&& h.repo_name == job.repo_name
            &&& job.branch is Some ==> h.branch == job.branch
            &&& h.source == shortened(job.source, home)
            &&& h.target == shortened(job.target, home)
            &&& h.dry_run == job.dry_run
            &&& h.warnings == cfg.warnings
            &&& h.layers.len() == cfg.layers.len()
            &&& 0 <= i < cfg.layers.len() ==> h.layers[i] == shortened(cfg.layers[i].1, home)
        }),
{
}

/// A step is to be run again if and only if it has failed, whatever the reason.
pub proof fn law_only_failures_are_retried(
    outcomes: Seq<Option<OutcomeView>>,
    k: nat,
    why: Seq<char>,
)
    requires
        k < outcomes.len(),
    ensures
        outcomes[k as int] == Some(OutcomeView::Failed(why)) ==> failed_of(
            outcomes,
            outcomes.len(),
        ).contains(k),
        outcomes[k as int] == Some(OutcomeView::Succeeded(why)) || outcomes[k as int] == Some(
            OutcomeView::Skipped(why),
        ) || outcomes[k as int] is None ==> !failed_of(outcomes, outcomes.len()).contains(k),
{
    law_retry_runs_what_failed(outcomes, outcomes.len(), k);
}

/// Each copied path is handed to git with a NUL behind it, in order.
pub proof fn law_paths_are_handed_to_git(copied: Seq<Seq<char>>, more: Seq<Seq<char>>, rel: Seq<char>)
    ensures
        check_ignore_bytes(seq![rel]) == encode_utf8(rel) + seq![0u8],
        check_ignore_bytes(copied + more) == check_ignore_bytes(copied) + check_ignore_bytes(more),
    decreases more.len(),
{
    assert(seq![rel].drop_last() =~= Seq::<Seq<char>>::empty());
    assert(check_ignore_bytes(seq![rel].drop_last()) =~= Seq::<u8>::empty());
    assert(check_ignore_bytes(seq![rel]) =~= encode_utf8(rel) + seq![0u8]);
    if more.len() > 0 {
        law_paths_are_handed_to_git(copied, more.drop_last(), rel);
        assert((copied + more).drop_last() =~= copied + more.drop_last());
        assert(check_ignore_bytes(copied + more) =~= check_ignore_bytes(copied)
            + check_ignore_bytes(more));
    } else {
        assert(copied + more =~= copied);
        assert(check_ignore_bytes(copied + more) =~= check_ignore_bytes(copied)
            + check_ignore_bytes(more));
    }
}

/// A path is taken for ignored if and only if git printed it.
pub proof fn law_printed_paths_are_ignored(recs: Seq<Seq<u8>>, rel: Seq<char>)
    ensures
        ignored_paths(recs).contains(rel) <==> exists|i: int|
            0 <= i < recs.len() && valid_utf8(#[trigger] recs[i]) && decode_utf8(recs[i]) == rel,
    decreases recs.len(),
{
    let r = ignored_paths(recs);
    if recs.len() > 0 {
        let front = recs.drop_last();
        law_printed_paths_are_ignored(front, rel);
        let a = ignored_paths(front);
        if a.contains(rel) {
            let k = choose|k: int| 0 <= k < a.len() && a[k] == rel;
            assert(r[k] == rel);
            let i = choose|i: int|
                0 <= i < front.len() && valid_utf8(#[trigger] front[i]) && decode_utf8(front[i])
                    == rel;
            assert(recs[i] == front[i]);
        }
        if valid_utf8(recs.last()) {
            assert(r[r.len() - 1] == decode_utf8(recs.last()));
        }
        if r.contains(rel) && !a.contains(rel) {
            assert(valid_utf8(recs[recs.len() - 1]));
        }
        if exists|i: int|
            0 <= i < recs.len() && valid_utf8(#[trigger] recs[i]) && decode_utf8(recs[i]) == rel {
            let i = choose|i: int|
                0 <= i < recs.len() && valid_utf8(#[trigger] recs[i]) && decode_utf8(recs[i])
                    == rel;
            if i < front.len() {
                assert(front[i] == recs[i]);
            }
        }
    }
}

/// A job is planned by the patterns of its configuration, from all that was found
/// in the source checkout, against what there is in the worktree. It cannot be
/// started if and only if the patterns make no rules or the listing does not fit
/// what was looked at.
pub proof fn law_plan_is_made_of_what_was_gathered(job: JobView, cfg: ConfigView, g: Gathered)
    ensures
        prepared(job, cfg, g).plan == planned(
            rules_of(cfg.exclude, cfg.symlink, cfg.clone, cfg.copy),
            listings_view(g.listings@),
            ignored(g.ignored@, g.stats@, g.in_git@),
            job.target,
            texts(g.view.present@),
            texts(g.view.symlinks@),
        ),
        not_prepared(cfg, g) is None <==> rules_fault(
            cfg.exclude,
            cfg.symlink,
            cfg.clone,
            cfg.copy,
        ) is None && g.stats@.len() == entries_of(lossy_texts(records(g.ignored@))).len(),
        prepared(job, cfg, g).mise_bin == option_text(g.mise_bin),
        prepared(job, cfg, g).direnv_bin == option_text(g.direnv_bin),
        prepared(job, cfg, g).step_env == step_env_for(g.env.vars@, on_branch(job, g.branch), cfg),
{
}

/// A step that is skipped says why: there is nothing for it, it is switched off, its
/// tool is missing, or it is a dry run.
pub proof fn law_skipped_steps_say_why(
    p: PipelineView,
    files: Seq<Seq<char>>,
    cmd: InstallView,
    found: bool,
    def: StepDefView,
)
    ensures
        mise_gate(p, Seq::empty()) == GateView::Over(OutcomeView::Skipped("no mise config"@)),
        files.len() > 0 && !p.cfg.mise_trust ==> mise_gate(p, files) == GateView::Over(
            OutcomeView::Skipped("disabled (mise_trust = false)"@),
        ),
        files.len() > 0 && p.cfg.mise_trust && p.mise_bin is None ==> mise_gate(p, files)
            == GateView::Over(
            OutcomeView::Skipped("mise not found on PATH ("@ + p.env_text + ")"@),
        ),
        direnv_gate(p, false) == GateView::Over(OutcomeView::Skipped("no .envrc"@)),
        !p.cfg.direnv_allow ==> direnv_gate(p, true) == GateView::Over(
            OutcomeView::Skipped("disabled (direnv_allow = false)"@),
        ),
        p.cfg.direnv_allow && p.direnv_bin is None ==> direnv_gate(p, true) == GateView::Over(
            OutcomeView::Skipped("direnv not found on PATH ("@ + p.env_text + ")"@),
        ),
        !p.cfg.install ==> install_gate(p, cmd, found) == GateView::Over(
            OutcomeView::Skipped("disabled (install = false)"@),
        ),
        p.cfg.install && !p.use_mise && !found ==> install_gate(p, cmd, found) == GateView::Over(
            OutcomeView::Failed(
                "`"@ + cmd.tool + "` not found on PATH (resolved from "@ + p.env_text + ")"@,
            ),
        ),
        (def.origin == Origin::Repo || def.origin == Origin::RepoLocal) && !p.cfg.trust_repo_steps
            ==> custom_gate(p, def, found) == GateView::Over(
            OutcomeView::Skipped("repo step not run (trust_repo_steps = false)"@),
        ),
        (def.origin == Origin::User && def.if_path is Some) ==> custom_gate(p, def, false)
            == GateView::Over(OutcomeView::Skipped("if: "@ + def.if_path->0 + " not present"@)),
{
}

/// What came of an item is said with its path: how a directory was brought over and
/// how much of it, how a file was, or why an item was not.
pub proof fn law_items_are_reported(
    item: PlanItemView,
    way: Method,
    files: u64,
    bytes: u64,
    why: Seq<char>,
)
    ensures
        ({
            let done = crate::fsops::OutcomeView::Done { method: way, files, bytes };
            &&& item.is_dir && !item.is_symlink && bytes > 0 ==> item_line(item, done) == "✓ "@
                + item.rel + "/  ("@ + way.text() + ", "@ + decimal(files as nat) + " files"@ + (
            ", "@ + size_text(bytes as nat)) + ")"@
            &&& !item.is_dir || item.is_symlink ==> item_line(item, done) == "✓ "@ + item.rel
                + "  ("@ + way.text() + ")"@
            &&& item_line(item, crate::fsops::OutcomeView::Exists) == "= "@ + item.rel
                + "  (already in worktree, kept)"@
            &&& item_line(item, crate::fsops::OutcomeView::Refused(why)) == "! "@ + item.rel
                + "  refused: "@ + why
            &&& item_line(item, crate::fsops::OutcomeView::Failed(why)) == "✗ "@ + item.rel + "  "@
                + why
            &&& item_line(item, crate::fsops::OutcomeView::TooLarge { bytes }) == "! "@ + item.rel
                + "  skipped: "@ + size_text(bytes as nat)
                + " exceeds the copy cap and this volume cannot reflink"@
            &&& way.text() == match way {
                Method::ApfsClone => "APFS clone"@,
                Method::Reflink => "reflink"@,
                Method::Copy => "copy"@,
                Method::Symlink => "symlink"@,
            }
        }),
{
}

/// The outcome of a copying step gives the number of items that failed, else of
/// those that were refused, else of those that were brought over.
pub proof fn law_copying_is_summed_up(t: TallyView)
    ensures
        ({
            let o = tally_outcome(t);
            let how = join(method_texts(t.methods), "+"@);
            &&& t.failed > 0 ==> o == OutcomeView::Failed(
                decimal(t.failed) + " of "@ + decimal(t.total) + " failed"@,
            )
            &&& t.failed == 0 && t.refused > 0 ==> o == OutcomeView::Failed(
                decimal(t.refused) + " refused for safety"@,
            )
            &&& t.failed == 0 && t.refused == 0 && t.group == Group::State ==> o
                == OutcomeView::Succeeded(decimal(t.done) + " items via "@ + how)
            &&& t.failed == 0 && t.refused == 0 && t.group == Group::Caches && t.bytes > 0 ==> o
                == OutcomeView::Succeeded(
                decimal(t.done) + " dirs via "@ + how + " ("@ + decimal(t.files as nat) + " files"@
                    + (", "@ + size_text(t.bytes as nat)) + ")"@,
            )
        }),
{
}

/// In a dry run an item is named with what would be done to it and what it is.
pub proof fn law_dry_run_names_the_action(item: PlanItemView)
    ensures
        ({
            let verb = match item.action {
                Some(crate::planner::PlanAction::Clone) => "clone"@,
                Some(crate::planner::PlanAction::Symlink) => "symlink"@,
                _ => "copy"@,
            };
            &&& item.is_symlink ==> would_line(item) == "~ would "@ + verb + " "@ + item.rel
                + " (symlink)"@
            &&& !item.is_symlink && item.is_dir ==> would_line(item) == "~ would "@ + verb + " "@
                + item.rel + "/"@
            &&& !item.is_symlink && !item.is_dir ==> would_line(item) == "~ would "@ + verb + " "@
                + item.rel + ""@
        }),
{
}

/// Git is asked in the worktree, with the paths on its input, each taken literally;
/// the warning counts and names all paths that it does not ignore.
pub proof fn law_git_is_asked_about_the_worktree(target: Seq<char>, paths: Seq<Seq<char>>)
    ensures
        check_ignore_call(target).take(2) == seq!["-C"@, target],
        check_ignore_call(target).contains("check-ignore"@),
        check_ignore_call(target).contains("--stdin"@),
        check_ignore_call(target).contains("-z"@),
        check_ignore_call(target).contains("--literal-pathspecs"@),
        exposed_line(paths) == "! "@ + decimal(paths.len())
            + " copied file(s) are NOT gitignored on this branch — `git add -A` would commit them: "@
            + join(paths, ", "@),
{
    let call = check_ignore_call(target);
    assert(call.take(2) =~= seq!["-C"@, target]);
    assert(call[2] == "--literal-pathspecs"@);
    assert(call[3] == "check-ignore"@);
    assert(call[4] == "--stdin"@);
    assert(call[5] == "-z"@);
}

/// The step that trusts mise config files names them all by their own names.
pub proof fn law_mise_files_are_named(dir: Seq<Seq<char>>, name: Seq<char>)
    requires
        plain_names(dir.push(name)),
        name != seq!['.', '.'],
    ensures
        mise_hint(Seq::empty()) == "no mise config"@,
        mise_hint(seq![from_root(dir.push(name))]) == name,
        trusted_text(1) == "trusted "@ + decimal(1) + " file"@ + ""@,
        trusted_text(2) == "trusted "@ + decimal(2) + " file"@ + "s"@,
{
    law_components_of_a_path(dir.push(name));
    let files = seq![from_root(dir.push(name))];
    assert(base_names(files) =~= seq![name]);
}

} // verus!
