//! What is printed of a run line by line, for panes that are no terminal and for
//! `plan`.

use vstd::prelude::*;
use vstd::string::*;
use vstd::utf8::*;
use crate::bytes::{lossy, lossy_text};
use crate::digits::{decimal, decimal_text};
use crate::pipeline::{
    metas_view, EventView, Header, HeaderView, MetaView, Outcome, OutcomeView, StepMeta,
    WorkerEvent,
};
use crate::text::{glue, glue3, lemma_texts_push, texts};
use super::state::{applied, exit_of, AppView};

verus! {

/// What `strip_ansi_escapes::strip` leaves of some bytes.
pub uninterp spec fn without_escapes(bytes: Seq<u8>) -> Seq<u8>;

/// `strip_ansi_escapes::strip` takes the terminal escape sequences, and the
/// control characters but for line feeds, out of the bytes of a text. What it
/// leaves depends on those bytes alone; which of them make up a sequence is left
/// unsaid.
#[verifier::external_body]
fn strip_escapes(text: &str) -> (r: Vec<u8>)
    ensures
        r@ == without_escapes(encode_utf8(text@)),
{
    strip_ansi_escapes::strip(text)
}

/// A text without terminal escape sequences.
pub open spec fn stripped(text: Seq<char>) -> Seq<char> {
    lossy_text(without_escapes(encode_utf8(text)))
}

/// A text without terminal escape sequences.
pub fn strip(text: &str) -> (r: String)
    ensures
        r@ == stripped(text@),
{
    let bytes = strip_escapes(text);
    lossy(bytes.as_slice())
}

// --- the plan ----------------------------------------------------------------

/// The first line of a plan.
pub open spec fn title_line(h: HeaderView) -> Seq<char> {
    "Worktree Setup — "@ + h.repo_name + match h.branch {
        Some(b) => " · "@ + b,
        None => Seq::empty(),
    } + " → "@ + h.target + if h.dry_run {
        "  (dry run)"@
    } else {
        ""@
    }
}

/// The line about where state comes from.
pub open spec fn source_line(h: HeaderView) -> Seq<char> {
    "  source: "@ + h.source + "  env: "@ + h.env_origin
}

/// Each of some texts behind a label.
pub open spec fn labelled(label: Seq<char>, list: Seq<Seq<char>>) -> Seq<Seq<char>> {
    Seq::new(list.len(), |i: int| label + list[i])
}

/// The line about a step of the plan; steps are counted from one.
pub open spec fn step_line(i: int, meta: MetaView) -> Seq<char> {
    "  "@ + decimal((i + 1) as nat) + ". "@ + meta.0 + "  ("@ + meta.1 + ")"@
}

/// What is printed of a plan.
pub open spec fn plan_lines(h: HeaderView, steps: Seq<MetaView>) -> Seq<Seq<char>> {
    seq![title_line(h), source_line(h)] + labelled("  config: "@, h.layers) + labelled(
        "  warning: "@,
        h.warnings,
    ) + Seq::new(steps.len(), |i: int| step_line(i, steps[i]))
}

/// The names of some steps.
pub open spec fn names_of(steps: Seq<MetaView>) -> Seq<Seq<char>> {
    Seq::new(steps.len(), |i: int| steps[i].0)
}

// --- the reports -------------------------------------------------------------

/// The name of a step; none where there is no such step.
pub open spec fn name_at(names: Seq<Seq<char>>, idx: usize) -> Seq<char> {
    if idx < names.len() {
        names[idx as int]
    } else {
        Seq::empty()
    }
}

/// The line about a step that came to its end. `took` is how long it took.
pub open spec fn finish_line(name: Seq<char>, outcome: OutcomeView, took: Seq<char>) -> Seq<char> {
    match outcome {
        OutcomeView::Succeeded(d) => "✓ "@ + name + ": "@ + d + "  ["@ + took + "]"@,
        OutcomeView::Skipped(d) => "– "@ + name + ": "@ + d,
        OutcomeView::Failed(d) => "✗ "@ + name + ": "@ + d + "  ["@ + took + "]"@,
    }
}

/// What is printed of a report.
pub open spec fn printed(names: Seq<Seq<char>>, ev: EventView, took: Seq<char>) -> Seq<Seq<char>> {
    match ev {
        EventView::Preparing(what) => seq!["… "@ + what],
        EventView::Plan { header, steps } => plan_lines(header, steps),
        EventView::Started { idx } => seq!["\n▶ "@ + name_at(names, idx)],
        EventView::Line { idx, text } => seq!["  "@ + stripped(text)],
        EventView::Finished { idx, outcome, took: _ } => seq![
            finish_line(name_at(names, idx), outcome, took),
        ],
        EventView::Done { ok } => seq![
            if ok {
                "\nready ✓"@
            } else {
                "\nsome steps failed ✗"@
            },
        ],
        EventView::Fatal(msg) => seq!["\nerror: "@ + msg],
    }
}

/// The exit code of a run that a report ends.
pub open spec fn ends_with(ev: EventView) -> Option<i32> {
    match ev {
        EventView::Done { ok } => if ok {
            Some(0)
        } else {
            Some(1)
        },
        EventView::Fatal(_) => Some(2),
        _ => None,
    }
}

/// What prints a run line by line.
#[derive(Debug)]
pub struct Printer {
    names: Vec<String>,
}

impl View for Printer {
    type V = Seq<Seq<char>>;

    /// The names of the steps.
    closed spec fn view(&self) -> Seq<Seq<char>> {
        texts(self.names@)
    }
}

fn push_labelled(out: &mut Vec<String>, label: &str, list: &Vec<String>)
    ensures
        texts(final(out)@) == texts(old(out)@) + labelled(label@, texts(list@)),
{
    broadcast use lemma_texts_push;

    let ghost before = texts(out@);
    let ghost all = labelled(label@, texts(list@));
    let mut i: usize = 0;
    assert(texts(out@) =~= before + all.take(0));
    while i < list.len()
        invariant
            i <= list.len(),
            all == labelled(label@, texts(list@)),
            texts(out@) == before + all.take(i as int),
        decreases list.len() - i,
    {
        let line = glue(label, list[i].as_str());
        let ghost so_far = texts(out@);
        out.push(line);
        assert(texts(out@) =~= so_far.push(line@));
        assert(all[i as int] == line@);
        assert(texts(out@) =~= before + all.take(i + 1));
        i += 1;
    }
    assert(all.take(i as int) =~= all);
}

fn push_steps(out: &mut Vec<String>, steps: &Vec<StepMeta>)
    ensures
        texts(final(out)@) == texts(old(out)@) + Seq::new(
            metas_view(steps@).len(),
            |i: int| step_line(i, metas_view(steps@)[i]),
        ),
{
    broadcast use lemma_texts_push;

    let ghost before = texts(out@);
    let ghost all = Seq::new(
        metas_view(steps@).len(),
        |i: int| step_line(i, metas_view(steps@)[i]),
    );
    let mut i: usize = 0;
    assert(texts(out@) =~= before + all.take(0));
    while i < steps.len()
        invariant
            i <= steps.len(),
            all == Seq::new(
                metas_view(steps@).len(),
                |i: int| step_line(i, metas_view(steps@)[i]),
            ),
            texts(out@) == before + all.take(i as int),
        decreases steps.len() - i,
    {
        let mut line = glue3("  ", decimal_text(i as u128 + 1).as_str(), ". ");
        line.append(steps[i].name.as_str());
        line.append("  (");
        line.append(steps[i].hint.as_str());
        line.append(")");
        let ghost so_far = texts(out@);
        out.push(line);
        assert(texts(out@) =~= so_far.push(line@));
        assert(all[i as int] == line@);
        assert(texts(out@) =~= before + all.take(i + 1));
        i += 1;
    }
    assert(all.take(i as int) =~= all);
}

fn title_text(h: &Header) -> (r: String)
    ensures
        r@ == title_line(h@),
{
    let mut out = glue("Worktree Setup — ", h.repo_name.as_str());
    match &h.branch {
        Some(b) => {
            let part = glue(" · ", b.as_str());
            out.append(part.as_str());
        },
        None => {
            assert(out@ + Seq::<char>::empty() =~= out@);
        },
    }
    out.append(" → ");
    out.append(h.target.as_str());
    if h.dry_run {
        out.append("  (dry run)");
    } else {
        out.append("");
    }
    out
}

fn plan_text(header: &Header, steps: &Vec<StepMeta>) -> (r: Vec<String>)
    ensures
        texts(r@) == plan_lines(header@, metas_view(steps@)),
{
    broadcast use lemma_texts_push;

    let mut source = glue3("  source: ", header.source.as_str(), "  env: ");
    source.append(header.env_origin.as_str());
    let mut out: Vec<String> = Vec::new();
    out.push(title_text(header));
    out.push(source);
    assert(texts(out@) =~= seq![title_line(header@), source_line(header@)]);
    push_labelled(&mut out, "  config: ", &header.layers);
    push_labelled(&mut out, "  warning: ", &header.warnings);
    push_steps(&mut out, steps);
    out
}

fn step_names(steps: &Vec<StepMeta>) -> (r: Vec<String>)
    ensures
        texts(r@) == names_of(metas_view(steps@)),
{
    let mut out: Vec<String> = Vec::new();
    let mut i: usize = 0;
    while i < steps.len()
        invariant
            i <= steps.len(),
            out@.len() == i,
            forall|k: int| 0 <= k < i ==> (#[trigger] out@[k])@ == steps@[k]@.0,
        decreases steps.len() - i,
    {
        out.push(steps[i].name.clone());
        i += 1;
    }
    assert(texts(out@) =~= names_of(metas_view(steps@)));
    out
}

fn finish_text(name: &str, outcome: &Outcome, took: &str) -> (r: String)
    ensures
        r@ == finish_line(name@, outcome@, took@),
{
    match outcome {
        Outcome::Succeeded(d) => {
            let mut out = glue3("✓ ", name, ": ");
            out.append(d.as_str());
            out.append("  [");
            out.append(took);
            out.append("]");
            out
        },
        Outcome::Skipped(d) => {
            let mut out = glue3("– ", name, ": ");
            out.append(d.as_str());
            out
        },
        Outcome::Failed(d) => {
            let mut out = glue3("✗ ", name, ": ");
            out.append(d.as_str());
            out.append("  [");
            out.append(took);
            out.append("]");
            out
        },
    }
}

fn one_line(line: String) -> (r: Vec<String>)
    ensures
        texts(r@) == seq![line@],
{
    let mut out: Vec<String> = Vec::new();
    out.push(line);
    assert(texts(out@) =~= seq![line@]);
    out
}

impl Printer {
    /// A printer that knows of no step yet.
    pub fn new() -> (r: Printer)
        ensures
            r@ == Seq::<Seq<char>>::empty(),
    {
        let r = Printer { names: Vec::new() };
        assert(texts(r.names@) =~= Seq::<Seq<char>>::empty());
        r
    }

    fn name(&self, idx: usize) -> (r: &str)
        ensures
            r@ == name_at(self@, idx),
    {
        if idx < self.names.len() {
            self.names[idx].as_str()
        } else {
            proof {
                reveal_strlit("");
            }
            assert(""@ =~= Seq::empty());
            ""
        }
    }

    /// What is printed of a report, line by line. `took` says how long a step
    /// took that came to its end.
    pub fn show(&mut self, ev: &WorkerEvent, took: &str) -> (r: Vec<String>)
        ensures
            texts(r@) == printed(old(self)@, ev@, took@),
            final(self)@ == match ev@ {
                EventView::Plan { header: _, steps } => names_of(steps),
                _ => old(self)@,
            },
    {
        match ev {
            WorkerEvent::Preparing(what) => one_line(glue("… ", what.as_str())),
            WorkerEvent::Plan { header, steps } => {
                self.names = step_names(steps);
                plan_text(header, steps)
            },
            WorkerEvent::Started { idx } => one_line(glue("\n▶ ", self.name(*idx))),
            WorkerEvent::Line { idx: _, text } => one_line(
                glue("  ", strip(text.as_str()).as_str()),
            ),
            WorkerEvent::Finished { idx, outcome, took: _ } => one_line(
                finish_text(self.name(*idx), outcome, took),
            ),
            WorkerEvent::Done { ok } => if *ok {
                one_line("\nready ✓".to_owned())
            } else {
                one_line("\nsome steps failed ✗".to_owned())
            },
            WorkerEvent::Fatal(msg) => one_line(glue("\nerror: ", msg.as_str())),
        }
    }

    /// The exit code, where the run ends with this report.
    pub fn exit_code(ev: &WorkerEvent) -> (r: Option<i32>)
        ensures
            r == ends_with(ev@),
    {
        match ev {
            WorkerEvent::Done { ok } => if *ok {
                Some(0)
            } else {
                Some(1)
            },
            WorkerEvent::Fatal(_) => Some(2),
            _ => None,
        }
    }
}

/// A run ends with the same exit code on the screen and line by line.
pub proof fn law_exit_codes_agree(app: AppView, ev: EventView, now: u64)
    requires
        app.fatal is None,
        ends_with(ev) is Some,
    ensures
        exit_of(applied(app, ev, now)) == ends_with(ev)->0,
{
}

/// Everything that is reported is printed: each step that starts by its name, each
/// line of output behind two spaces, each end of a step with its name and what came
/// of it, and at the end how it went.
pub proof fn law_reports_are_printed(
    names: Seq<Seq<char>>,
    idx: usize,
    text: Seq<char>,
    took: u128,
    shown: Seq<char>,
    ok: bool,
)
    requires
        idx < names.len(),
    ensures
        printed(names, EventView::Preparing(text), shown) == seq!["… "@ + text],
        printed(names, EventView::Started { idx }, shown) == seq!["\n▶ "@ + names[idx as int]],
        printed(names, EventView::Line { idx, text }, shown) == seq!["  "@ + stripped(text)],
        printed(
            names,
            (EventView::Finished { idx, outcome: OutcomeView::Succeeded(text), took }),
            shown,
        ) == seq!["✓ "@ + names[idx as int] + ": "@ + text + "  ["@ + shown + "]"@],
        printed(
            names,
            (EventView::Finished { idx, outcome: OutcomeView::Skipped(text), took }),
            shown,
        ) == seq!["– "@ + names[idx as int] + ": "@ + text],
        printed(
            names,
            (EventView::Finished { idx, outcome: OutcomeView::Failed(text), took }),
            shown,
        ) == seq!["✗ "@ + names[idx as int] + ": "@ + text + "  ["@ + shown + "]"@],
        printed(names, EventView::Done { ok: true }, shown) == seq!["\nready ✓"@],
        printed(names, EventView::Done { ok: false }, shown) == seq!["\nsome steps failed ✗"@],
        printed(names, EventView::Fatal(text), shown) == seq!["\nerror: "@ + text],
{
}

/// A plan is printed with the repository, the branch and the worktree, every config
/// file that was read, every warning, and every step with its number, name and hint.
pub proof fn law_plan_is_printed(
    names: Seq<Seq<char>>,
    header: HeaderView,
    steps: Seq<MetaView>,
    shown: Seq<char>,
    i: int,
)
    ensures
        ({
            let lines = printed(names, EventView::Plan { header, steps }, shown);
            let n = header.layers.len() as int;
            let w = header.warnings.len() as int;
            &&& lines.len() == 2 + n + w + steps.len()
            &&& header.branch matches Some(b) ==> lines[0] == "Worktree Setup — "@
                + header.repo_name + (" · "@ + b) + " → "@ + header.target + if header.dry_run {
                "  (dry run)"@
            } else {
                ""@
            }
            &&& lines[1] == "  source: "@ + header.source + "  env: "@ + header.env_origin
            &&& 0 <= i < n ==> lines[2 + i] == "  config: "@ + header.layers[i]
            &&& 0 <= i < w ==> lines[2 + n + i] == "  warning: "@ + header.warnings[i]
            &&& 0 <= i < steps.len() ==> lines[2 + n + w + i] == "  "@ + decimal((i + 1) as nat)
                + ". "@ + steps[i].0 + "  ("@ + steps[i].1 + ")"@
        }),
{
}

/// Printing ends with the run, and only then, with an exit code that says how it
/// went.
pub proof fn law_printing_ends_with_the_run(ev: EventView, msg: Seq<char>)
    ensures
        ends_with(EventView::Done { ok: true }) == Some(0i32),
        ends_with(EventView::Done { ok: false }) == Some(1i32),
        ends_with(EventView::Fatal(msg)) == Some(2i32),
        ends_with(ev) is Some <==> ev is Done || ev is Fatal,
{
}

} // verus!
