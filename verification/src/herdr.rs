//! The `herdr` command line: what it is called with, and what its replies say.

use vstd::prelude::*;
use vstd::string::*;
use crate::bytes::{lossy, lossy_text};
use crate::config::{Direction, Placement};
use crate::digits::{count_text, decimal};
use crate::json::{
    flag_at, has_at, items_at, json_flag, json_has, json_items, json_text, text_at,
};
use crate::pieces::{join, join_with};
use crate::text::{
    glue, glue3, lemma_texts_push, option_text, slice_text, texts, trim, trimmed,
};

verus! {

/// The program to call.
#[derive(Debug)]
pub struct Herdr {
    bin: String,
}

impl View for Herdr {
    type V = Seq<char>;

    closed spec fn view(&self) -> Seq<char> {
        self.bin@
    }
}

/// A pane to be opened.
#[derive(Debug)]
pub struct PaneOpen {
    pub plugin: String,
    pub entrypoint: String,
    pub workspace: Option<String>,
    pub target_pane: Option<String>,
    pub placement: Placement,
    pub direction: Direction,
    pub cwd: String,
    pub env: Vec<(String, String)>,
    pub focus: bool,
}

// --- calls -------------------------------------------------------------------

/// An option and its value.
pub open spec fn option_words(flag: Seq<char>, value: Option<Seq<char>>) -> Seq<Seq<char>> {
    match value {
        Some(v) => seq![flag, v],
        None => Seq::empty(),
    }
}

/// Where a pane goes: a split or a zoomed pane takes only a target pane, a tab
/// takes a workspace, an overlay takes neither.
pub open spec fn placement_words(open: PaneOpen) -> Seq<Seq<char>> {
    match open.placement {
        Placement::Split => option_words("--target-pane"@, option_text(open.target_pane)) + seq![
            "--direction"@,
            open.direction.text(),
        ],
        Placement::Zoomed => option_words("--target-pane"@, option_text(open.target_pane)),
        Placement::Tab => option_words("--workspace"@, option_text(open.workspace)),
        Placement::Overlay => Seq::empty(),
    }
}

/// The environment of a pane.
pub open spec fn env_words(env: Seq<(String, String)>) -> Seq<Seq<char>>
    decreases env.len(),
{
    if env.len() == 0 {
        Seq::empty()
    } else {
        env_words(env.drop_last()) + seq!["--env"@, env.last().0@ + "="@ + env.last().1@]
    }
}

/// What opens a pane.
pub open spec fn open_call(open: PaneOpen) -> Seq<Seq<char>> {
    seq![
        "plugin"@,
        "pane"@,
        "open"@,
        "--plugin"@,
        open.plugin@,
        "--entrypoint"@,
        open.entrypoint@,
        "--placement"@,
        open.placement.text(),
        "--cwd"@,
        open.cwd@,
    ] + placement_words(open) + env_words(open.env@) + seq![
        if open.focus {
            "--focus"@
        } else {
            "--no-focus"@
        },
    ]
}

fn push_option(args: &mut Vec<String>, flag: &str, value: &Option<String>)
    ensures
        texts(final(args)@) == texts(old(args)@) + option_words(flag@, option_text(*value)),
{
    broadcast use lemma_texts_push;

    let ghost before = texts(args@);
    match value {
        Some(v) => {
            args.push(flag.to_owned());
            args.push(v.clone());
        },
        None => {},
    }
    assert(texts(args@) =~= before + option_words(flag@, option_text(*value)));
}

fn push_env(args: &mut Vec<String>, env: &Vec<(String, String)>)
    ensures
        texts(final(args)@) == texts(old(args)@) + env_words(env@),
{
    broadcast use lemma_texts_push;

    let ghost start = texts(args@);
    let mut i: usize = 0;
    assert(env@.take(0) =~= Seq::empty());
    assert(start + env_words(env@.take(0)) =~= start);
    while i < env.len()
        invariant
            i <= env.len(),
            texts(args@) == start + env_words(env@.take(i as int)),
        decreases env.len() - i,
    {
        assert(env@.take(i + 1).drop_last() =~= env@.take(i as int));
        assert(env@.take(i + 1).last() == env@[i as int]);
        let ghost so_far = env_words(env@.take(i as int));
        let ghost words = seq!["--env"@, env@[i as int].0@ + "="@ + env@[i as int].1@];
        assert(env_words(env@.take(i + 1)) == so_far + words);
        let word = glue3(env[i].0.as_str(), "=", env[i].1.as_str());
        let ghost before = texts(args@);
        args.push("--env".to_owned());
        args.push(word);
        assert(texts(args@) == before.push("--env"@).push(word@));
        assert(texts(args@) =~= start + (so_far + words));
        i += 1;
    }
    assert(env@.take(i as int) =~= env@);
}

impl Herdr {
    /// The program to call: the one that was given, where it is a file.
    pub fn from_env(given: Option<String>, is_file: bool) -> (r: Herdr)
        ensures
            r@ == match option_text(given) {
                Some(p) => if is_file {
                    p
                } else {
                    "herdr"@
                },
                None => "herdr"@,
            },
    {
        match given {
            Some(p) => if is_file {
                Herdr { bin: p }
            } else {
                Herdr { bin: "herdr".to_owned() }
            },
            None => Herdr { bin: "herdr".to_owned() },
        }
    }

    /// The path of the program.
    pub fn program(&self) -> (r: &String)
        ensures
            r@ == self@,
    {
        &self.bin
    }

    /// What lists the panes of a workspace.
    pub fn list_panes(&self, workspace: &str) -> (r: Vec<String>)
        ensures
            texts(r@) == seq!["pane"@, "list"@, "--workspace"@, workspace@],
    {
        broadcast use lemma_texts_push;

        let mut args: Vec<String> = Vec::new();
        args.push("pane".to_owned());
        args.push("list".to_owned());
        args.push("--workspace".to_owned());
        args.push(workspace.to_owned());
        assert(texts(args@) =~= seq!["pane"@, "list"@, "--workspace"@, workspace@]);
        args
    }

    /// What opens a plugin pane.
    pub fn plugin_pane_open(&self, open: &PaneOpen) -> (r: Vec<String>)
        ensures
            texts(r@) == open_call(*open),
    {
        broadcast use lemma_texts_push;

        let mut args: Vec<String> = Vec::new();
        args.push("plugin".to_owned());
        args.push("pane".to_owned());
        args.push("open".to_owned());
        args.push("--plugin".to_owned());
        args.push(open.plugin.clone());
        args.push("--entrypoint".to_owned());
        args.push(open.entrypoint.clone());
        args.push("--placement".to_owned());
        args.push(open.placement.as_str().to_owned());
        args.push("--cwd".to_owned());
        args.push(open.cwd.clone());
        let ghost head = seq![
            "plugin"@,
            "pane"@,
            "open"@,
            "--plugin"@,
            open.plugin@,
            "--entrypoint"@,
            open.entrypoint@,
            "--placement"@,
            open.placement.text(),
            "--cwd"@,
            open.cwd@,
        ];
        assert(texts(args@) =~= head);
        match open.placement {
            Placement::Split => {
                push_option(&mut args, "--target-pane", &open.target_pane);
                args.push("--direction".to_owned());
                args.push(open.direction.as_str().to_owned());
            },
            Placement::Zoomed => {
                push_option(&mut args, "--target-pane", &open.target_pane);
            },
            Placement::Tab => {
                push_option(&mut args, "--workspace", &open.workspace);
            },
            Placement::Overlay => {},
        }
        assert(texts(args@) =~= head + placement_words(*open));
        push_env(&mut args, &open.env);
        let ghost so_far = texts(args@);
        if open.focus {
            args.push("--focus".to_owned());
        } else {
            args.push("--no-focus".to_owned());
        }
        assert(texts(args@) =~= open_call(*open));
        args
    }

    /// What focuses a plugin pane.
    pub fn plugin_pane_focus(&self, pane_id: &str) -> (r: Vec<String>)
        ensures
            texts(r@) == seq!["plugin"@, "pane"@, "focus"@, pane_id@],
    {
        broadcast use lemma_texts_push;

        let mut args: Vec<String> = Vec::new();
        args.push("plugin".to_owned());
        args.push("pane".to_owned());
        args.push("focus".to_owned());
        args.push(pane_id.to_owned());
        assert(texts(args@) =~= seq!["plugin"@, "pane"@, "focus"@, pane_id@]);
        args
    }

    /// What sets the sidebar title of a pane.
    pub fn set_title(&self, pane_id: &str, title: &str) -> (r: Vec<String>)
        ensures
            texts(r@) == title_call(pane_id@, title@),
    {
        broadcast use lemma_texts_push;

        let mut args: Vec<String> = Vec::new();
        args.push("pane".to_owned());
        args.push("report-metadata".to_owned());
        args.push(pane_id.to_owned());
        args.push("--source".to_owned());
        args.push("plugin:worktree-setup".to_owned());
        args.push("--title".to_owned());
        args.push(title.to_owned());
        assert(texts(args@) =~= title_call(pane_id@, title@));
        args
    }

    /// What shows a toast.
    pub fn notify(&self, title: &str, body: Option<&str>, sound: &str) -> (r: Vec<String>)
        ensures
            texts(r@) == notify_call(title@, slice_text(body), sound@),
    {
        broadcast use lemma_texts_push;

        let mut args: Vec<String> = Vec::new();
        args.push("notification".to_owned());
        args.push("show".to_owned());
        args.push(title.to_owned());
        match body {
            Some(b) => {
                args.push("--body".to_owned());
                args.push(b.to_owned());
            },
            None => {},
        }
        args.push("--sound".to_owned());
        args.push(sound.to_owned());
        assert(texts(args@) =~= notify_call(title@, slice_text(body), sound@));
        args
    }
}

/// What sets the sidebar title of a pane.
pub open spec fn title_call(pane_id: Seq<char>, title: Seq<char>) -> Seq<Seq<char>> {
    seq![
        "pane"@,
        "report-metadata"@,
        pane_id,
        "--source"@,
        "plugin:worktree-setup"@,
        "--title"@,
        title,
    ]
}

/// What shows a toast.
pub open spec fn notify_call(title: Seq<char>, body: Option<Seq<char>>, sound: Seq<char>) -> Seq<
    Seq<char>,
> {
    seq!["notification"@, "show"@, title] + option_words("--body"@, body) + seq![
        "--sound"@,
        sound,
    ]
}

// --- replies -----------------------------------------------------------------

/// What came of a call that was started.
#[derive(Debug)]
pub struct CallOutput {
    pub success: bool,
    /// How it ended, for people.
    pub status: String,
    pub stdout: Vec<u8>,
    pub stderr: Vec<u8>,
}

/// What is known of the JSON in a reply.
#[derive(Debug)]
pub struct ReplyFacts {
    /// Whether what was printed is JSON.
    pub stdout_json: bool,
    pub stderr_json: bool,
    /// Whether the JSON has an `error`, and what that says.
    pub has_error: bool,
    pub code: Option<String>,
    pub message: Option<String>,
    /// Whether the JSON has a `result`.
    pub has_result: bool,
}

/// What is known of the JSON in a reply.
#[verifier::ext_equal]
pub struct ReplyFactsView {
    pub stdout_json: bool,
    pub stderr_json: bool,
    pub has_error: bool,
    pub code: Option<Seq<char>>,
    pub message: Option<Seq<char>>,
    pub has_result: bool,
}

impl View for ReplyFacts {
    type V = ReplyFactsView;

    open spec fn view(&self) -> ReplyFactsView {
        ReplyFactsView {
            stdout_json: self.stdout_json,
            stderr_json: self.stderr_json,
            has_error: self.has_error,
            code: option_text(self.code),
            message: option_text(self.message),
            has_result: self.has_result,
        }
    }
}

/// Where the JSON of a reply is.
#[derive(Debug, Clone, Copy, PartialEq, Eq, Structural)]
pub enum ReplySource {
    Stdout,
    Stderr,
    /// There is none.
    Nowhere,
}

/// Where the JSON of a reply is: error envelopes come on stderr.
pub open spec fn json_source(stdout_json: bool, stderr_json: bool) -> ReplySource {
    if stdout_json {
        ReplySource::Stdout
    } else if stderr_json {
        ReplySource::Stderr
    } else {
        ReplySource::Nowhere
    }
}

/// What a call that failed without an error of its own is reported as.
pub open spec fn call_failed(args: Seq<Seq<char>>, stdout: Seq<char>, stderr: Seq<char>) -> Seq<
    char,
> {
    "herdr "@ + join(args, " "@) + " failed: "@ + if stderr.len() == 0 {
        stdout
    } else {
        stderr
    }
}

/// What a call whose reply holds an error is reported as.
pub open spec fn call_refused(
    args: Seq<Seq<char>>,
    code: Option<Seq<char>>,
    message: Option<Seq<char>>,
) -> Seq<char> {
    "herdr "@ + join(args, " "@) + ": "@ + (match code {
        Some(c) => c,
        None => "error"@,
    }) + ": "@ + (match message {
        Some(m) => m,
        None => "unknown error"@,
    })
}

/// What a call that ended badly is reported as.
pub open spec fn call_exited(args: Seq<Seq<char>>, status: Seq<char>) -> Seq<char> {
    "herdr "@ + join(args, " "@) + " exited "@ + status
}

/// The report on a reply, where it is none that can be gone by.
pub open spec fn reply_error(
    args: Seq<Seq<char>>,
    success: bool,
    status: Seq<char>,
    stdout: Seq<char>,
    stderr: Seq<char>,
    facts: ReplyFactsView,
) -> Option<Seq<char>> {
    let source = json_source(facts.stdout_json, facts.stderr_json);
    if source == ReplySource::Nowhere && !success {
        Some(call_failed(args, stdout, stderr))
    } else if source != ReplySource::Nowhere && facts.has_error {
        Some(call_refused(args, facts.code, facts.message))
    } else if !success {
        Some(call_exited(args, status))
    } else {
        None
    }
}

/// The report on a reply, where it is none that can be gone by, given what is
/// known of its JSON.
pub fn judge_reply(
    args: &Vec<String>,
    success: bool,
    status: &str,
    stdout: &str,
    stderr: &str,
    facts: &ReplyFacts,
) -> (r: Option<String>)
    ensures
        option_text(r) == reply_error(
            texts(args@),
            success,
            status@,
            stdout@,
            stderr@,
            facts@,
        ),
{
    let nowhere = !facts.stdout_json && !facts.stderr_json;
    let line = join_with(args, " ");
    if nowhere && !success {
        let mut out = glue3("herdr ", line.as_str(), " failed: ");
        if stderr.is_empty() {
            out.append(stdout);
        } else {
            out.append(stderr);
        }
        return Some(out);
    }
    if !nowhere && facts.has_error {
        let mut out = glue3("herdr ", line.as_str(), ": ");
        match &facts.code {
            Some(c) => {
                out.append(c.as_str());
            },
            None => {
                out.append("error");
            },
        }
        out.append(": ");
        match &facts.message {
            Some(m) => {
                out.append(m.as_str());
            },
            None => {
                out.append("unknown error");
            },
        }
        return Some(out);
    }
    if !success {
        let mut out = glue3("herdr ", line.as_str(), " exited ");
        out.append(status);
        return Some(out);
    }
    None
}

/// A reply that can be gone by: its JSON, if it has any, and where in it the
/// result is.
#[derive(Debug)]
pub struct Reply {
    pub json: Option<String>,
    pub base: String,
}

/// The JSON of a reply.
pub open spec fn reply_json(stdout: Seq<char>, stderr: Seq<char>) -> Option<Seq<char>> {
    if json_has(stdout, ""@) {
        Some(stdout)
    } else if json_has(stderr, ""@) {
        Some(stderr)
    } else {
        None
    }
}

/// What `json_has` says of the JSON of a reply, if it has any.
pub open spec fn reply_has(json: Option<Seq<char>>, pointer: Seq<char>) -> bool {
    json is Some && json_has(json->0, pointer)
}

/// The string in the JSON of a reply, if it has any.
pub open spec fn reply_text(json: Option<Seq<char>>, pointer: Seq<char>) -> Option<Seq<char>> {
    match json {
        Some(j) => json_text(j, pointer),
        None => None,
    }
}

/// What is known of the JSON of a reply.
pub open spec fn facts_of(stdout: Seq<char>, stderr: Seq<char>) -> ReplyFactsView {
    let json = reply_json(stdout, stderr);
    ReplyFactsView {
        stdout_json: json_has(stdout, ""@),
        stderr_json: json_has(stderr, ""@),
        has_error: reply_has(json, "/error"@),
        code: reply_text(json, "/error/code"@),
        message: reply_text(json, "/error/message"@),
        has_result: reply_has(json, "/result"@),
    }
}

fn reply_facts(stdout: &str, stderr: &str) -> (r: (ReplyFacts, Option<String>))
    ensures
        r.0@ == facts_of(stdout@, stderr@),
        option_text(r.1) == reply_json(stdout@, stderr@),
{
    let stdout_json = has_at(stdout, "");
    let stderr_json = has_at(stderr, "");
    let json = if stdout_json {
        Some(stdout.to_owned())
    } else if stderr_json {
        Some(stderr.to_owned())
    } else {
        None
    };
    let facts = match &json {
        Some(j) => ReplyFacts {
            stdout_json,
            stderr_json,
            has_error: has_at(j.as_str(), "/error"),
            code: text_at(j.as_str(), "/error/code"),
            message: text_at(j.as_str(), "/error/message"),
            has_result: has_at(j.as_str(), "/result"),
        },
        None => ReplyFacts {
            stdout_json,
            stderr_json,
            has_error: false,
            code: None,
            message: None,
            has_result: false,
        },
    };
    (facts, json)
}

/// How a call that could not be started is reported.
pub open spec fn call_not_run(bin: Seq<char>, args: Seq<Seq<char>>, err: Seq<char>) -> Seq<char> {
    "running "@ + bin + " "@ + join(args, " "@) + ": "@ + err
}

impl Herdr {
    /// The reply to a call, or the report where it did not come to one.
    pub fn call(&self, args: &Vec<String>, out: Result<CallOutput, String>) -> (r: Result<
        Reply,
        String,
    >)
        ensures
            match out {
                Err(e) => r matches Err(t) && t@ == call_not_run(self@, texts(args@), e@),
                Ok(o) => {
                    let stdout = trimmed(lossy_text(o.stdout@));
                    let stderr = trimmed(lossy_text(o.stderr@));
                    let json = reply_json(stdout, stderr);
                    let report = reply_error(
                        texts(args@),
                        o.success,
                        o.status@,
                        stdout,
                        stderr,
                        facts_of(stdout, stderr),
                    );
                    match r {
                        Ok(reply) => report is None && option_text(reply.json) == json
                            && reply.base@ == if reply_has(json, "/result"@) {
                            "/result"@
                        } else {
                            ""@
                        },
                        Err(t) => report == Some(t@),
                    }
                },
            },
    {
        match out {
            Err(e) => {
                let line = join_with(args, " ");
                let mut t = glue3("running ", self.bin.as_str(), " ");
                t.append(line.as_str());
                t.append(": ");
                t.append(e.as_str());
                Err(t)
            },
            Ok(o) => {
                let stdout = trim(lossy(o.stdout.as_slice()).as_str());
                let stderr = trim(lossy(o.stderr.as_slice()).as_str());
                let (facts, json) = reply_facts(stdout.as_str(), stderr.as_str());
                match judge_reply(
                    args,
                    o.success,
                    o.status.as_str(),
                    stdout.as_str(),
                    stderr.as_str(),
                    &facts,
                ) {
                    Some(e) => Err(e),
                    None => {
                        let base = if facts.has_result {
                            "/result".to_owned()
                        } else {
                            "".to_owned()
                        };
                        Ok(Reply { json, base })
                    },
                }
            },
        }
    }
}

/// The panes that have an id, each with whether it is focused.
pub open spec fn panes_of(ids: Seq<Option<Seq<char>>>, focused: Seq<Option<bool>>, n: nat) -> Seq<
    (Seq<char>, bool),
>
    decreases n,
{
    if n == 0 {
        Seq::empty()
    } else {
        let r = panes_of(ids, focused, (n - 1) as nat);
        match ids[n - 1] {
            Some(id) => r.push((id, focused[n - 1] == Some(true))),
            None => r,
        }
    }
}

/// What some panes say.
pub open spec fn panes_view(v: Seq<(String, bool)>) -> Seq<(Seq<char>, bool)> {
    Seq::new(v.len(), |i: int| (v[i].0@, v[i].1))
}

/// The texts of some optional strings.
pub open spec fn option_texts(v: Seq<Option<String>>) -> Seq<Option<Seq<char>>> {
    Seq::new(v.len(), |i: int| option_text(v[i]))
}

/// The panes that have an id, each with whether it is focused.
pub fn panes_from(ids: &Vec<Option<String>>, focused: &Vec<Option<bool>>) -> (r: Vec<
    (String, bool),
>)
    requires
        ids@.len() == focused@.len(),
    ensures
        panes_view(r@) == panes_of(option_texts(ids@), focused@, ids@.len()),
{
    let ghost all = option_texts(ids@);
    let mut out: Vec<(String, bool)> = Vec::new();
    let mut i: usize = 0;
    assert(panes_view(out@) =~= panes_of(all, focused@, 0));
    while i < ids.len()
        invariant
            i <= ids.len(),
            ids.len() == focused.len(),
            all == option_texts(ids@),
            panes_view(out@) == panes_of(all, focused@, i as nat),
        decreases ids.len() - i,
    {
        match &ids[i] {
            Some(id) => {
                let f = match focused[i] {
                    Some(b) => b,
                    None => false,
                };
                let ghost before = out@;
                out.push((id.clone(), f));
                assert(panes_view(out@) =~= panes_view(before).push((id@, f)));
            },
            None => {},
        }
        i += 1;
    }
    out
}

/// The pointer to a field of a pane in a list of panes.
pub open spec fn pane_pointer(base: Seq<char>, i: nat, field: Seq<char>) -> Seq<char> {
    base + "/panes/"@ + decimal(i) + field
}

fn pane_field(base: &str, i: usize, field: &str) -> (r: String)
    ensures
        r@ == pane_pointer(base@, i as nat, field@),
{
    let mut out = glue3(base, "/panes/", count_text(i).as_str());
    out.append(field);
    out
}

impl Reply {
    /// What the JSON of the reply is, for the names of what is in it.
    pub open spec fn text(self) -> Option<Seq<char>> {
        option_text(self.json)
    }

    /// `(pane_id, focused)` for every pane in the reply to a listing.
    pub fn workspace_panes(&self) -> (r: Result<Vec<(String, bool)>, String>)
        ensures
            match r {
                Ok(panes) => self.text() is Some && ({
                    let n = json_items(self.text()->0, self.base@ + "/panes"@);
                    n is Some && panes_view(panes@) == panes_of(
                        Seq::new(
                            n->0,
                            |i: int|
                                json_text(
                                    self.text()->0,
                                    pane_pointer(self.base@, i as nat, "/pane_id"@),
                                ),
                        ),
                        Seq::new(
                            n->0,
                            |i: int|
                                json_flag(
                                    self.text()->0,
                                    pane_pointer(self.base@, i as nat, "/focused"@),
                                ),
                        ),
                        n->0,
                    )
                }),
                Err(e) => e@ == "pane list: no panes array"@ && (self.text() is None || json_items(
                    self.text()->0,
                    self.base@ + "/panes"@,
                ) is None),
            },
    {
        let json = match &self.json {
            Some(j) => j.as_str(),
            None => {
                return Err("pane list: no panes array".to_owned());
            },
        };
        let list = glue(self.base.as_str(), "/panes");
        let n: usize = match items_at(json, list.as_str()) {
            Some(n) => n,
            None => {
                return Err("pane list: no panes array".to_owned());
            },
        };
        let ghost want_ids = Seq::new(
            n as nat,
            |i: int| json_text(json@, pane_pointer(self.base@, i as nat, "/pane_id"@)),
        );
        let ghost want_focus = Seq::new(
            n as nat,
            |i: int| json_flag(json@, pane_pointer(self.base@, i as nat, "/focused"@)),
        );
        let mut ids: Vec<Option<String>> = Vec::new();
        let mut focused: Vec<Option<bool>> = Vec::new();
        let mut i: usize = 0;
        while i < n
            invariant
                i <= n,
                want_ids == Seq::new(
                    n as nat,
                    |i: int| json_text(json@, pane_pointer(self.base@, i as nat, "/pane_id"@)),
                ),
                want_focus == Seq::new(
                    n as nat,
                    |i: int| json_flag(json@, pane_pointer(self.base@, i as nat, "/focused"@)),
                ),
                ids@.len() == i,
                focused@.len() == i,
                option_texts(ids@) =~= want_ids.take(i as int),
                focused@ =~= want_focus.take(i as int),
            decreases n - i,
        {
            let ghost before = ids@;
            ids.push(text_at(json, pane_field(self.base.as_str(), i, "/pane_id").as_str()));
            focused.push(flag_at(json, pane_field(self.base.as_str(), i, "/focused").as_str()));
            assert(option_texts(ids@) =~= option_texts(before).push(want_ids[i as int]));
            i += 1;
        }
        assert(want_ids.take(i as int) =~= want_ids);
        assert(want_focus.take(i as int) =~= want_focus);
        Ok(panes_from(&ids, &focused))
    }

    /// The id of the pane that was opened, where the reply gives one.
    pub fn opened_pane(&self) -> (r: Option<String>)
        ensures
            option_text(r) == match self.text() {
                None => None,
                Some(j) => if json_has(j, self.base@ + "/plugin_pane/pane/pane_id"@) {
                    json_text(j, self.base@ + "/plugin_pane/pane/pane_id"@)
                } else {
                    json_text(j, self.base@ + "/pane/pane_id"@)
                },
            },
    {
        match &self.json {
            None => None,
            Some(j) => {
                let first = glue(self.base.as_str(), "/plugin_pane/pane/pane_id");
                if has_at(j.as_str(), first.as_str()) {
                    text_at(j.as_str(), first.as_str())
                } else {
                    let second = glue(self.base.as_str(), "/pane/pane_id");
                    text_at(j.as_str(), second.as_str())
                }
            },
        }
    }
}

// --- what holds of every call ------------------------------------------------

/// Whether a call holds a flag with a value right behind it, from some place on.
pub open spec fn flagged(call: Seq<Seq<char>>, at: int, flag: Seq<char>, value: Seq<char>) -> bool {
    0 <= at && at + 1 < call.len() && call[at] == flag && call[at + 1] == value
}

proof fn lemma_env_words(env: Seq<(String, String)>, i: int)
    requires
        0 <= i < env.len(),
    ensures
        env_words(env).len() == 2 * env.len(),
        env_words(env)[2 * i] == "--env"@,
        env_words(env)[2 * i + 1] == env[i].0@ + "="@ + env[i].1@,
    decreases env.len(),
{
    let front = env.drop_last();
    if front.len() > 0 {
        if i < front.len() {
            lemma_env_words(front, i);
        } else {
            lemma_env_words(front, 0);
        }
    } else {
        assert(env_words(front) =~= Seq::empty());
    }
}

/// The call that opens a pane names the plugin and its entry point, where the pane
/// goes and its directory, and says at the end whether it takes the focus. Every
/// variable of the pane is handed on.
pub proof fn law_open_call(open: PaneOpen, i: int)
    requires
        0 <= i < open.env@.len(),
    ensures
        ({
            let call = open_call(open);
            let n = placement_words(open).len() as int;
            &&& call.take(3) == seq!["plugin"@, "pane"@, "open"@]
            &&& flagged(call, 3, "--plugin"@, open.plugin@)
            &&& flagged(call, 5, "--entrypoint"@, open.entrypoint@)
            &&& flagged(
                call,
                7,
                "--placement"@,
                match open.placement {
                    Placement::Split => "split"@,
                    Placement::Tab => "tab"@,
                    Placement::Overlay => "overlay"@,
                    Placement::Zoomed => "zoomed"@,
                },
            )
            &&& flagged(call, 9, "--cwd"@, open.cwd@)
            &&& flagged(
                call,
                11 + n + 2 * i,
                "--env"@,
                open.env@[i].0@ + "="@ + open.env@[i].1@,
            )
            &&& call.last() == if open.focus {
                "--focus"@
            } else {
                "--no-focus"@
            }
            &&& call.len() == 12 + n + 2 * open.env@.len()
        }),
{
    lemma_env_words(open.env@, i);
    let call = open_call(open);
    assert(call.take(3) =~= seq!["plugin"@, "pane"@, "open"@]);
}

/// A split or a zoomed pane goes beside the pane that is given, a split in the
/// direction that is given; a tab goes into the workspace that is given. No other
/// words are said for it.
pub proof fn law_pane_goes_where_it_belongs(open: PaneOpen)
    ensures
        ({
            let words = placement_words(open);
            let way = match open.direction {
                Direction::Down => "down"@,
                Direction::Right => "right"@,
            };
            &&& open.placement == Placement::Split ==> {
                &&& open.target_pane matches Some(p) ==> words == seq![
                    "--target-pane"@,
                    p@,
                    "--direction"@,
                    way,
                ]
                &&& open.target_pane is None ==> words == seq!["--direction"@, way]
            }
            &&& open.placement == Placement::Zoomed ==> {
                &&& open.target_pane matches Some(p) ==> words == seq!["--target-pane"@, p@]
                &&& open.target_pane is None ==> words.len() == 0
            }
            &&& open.placement == Placement::Tab ==> {
                &&& open.workspace matches Some(w) ==> words == seq!["--workspace"@, w@]
                &&& open.workspace is None ==> words.len() == 0
            }
            &&& open.placement == Placement::Overlay ==> words.len() == 0
        }),
{
}

/// A notification shows its title, and its body where it has one.
pub proof fn law_notification_shows_its_text(
    title: Seq<char>,
    body: Seq<char>,
    sound: Seq<char>,
)
    ensures
        notify_call(title, Some(body), sound) == seq![
            "notification"@,
            "show"@,
            title,
            "--body"@,
            body,
            "--sound"@,
            sound,
        ],
        notify_call(title, None, sound) == seq!["notification"@, "show"@, title, "--sound"@, sound],
{
    assert(notify_call(title, Some(body), sound) =~= seq![
        "notification"@,
        "show"@,
        title,
        "--body"@,
        body,
        "--sound"@,
        sound,
    ]);
    assert(notify_call(title, None, sound) =~= seq![
        "notification"@,
        "show"@,
        title,
        "--sound"@,
        sound,
    ]);
}

/// A reply can be gone by if and only if the call succeeded and its JSON, where it
/// has any, holds no error. An error in the JSON is reported by its code and its
/// message, whether the call succeeded or not; without JSON it is what was printed
/// that is reported, that on stderr first.
pub proof fn law_replies_are_judged(
    args: Seq<Seq<char>>,
    success: bool,
    status: Seq<char>,
    stdout: Seq<char>,
    stderr: Seq<char>,
    facts: ReplyFactsView,
)
    ensures
        ({
            let r = reply_error(args, success, status, stdout, stderr, facts);
            let json = facts.stdout_json || facts.stderr_json;
            let name = "herdr "@ + join(args, " "@);
            &&& r is None <==> success && !(json && facts.has_error)
            &&& json && facts.has_error && facts.code is Some && facts.message is Some ==> r
                == Some(name + ": "@ + facts.code->0 + ": "@ + facts.message->0)
            &&& !success && !json && stderr.len() > 0 ==> r == Some(name + " failed: "@ + stderr)
            &&& !success && !json && stderr.len() == 0 ==> r == Some(name + " failed: "@ + stdout)
            &&& !success && json && !facts.has_error ==> r == Some(name + " exited "@ + status)
        }),
{
}

/// What is known of a reply is read from stdout where that is JSON, else from
/// stderr.
pub proof fn law_reply_is_read_from_stdout_first(stdout: Seq<char>, stderr: Seq<char>)
    ensures
        ({
            let f = facts_of(stdout, stderr);
            &&& f.stdout_json == json_has(stdout, ""@)
            &&& f.stderr_json == json_has(stderr, ""@)
            &&& f.stdout_json ==> f.has_error == json_has(stdout, "/error"@) && f.code
                == json_text(stdout, "/error/code"@) && f.message == json_text(
                stdout,
                "/error/message"@,
            ) && f.has_result == json_has(stdout, "/result"@)
            &&& !f.stdout_json && f.stderr_json ==> f.has_error == json_has(stderr, "/error"@)
                && f.code == json_text(stderr, "/error/code"@) && f.message == json_text(
                stderr,
                "/error/message"@,
            ) && f.has_result == json_has(stderr, "/result"@)
            &&& !f.stdout_json && !f.stderr_json ==> !f.has_error && !f.has_result
        }),
{
}

/// Every pane with an id is one of the panes, focused if and only if it says so.
pub proof fn law_every_pane_is_listed(
    ids: Seq<Option<Seq<char>>>,
    focused: Seq<Option<bool>>,
    n: nat,
    pane: (Seq<char>, bool),
)
    ensures
        panes_of(ids, focused, n).contains(pane) <==> exists|i: int|
            0 <= i < n && #[trigger] ids[i] == Some(pane.0) && pane.1 == (focused[i] == Some(true)),
    decreases n,
{
    let r = panes_of(ids, focused, n);
    if n > 0 {
        let m = (n - 1) as nat;
        let a = panes_of(ids, focused, m);
        law_every_pane_is_listed(ids, focused, m, pane);
        if a.contains(pane) {
            let k = choose|k: int| 0 <= k < a.len() && a[k] == pane;
            assert(r[k] == pane);
        }
        if ids[m as int] is Some {
            assert(r[r.len() - 1] == (ids[m as int]->0, focused[m as int] == Some(true)));
        }
        if r.contains(pane) && !a.contains(pane) {
            assert(ids[m as int] == Some(pane.0));
        }
    }
}

} // verus!
