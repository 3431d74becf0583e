//! What a step command is, how its output becomes lines, and when it is stopped.
//!
//! Every child runs in its own process group, so that a hung or forking step can
//! be stopped as a unit, and steps are bounded by a deadline. Install steps are
//! executed as argv with no shell involved; only custom steps get a shell, which
//! is what they are for.

use vstd::prelude::*;
use vstd::string::*;
use crate::bytes::{lossy, lossy_text, lossy_texts};
use crate::digits::{decimal, decimal_text};
use crate::pieces::{join, join_with, replace_char, replaced};
use crate::text::{chars_of, copy_list, glue3, is_space, lemma_texts_push, slice_text, space, texts};

verus! {

/// A command to run for a step. Its words and variables stand for bytes, as in
/// `ostext`.
#[derive(Debug)]
pub struct StepCmd {
    pub argv: Vec<String>,
    pub cwd: String,
    pub env: Vec<(String, String)>,
    /// Wall-clock limit in nanoseconds; `None` means no limit.
    pub timeout: Option<u128>,
}

/// The `direnv exec <target>` and `mise exec --` in front of a command.
pub open spec fn prefix(
    target: Seq<char>,
    direnv: Option<Seq<char>>,
    mise: Option<Seq<char>>,
) -> Seq<Seq<char>> {
    (match direnv {
        Some(d) => seq![d, "exec"@, target],
        None => Seq::empty(),
    }) + (match mise {
        Some(m) => seq![m, "exec"@, "--"@],
        None => Seq::empty(),
    })
}

/// `direnv exec <target>` / `mise exec --` prefix, with the paths that were
/// resolved before: a step's PATH can be influenced by configuration, and the
/// tool manager must not be swappable.
pub fn tool_prefix(target: &str, direnv: Option<&str>, mise: Option<&str>) -> (r: Vec<String>)
    ensures
        texts(r@) == prefix(target@, slice_text(direnv), slice_text(mise)),
{
    broadcast use lemma_texts_push;

    let mut argv: Vec<String> = Vec::new();
    match direnv {
        Some(d) => {
            argv.push(d.to_owned());
            argv.push("exec".to_owned());
            argv.push(target.to_owned());
        },
        None => {},
    }
    match mise {
        Some(m) => {
            argv.push(m.to_owned());
            argv.push("exec".to_owned());
            argv.push("--".to_owned());
        },
        None => {},
    }
    assert(texts(argv@) =~= prefix(target@, slice_text(direnv), slice_text(mise)));
    argv
}

/// A command run through the tool managers with no shell: `argv` is executed
/// directly, so its elements can never be taken for syntax.
pub fn direct_argv(
    argv: &[String],
    target: &str,
    direnv: Option<&str>,
    mise: Option<&str>,
) -> (r: Vec<String>)
    ensures
        texts(r@) == prefix(target@, slice_text(direnv), slice_text(mise)) + texts(argv@),
{
    broadcast use lemma_texts_push;

    let mut out = tool_prefix(target, direnv, mise);
    let ghost start = texts(out@);
    let mut i: usize = 0;
    assert(start + texts(argv@).take(0) =~= start);
    while i < argv.len()
        invariant
            i <= argv.len(),
            texts(out@) == start + texts(argv@).take(i as int),
        decreases argv.len() - i,
    {
        out.push(argv[i].clone());
        assert((start + texts(argv@).take(i as int)).push(argv@[i as int]@) =~= start + texts(
            argv@,
        ).take(i + 1));
        i += 1;
    }
    assert(texts(argv@).take(i as int) =~= texts(argv@));
    out
}

/// A shell command line, for custom steps that legitimately need shell syntax.
pub fn shell_argv(cmd: &str, target: &str, direnv: Option<&str>, mise: Option<&str>) -> (r: Vec<
    String,
>)
    ensures
        texts(r@) == prefix(target@, slice_text(direnv), slice_text(mise)) + seq![
            "/bin/sh"@,
            "-c"@,
            cmd@,
        ],
{
    broadcast use lemma_texts_push;

    let mut argv = tool_prefix(target, direnv, mise);
    let ghost start = texts(argv@);
    argv.push("/bin/sh".to_owned());
    argv.push("-c".to_owned());
    argv.push(cmd.to_owned());
    assert(texts(argv@) =~= start + seq!["/bin/sh"@, "-c"@, cmd@]);
    argv
}

/// Whether a word has to be quoted to be read back as one.
pub open spec fn needs_quotes(word: Seq<char>) -> bool {
    word.len() == 0 || exists|i: int|
        0 <= i < word.len() && (is_space(#[trigger] word[i]) || word[i] == '\'' || word[i] == '"')
}

/// A word as it is shown.
pub open spec fn quoted(word: Seq<char>) -> Seq<char> {
    if needs_quotes(word) {
        "'"@ + replaced(word, '\'', "'\\''"@) + "'"@
    } else {
        word
    }
}

/// Words as they are shown.
pub open spec fn all_quoted(words: Seq<Seq<char>>) -> Seq<Seq<char>> {
    Seq::new(words.len(), |i: int| quoted(words[i]))
}

fn is_quoted(word: &str) -> (r: bool)
    ensures
        r == needs_quotes(word@),
{
    let chars = chars_of(word);
    if chars.len() == 0 {
        return true;
    }
    let mut i: usize = 0;
    while i < chars.len()
        invariant
            chars@ == word@,
            word@.len() > 0,
            i <= chars.len(),
            forall|j: int|
                0 <= j < i ==> !(is_space(#[trigger] word@[j]) || word@[j] == '\'' || word@[j]
                    == '"'),
        decreases chars.len() - i,
    {
        let c = chars[i];
        if space(c) || c == '\'' || c == '"' {
            assert(is_space(word@[i as int]) || word@[i as int] == '\'' || word@[i as int] == '"');
            return true;
        }
        i += 1;
    }
    false
}

/// A command as it is shown.
pub fn display(argv: &[String]) -> (r: String)
    ensures
        r@ == join(all_quoted(texts(argv@)), " "@),
{
    broadcast use lemma_texts_push;

    let mut words: Vec<String> = Vec::new();
    let ghost all = all_quoted(texts(argv@));
    let mut i: usize = 0;
    while i < argv.len()
        invariant
            i <= argv.len(),
            all == all_quoted(texts(argv@)),
            texts(words@) =~= all.take(i as int),
        decreases argv.len() - i,
    {
        let a = argv[i].as_str();
        let w = if is_quoted(a) {
            glue3("'", replace_char(a, '\'', "'\\''").as_str(), "'")
        } else {
            a.to_owned()
        };
        assert(all.take(i as int).push(w@) =~= all.take(i + 1));
        words.push(w);
        i += 1;
    }
    assert(all.take(i as int) =~= all);
    join_with(&words, " ")
}

/// The program of a command and its arguments.
pub fn split_command(argv: &Vec<String>) -> (r: Result<(String, Vec<String>), String>)
    ensures
        match r {
            Ok(c) => argv@.len() > 0 && texts(argv@) == seq![c.0@] + texts(c.1@),
            Err(e) => argv@.len() == 0 && e@ == "empty command"@,
        },
{
    if argv.len() == 0 {
        return Err("empty command".to_owned());
    }
    let mut rest = copy_list(argv);
    let ghost all = rest@;
    assert(texts(all).len() == argv@.len());
    let program = rest.remove(0);
    assert(texts(all)[0] == program@);
    assert(texts(argv@) =~= seq![program@] + texts(rest@));
    Ok((program, rest))
}

// --- output ------------------------------------------------------------------

pub const MAX_LINE: usize = 4096;

/// Cuts a byte stream into lines at `\n` and `\r` (what a progress bar rewrites
/// becomes lines) and at the greatest length of a line.
#[derive(Debug)]
pub struct LineSplitter {
    line: Vec<u8>,
    last_cr: bool,
}

/// The line that has begun, and whether a `\r` has just ended one.
#[verifier::ext_equal]
pub struct SplitterView {
    pub line: Seq<u8>,
    pub last_cr: bool,
}

impl View for LineSplitter {
    type V = SplitterView;

    closed spec fn view(&self) -> SplitterView {
        SplitterView { line: self.line@, last_cr: self.last_cr }
    }
}

/// Where a stream starts.
pub open spec fn fresh() -> SplitterView {
    SplitterView { line: Seq::empty(), last_cr: false }
}

/// The state after one more byte.
pub open spec fn after_byte(s: SplitterView, b: u8) -> SplitterView {
    if b == 10 {
        SplitterView {
            line: if s.last_cr {
                s.line
            } else {
                Seq::empty()
            },
            last_cr: false,
        }
    } else if b == 13 {
        SplitterView { line: Seq::empty(), last_cr: true }
    } else {
        let line = s.line.push(b);
        SplitterView {
            line: if line.len() >= MAX_LINE {
                Seq::empty()
            } else {
                line
            },
            last_cr: false,
        }
    }
}

/// The line that one more byte ends, if it does. A `\n` right behind a `\r` ends
/// none.
pub open spec fn ended_by(s: SplitterView, b: u8) -> Seq<Seq<u8>> {
    if b == 10 {
        if s.last_cr {
            Seq::empty()
        } else {
            seq![s.line]
        }
    } else if b == 13 {
        seq![s.line]
    } else if s.line.len() + 1 >= MAX_LINE {
        seq![s.line.push(b)]
    } else {
        Seq::empty()
    }
}

/// The state after some more bytes.
pub open spec fn after_bytes(s: SplitterView, bytes: Seq<u8>) -> SplitterView
    decreases bytes.len(),
{
    if bytes.len() == 0 {
        s
    } else {
        after_byte(after_bytes(s, bytes.drop_last()), bytes.last())
    }
}

/// The lines that some more bytes end.
pub open spec fn lines_ended(s: SplitterView, bytes: Seq<u8>) -> Seq<Seq<u8>>
    decreases bytes.len(),
{
    if bytes.len() == 0 {
        Seq::empty()
    } else {
        lines_ended(s, bytes.drop_last()) + ended_by(
            after_bytes(s, bytes.drop_last()),
            bytes.last(),
        )
    }
}

/// All lines of a stream.
pub open spec fn stream_lines(bytes: Seq<u8>) -> Seq<Seq<u8>> {
    let end = after_bytes(fresh(), bytes);
    if end.line.len() > 0 {
        lines_ended(fresh(), bytes).push(end.line)
    } else {
        lines_ended(fresh(), bytes)
    }
}

/// Hand out a line.
fn flush(out: &mut Vec<String>, line: &Vec<u8>, Ghost(so_far): Ghost<Seq<Seq<u8>>>)
    requires
        texts(old(out)@) == lossy_texts(so_far),
    ensures
        texts(final(out)@) == lossy_texts(so_far + seq![line@]),
{
    broadcast use lemma_texts_push;

    out.push(lossy(line.as_slice()));
    assert(lossy_texts(so_far + seq![line@]) =~= lossy_texts(so_far).push(lossy_text(line@)));
}

impl LineSplitter {
    #[verifier::type_invariant]
    spec fn bounded(self) -> bool {
        self.line@.len() < MAX_LINE
    }

    pub fn new() -> (r: LineSplitter)
        ensures
            r@ == fresh(),
    {
        let r = LineSplitter { line: Vec::new(), last_cr: false };
        assert(r@ =~= fresh());
        r
    }

    /// Take in some more bytes; the lines that they end come out.
    pub fn feed(&mut self, bytes: &[u8]) -> (r: Vec<String>)
        ensures
            final(self)@ == after_bytes(old(self)@, bytes@),
            texts(r@) == lossy_texts(lines_ended(old(self)@, bytes@)),
    {
        broadcast use lemma_texts_push;

        proof {
            use_type_invariant(&*self);
        }
        let ghost start = self@;
        let mut line: Vec<u8> = Vec::new();
        std::mem::swap(&mut line, &mut self.line);
        let mut last_cr = self.last_cr;
        let mut out: Vec<String> = Vec::new();
        let mut i: usize = 0;
        assert(bytes@.take(0) =~= Seq::empty());
        assert(texts(out@) =~= lossy_texts(lines_ended(start, bytes@.take(0))));
        assert(after_bytes(start, bytes@.take(0)) =~= SplitterView { line: line@, last_cr });
        while i < bytes.len()
            invariant
                i <= bytes.len(),
                line@.len() < MAX_LINE,
                after_bytes(start, bytes@.take(i as int)) == (SplitterView { line: line@, last_cr }),
                texts(out@) == lossy_texts(lines_ended(start, bytes@.take(i as int))),
            decreases bytes.len() - i,
        {
            let ghost before = bytes@.take(i as int);
            let ghost now = bytes@.take(i + 1);
            let ghost state = after_bytes(start, before);
            let ghost so_far = lines_ended(start, before);
            let b: u8 = bytes[i];
            assert(now.drop_last() =~= before);
            assert(now.last() == b);
            if b == 10 {
                if !last_cr {
                    flush(&mut out, &line, Ghost(so_far));
                    line = Vec::new();
                } else {
                    assert(so_far + Seq::<Seq<u8>>::empty() =~= so_far);
                }
                last_cr = false;
            } else if b == 13 {
                flush(&mut out, &line, Ghost(so_far));
                line = Vec::new();
                last_cr = true;
            } else {
                last_cr = false;
                line.push(b);
                if line.len() >= MAX_LINE {
                    flush(&mut out, &line, Ghost(so_far));
                    line = Vec::new();
                } else {
                    assert(so_far + Seq::<Seq<u8>>::empty() =~= so_far);
                }
            }
            assert(after_bytes(start, now) =~= SplitterView { line: line@, last_cr });
            i += 1;
        }
        assert(bytes@.take(i as int) =~= bytes@);
        self.line = line;
        self.last_cr = last_cr;
        out
    }

    /// The line that the end of the stream ends, if one has begun.
    pub fn finish(self) -> (r: Option<String>)
        ensures
            match r {
                Some(t) => self@.line.len() > 0 && t@ == lossy_text(self@.line),
                None => self@.line.len() == 0,
            },
    {
        if self.line.len() > 0 {
            Some(lossy(self.line.as_slice()))
        } else {
            None
        }
    }
}

/// How a stream is cut does not depend on the chunks in which it comes.
pub proof fn law_chunks_do_not_matter(s: SplitterView, a: Seq<u8>, b: Seq<u8>)
    ensures
        after_bytes(s, a + b) == after_bytes(after_bytes(s, a), b),
        lines_ended(s, a + b) == lines_ended(s, a) + lines_ended(after_bytes(s, a), b),
    decreases b.len(),
{
    if b.len() == 0 {
        assert(a + b =~= a);
        assert(lines_ended(s, a) + Seq::<Seq<u8>>::empty() =~= lines_ended(s, a));
    } else {
        law_chunks_do_not_matter(s, a, b.drop_last());
        assert((a + b).drop_last() =~= a + b.drop_last());
        assert((a + b).last() == b.last());
        assert(lines_ended(s, a + b) =~= lines_ended(s, a) + lines_ended(after_bytes(s, a), b));
    }
}

/// The bytes that end no line.
pub open spec fn kept_bytes(bytes: Seq<u8>) -> Seq<u8> {
    bytes.filter(|b: u8| b != 10 && b != 13)
}

/// Lines one behind the other.
pub open spec fn concat(lines: Seq<Seq<u8>>) -> Seq<u8>
    decreases lines.len(),
{
    if lines.len() == 0 {
        Seq::empty()
    } else {
        concat(lines.drop_last()) + lines.last()
    }
}

proof fn lemma_concat_push(lines: Seq<Seq<u8>>, line: Seq<u8>)
    ensures
        concat(lines + seq![line]) == concat(lines) + line,
{
    assert((lines + seq![line]).drop_last() =~= lines);
}

/// A line that `\r` ended has not begun again.
pub open spec fn settled(s: SplitterView) -> bool {
    s.line.len() < MAX_LINE && (s.last_cr ==> s.line.len() == 0)
}

/// The lines and what has begun of the next one are the stream without the bytes
/// that end a line.
proof fn lemma_bytes_kept(bytes: Seq<u8>)
    ensures
        concat(lines_ended(fresh(), bytes)) + after_bytes(fresh(), bytes).line == kept_bytes(
            bytes,
        ),
        settled(after_bytes(fresh(), bytes)),
        forall|i: int|
            0 <= i < lines_ended(fresh(), bytes).len() ==> (#[trigger] lines_ended(
                fresh(),
                bytes,
            )[i]).len() <= MAX_LINE,
    decreases bytes.len(),
{
    reveal(Seq::filter);
    if bytes.len() == 0 {
        assert(concat(lines_ended(fresh(), bytes)) + after_bytes(fresh(), bytes).line
            =~= kept_bytes(bytes));
    } else {
        let front = bytes.drop_last();
        let b = bytes.last();
        let s = after_bytes(fresh(), front);
        let lines = lines_ended(fresh(), front);
        lemma_bytes_kept(front);
        let ended = ended_by(s, b);
        if ended.len() > 0 {
            assert(ended =~= seq![ended[0]]);
            lemma_concat_push(lines, ended[0]);
        } else {
            assert(lines + ended =~= lines);
        }
        assert(concat(lines_ended(fresh(), bytes)) + after_bytes(fresh(), bytes).line
            =~= kept_bytes(bytes));
    }
}

/// No byte of the output is lost, and none is added: the lines of a stream are
/// the stream without the bytes that end a line. And no line is longer than the
/// limit.
pub proof fn law_no_byte_is_lost(bytes: Seq<u8>)
    ensures
        concat(stream_lines(bytes)) == kept_bytes(bytes),
        forall|i: int|
            0 <= i < stream_lines(bytes).len() ==> (#[trigger] stream_lines(bytes)[i]).len()
                <= MAX_LINE,
{
    lemma_bytes_kept(bytes);
    let lines = lines_ended(fresh(), bytes);
    let end = after_bytes(fresh(), bytes).line;
    if end.len() > 0 {
        lemma_concat_push(lines, end);
        assert(lines + seq![end] =~= lines.push(end));
    } else {
        assert(concat(lines) + end =~= concat(lines));
    }
}

// --- deadlines ---------------------------------------------------------------

/// How long a stopped step gets to end by itself before it is killed: five
/// seconds, in nanoseconds.
pub const KILL_GRACE: u128 = 5000000000;

/// The exit code of a step that took too long.
pub const TIMED_OUT: i32 = -1;

/// Watches a running step. Times are in nanoseconds since some fixed moment.
#[derive(Debug)]
pub struct Watchdog {
    start: u128,
    limit: Option<u128>,
    timed_out: bool,
    killed_at: Option<u128>,
}

/// What the watch over a step has come to.
#[verifier::ext_equal]
pub struct WatchView {
    pub start: u128,
    pub limit: Option<u128>,
    pub timed_out: bool,
    pub killed_at: Option<u128>,
}

impl View for Watchdog {
    type V = WatchView;

    closed spec fn view(&self) -> WatchView {
        WatchView {
            start: self.start,
            limit: self.limit,
            timed_out: self.timed_out,
            killed_at: self.killed_at,
        }
    }
}

/// The time from one moment to another; none where the other is earlier.
pub open spec fn elapsed(since: u128, now: u128) -> int {
    if now >= since {
        now - since
    } else {
        0
    }
}

/// Whether the step has just exceeded its limit.
pub open spec fn expires(w: WatchView, now: u128) -> bool {
    w.killed_at is None && w.limit is Some && elapsed(w.start, now) > w.limit->0
}

/// Whether the step was stopped and has had its time to end by itself.
pub open spec fn stubborn(w: WatchView, now: u128) -> bool {
    w.killed_at is Some && elapsed(w.killed_at->0, now) > KILL_GRACE
}

/// The watch after a look at the clock.
pub open spec fn watched(w: WatchView, now: u128) -> WatchView {
    if expires(w, now) {
        WatchView { timed_out: true, killed_at: Some(now), ..w }
    } else if stubborn(w, now) {
        WatchView { killed_at: Some(now), ..w }
    } else {
        w
    }
}

/// What is said of a step that is stopped.
pub open spec fn timeout_line(limit: u128) -> Seq<char> {
    "[worktree-setup] step exceeded its "@ + decimal((limit / 1000000000) as nat)
        + "s timeout — terminating"@
}

/// What is to be done with a running step.
#[derive(Debug)]
pub enum WatchStep {
    Wait,
    /// Say this, and ask its process group to end.
    Terminate(String),
    /// Kill its process group.
    Kill,
}

fn since(start: u128, now: u128) -> (r: u128)
    ensures
        r == elapsed(start, now),
{
    if now >= start {
        now - start
    } else {
        0
    }
}

impl Watchdog {
    /// Start watching.
    pub fn new(start: u128, limit: Option<u128>) -> (r: Watchdog)
        ensures
            r@ == (WatchView { start, limit, timed_out: false, killed_at: None }),
    {
        Watchdog { start, limit, timed_out: false, killed_at: None }
    }

    /// What is to be done at this moment. A step that was asked to end and has
    /// not is killed, and again after the same time.
    pub fn tick(&mut self, now: u128) -> (r: WatchStep)
        ensures
            final(self)@ == watched(old(self)@, now),
            match r {
                WatchStep::Wait => !expires(old(self)@, now) && !stubborn(old(self)@, now),
                WatchStep::Terminate(t) => expires(old(self)@, now) && t@ == timeout_line(
                    old(self)@.limit->0,
                ),
                WatchStep::Kill => stubborn(old(self)@, now),
            },
    {
        match self.killed_at {
            None => match self.limit {
                Some(limit) => {
                    if since(self.start, now) > limit {
                        self.timed_out = true;
                        self.killed_at = Some(now);
                        let secs = decimal_text(limit / 1000000000);
                        return WatchStep::Terminate(
                            glue3(
                                "[worktree-setup] step exceeded its ",
                                secs.as_str(),
                                "s timeout — terminating",
                            ),
                        );
                    }
                    WatchStep::Wait
                },
                None => WatchStep::Wait,
            },
            Some(at) => {
                if since(at, now) > KILL_GRACE {
                    self.killed_at = Some(now);
                    return WatchStep::Kill;
                }
                WatchStep::Wait
            },
        }
    }

    /// Whether a step that has closed its output but does not exit is killed.
    pub fn reap(closed_at: u128, now: u128) -> (kill: bool)
        ensures
            kill == (elapsed(closed_at, now) > KILL_GRACE),
    {
        since(closed_at, now) > KILL_GRACE
    }

    /// The exit code of the step: its own, or 128 and the signal that killed it,
    /// unless it took too long.
    pub fn exit_code(&self, code: Option<i32>, signal: Option<i32>) -> (r: i32)
        requires
            signal matches Some(s) ==> s <= i32::MAX - 128,
        ensures
            r == exit_status(self@.timed_out, code, signal),
    {
        if self.timed_out {
            return TIMED_OUT;
        }
        match code {
            Some(c) => c,
            None => match signal {
                Some(s) => 128 + s,
                None => 129,
            },
        }
    }
}

/// The exit code of a step.
pub open spec fn exit_status(timed_out: bool, code: Option<i32>, signal: Option<i32>) -> int {
    if timed_out {
        TIMED_OUT as int
    } else {
        match code {
            Some(c) => c as int,
            None => match signal {
                Some(s) => 128 + s,
                None => 129,
            },
        }
    }
}

/// What to signal to reach a whole process group, given the pid of its leader:
/// nothing where there is none.
pub fn group_id(pgid: u32) -> (r: Option<i32>)
    requires
        pgid <= i32::MAX,
    ensures
        match r {
            Some(n) => pgid != 0 && n == -(pgid as int),
            None => pgid == 0,
        },
{
    if pgid == 0 {
        None
    } else {
        Some(-(pgid as i32))
    }
}

/// A step without a limit is never stopped for its time.
pub proof fn law_no_limit_no_timeout(w: WatchView, now: u128)
    requires
        w.limit is None,
        w.killed_at is None,
    ensures
        watched(w, now) == w,
{
}

/// A step that outlives its limit counts as timed out from then on, whatever its
/// exit code; one that does not keeps the exit code that it has.
pub proof fn law_timeout_is_final(w: WatchView, now: u128, later: u128, code: Option<i32>, signal: Option<i32>)
    ensures
        expires(w, now) ==> exit_status(
            watched(watched(w, now), later).timed_out,
            code,
            signal,
        ) == TIMED_OUT,
        !expires(w, now) ==> watched(w, now).timed_out == w.timed_out,
{
}

/// A step that was asked to end and is still there after the grace time is
/// killed.
pub proof fn law_stubborn_step_is_killed(w: WatchView, now: u128, later: u128)
    requires
        expires(w, now),
        later > now + KILL_GRACE,
    ensures
        stubborn(watched(w, now), later),
{
}

/// What a shell reads from a text of plain characters, quotes and backslashes;
/// `inside` is whether it starts between quotes.
pub open spec fn shell_reads(s: Seq<char>, inside: bool) -> Seq<char>
    decreases s.len(),
{
    if s.len() == 0 {
        Seq::empty()
    } else if s[0] == '\'' {
        shell_reads(s.skip(1), !inside)
    } else if !inside && s[0] == '\\' && s.len() > 1 {
        seq![s[1]] + shell_reads(s.skip(2), inside)
    } else {
        seq![s[0]] + shell_reads(s.skip(1), inside)
    }
}

proof fn lemma_replaced_front(x: char, s: Seq<char>, c: char, with: Seq<char>)
    ensures
        replaced(seq![x] + s, c, with) == (if x == c {
            with
        } else {
            seq![x]
        }) + replaced(s, c, with),
    decreases s.len(),
{
    let all = seq![x] + s;
    if s.len() == 0 {
        assert(all.drop_last() =~= Seq::empty());
        assert(replaced(all.drop_last(), c, with) =~= Seq::<char>::empty());
    } else {
        lemma_replaced_front(x, s.drop_last(), c, with);
        assert(all.drop_last() =~= seq![x] + s.drop_last());
    }
    assert(replaced(all, c, with) =~= (if x == c {
        with
    } else {
        seq![x]
    }) + replaced(s, c, with));
}

proof fn lemma_quotes_read(word: Seq<char>)
    ensures
        shell_reads(
            replaced(word, '\'', seq!['\'', '\\', '\'', '\'']) + seq!['\''],
            true,
        ) == word,
    decreases word.len(),
{
    let with = seq!['\'', '\\', '\'', '\''];
    let end = seq!['\''];
    if word.len() == 0 {
        assert(replaced(word, '\'', with) + end =~= end);
        assert(end.skip(1) =~= Seq::empty());
        assert(shell_reads(end.skip(1), false) =~= Seq::<char>::empty());
        assert(shell_reads(end, true) =~= word);
    } else {
        let rest = word.skip(1);
        lemma_quotes_read(rest);
        lemma_replaced_front(word[0], rest, '\'', with);
        assert(seq![word[0]] + rest =~= word);
        let tail = replaced(rest, '\'', with) + end;
        let s = replaced(word, '\'', with) + end;
        if word[0] == '\'' {
            assert(s =~= with + tail);
            let a = s.skip(1);
            let b = a.skip(2);
            assert(a[0] == '\\' && a[1] == '\'');
            assert(b[0] == '\'');
            assert(b.skip(1) =~= tail);
            assert(shell_reads(b, false) == shell_reads(tail, true));
            assert(shell_reads(a, false) == seq!['\''] + shell_reads(b, false));
            assert(shell_reads(s, true) == shell_reads(a, false));
        } else {
            assert(s =~= seq![word[0]] + tail);
            assert(s.skip(1) =~= tail);
        }
        assert(shell_reads(s, true) =~= word);
    }
}

/// A word is shown as a shell reads it: as it is, unless it is empty or holds white
/// space or a quote, and then between quotes so that a shell reads the same word.
pub proof fn law_shown_words_read_back(word: Seq<char>)
    ensures
        (word.len() > 0 && forall|i: int|
            0 <= i < word.len() ==> !is_space(#[trigger] word[i]) && word[i] != '\'' && word[i]
                != '"') ==> quoted(word) == word,
        (word.len() == 0 || exists|i: int|
            0 <= i < word.len() && (is_space(#[trigger] word[i]) || word[i] == '\'' || word[i]
                == '"')) ==> shell_reads(quoted(word), false) == word && quoted(word)[0] == '\'',
{
    if word.len() == 0 || exists|i: int|
        0 <= i < word.len() && (is_space(#[trigger] word[i]) || word[i] == '\'' || word[i] == '"') {
        reveal_strlit("'");
        reveal_strlit("'\\''");
        assert("'"@ =~= seq!['\'']);
        assert("'\\''"@ =~= seq!['\'', '\\', '\'', '\'']);
        let tail = replaced(word, '\'', seq!['\'', '\\', '\'', '\'']) + seq!['\''];
        lemma_quotes_read(word);
        assert(quoted(word) =~= seq!['\''] + tail);
        assert(quoted(word).skip(1) =~= tail);
    }
}

proof fn lemma_within_a_line(s: SplitterView, bytes: Seq<u8>)
    requires
        s.line.len() == 0,
        !bytes.contains(10),
        !bytes.contains(13),
        bytes.len() < MAX_LINE,
    ensures
        lines_ended(s, bytes).len() == 0,
        after_bytes(s, bytes).line == bytes,
        bytes.len() > 0 ==> !after_bytes(s, bytes).last_cr,
    decreases bytes.len(),
{
    if bytes.len() > 0 {
        let front = bytes.drop_last();
        assert(!front.contains(10) && !front.contains(13)) by {
            assert forall|i: int| 0 <= i < front.len() implies front[i] != 10 && front[i] != 13 by {
                assert(bytes[i] == front[i]);
                assert(bytes.contains(bytes[i]));
            }
        }
        lemma_within_a_line(s, front);
        assert(bytes.contains(bytes[bytes.len() - 1]));
        assert(front.push(bytes.last()) =~= bytes);
        assert(lines_ended(s, bytes) =~= Seq::<Seq<u8>>::empty());
    } else {
        assert(s.line =~= bytes);
    }
}

/// A line ends at a line feed, a carriage return or both, once, whatever it holds,
/// the empty line too; until then nothing comes out.
pub proof fn law_lines_end_where_they_end(line: Seq<u8>)
    requires
        !line.contains(10),
        !line.contains(13),
        line.len() < MAX_LINE,
    ensures
        lines_ended(fresh(), line) == Seq::<Seq<u8>>::empty(),
        lines_ended(fresh(), line.push(10)) == seq![line],
        after_bytes(fresh(), line.push(10)) == fresh(),
        lines_ended(fresh(), line.push(13)) == seq![line],
        after_bytes(fresh(), line.push(13)).line.len() == 0,
        lines_ended(fresh(), line.push(13).push(10)) == seq![line],
        after_bytes(fresh(), line.push(13).push(10)) == fresh(),
        line.len() > 0 ==> stream_lines(line) == seq![line],
        line.len() > 0 ==> lines_ended(
            after_bytes(fresh(), seq![13u8]),
            line.push(10),
        ) == seq![line],
        lines_ended(after_bytes(fresh(), seq![13u8]), seq![13u8]) == seq![Seq::<u8>::empty()],
{
    lemma_within_a_line(fresh(), line);
    let lf = line.push(10);
    let cr = line.push(13);
    let both = cr.push(10);
    assert(lf.drop_last() =~= line);
    assert(cr.drop_last() =~= line);
    assert(both.drop_last() =~= cr);
    let none = Seq::<Seq<u8>>::empty();
    assert(lines_ended(fresh(), line) =~= none);
    assert(lines_ended(fresh(), lf) =~= seq![line]);
    assert(lines_ended(fresh(), cr) =~= seq![line]);
    assert(lines_ended(fresh(), both) =~= seq![line]);
    assert(none.push(line) =~= seq![line]);
    let one = seq![13u8];
    assert(one.drop_last() =~= Seq::empty());
    assert(after_bytes(fresh(), one.drop_last()) == fresh());
    let after = after_bytes(fresh(), one);
    assert(after.last_cr && after.line.len() == 0);
    lemma_within_a_line(after, line);
    assert(lines_ended(after, line) =~= none);
    if line.len() > 0 {
        assert(lines_ended(after, lf) =~= seq![line]);
    }
    assert(after_bytes(after, one.drop_last()) == after);
    assert(lines_ended(after, one.drop_last()) =~= none);
    assert(after.line =~= Seq::empty());
    assert(lines_ended(after, one) =~= seq![Seq::<u8>::empty()]);
}

/// A line that grows too long is cut at the greatest length.
pub proof fn law_long_lines_are_cut(line: Seq<u8>)
    requires
        !line.contains(10),
        !line.contains(13),
        line.len() == 4096,
    ensures
        lines_ended(fresh(), line) == seq![line],
        after_bytes(fresh(), line) == fresh(),
{
    let front = line.drop_last();
    assert(!front.contains(10) && !front.contains(13)) by {
        assert forall|i: int| 0 <= i < front.len() implies front[i] != 10 && front[i] != 13 by {
            assert(line[i] == front[i]);
            assert(line.contains(line[i]));
        }
    }
    lemma_within_a_line(fresh(), front);
    assert(line.contains(line[line.len() - 1]));
    assert(front.push(line.last()) =~= line);
    assert(lines_ended(fresh(), line) =~= seq![line]);
}

/// A step is stopped once its time is over, not before, and killed once it has had
/// five seconds more, and again after the same time.
pub proof fn law_steps_are_stopped_in_time(start: u128, limit: u128, now: u128, later: u128)
    ensures
        ({
            let w = WatchView { start, limit: Some(limit), timed_out: false, killed_at: None };
            let stopped = WatchView { timed_out: true, killed_at: Some(now), ..w };
            let killed = WatchView { killed_at: Some(later), ..stopped };
            &&& now > start + limit <==> expires(w, now)
            &&& now > start + limit ==> watched(w, now) == stopped
            &&& now <= start + limit ==> watched(w, now) == w
            &&& !stubborn(w, later) && !expires(stopped, later)
            &&& stubborn(stopped, later) <==> later > now + 5_000_000_000
            &&& later > now + 5_000_000_000 ==> watched(stopped, later) == killed
            &&& later <= now + 5_000_000_000 ==> watched(stopped, later) == stopped
        }),
{
}

/// The exit code of a step that was not stopped is its own, or says which signal
/// ended it; that of one that was stopped says so and is no exit code.
pub proof fn law_exit_codes(code: i32, signal: i32)
    ensures
        exit_status(false, Some(code), None) == code,
        exit_status(false, None, Some(signal)) == 128 + signal,
        exit_status(true, Some(code), None) == -1,
        exit_status(true, None, Some(signal)) == -1,
{
}

} // verus!
