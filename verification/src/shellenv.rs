//! Plugin commands are launched with whatever environment the server has, often
//! a minimal PATH. The user's real shell environment is resolved once, from an
//! interactive login shell and with markers, and every step runs with it.

use vstd::prelude::*;
use vstd::string::*;
use crate::bytes::{lossy, lossy_text};
use crate::envmap::{
    law_lookup_after_put, law_lookup_after_remove, law_put_all, lemma_lookup_pushed, lookup, ordered,
    pair_texts, put, put_all, without, EnvMap, Pair,
};
use crate::ostext::{legible, legible_text};
use crate::paths::{
    absolute, file_name, file_name_of, from_root, holds_path, join_path, joined,
    law_components_of_a_path, plain_names, same_components,
};
use crate::pieces::{
    find, find_chars, join, join_with, law_cut_gives_all, law_cut_once, law_found_where_it_stands,
    law_split_undoes_join, lemma_split_pieces, lines, lines_of, split, split_at_char, split_once,
    split_once_at, stands_at,
};
use crate::text::{
    all_word, ascii_digit, chars_of, glue, glue3, has_char, is_digit, is_word, lemma_texts_push,
    option_text, owned, same, slice_text, slices, starts, starts_with, string_of, texts,
    trim_start_char, without_leading,
};

verus! {

pub const BEGIN: &'static str = "__HWS_ENV_BEGIN__";

pub const END: &'static str = "__HWS_ENV_END__";

/// Where the environment comes from.
#[derive(Debug, Clone, Copy, PartialEq, Eq, Structural)]
pub enum EnvOrigin {
    Interactive,
    Login,
    Current,
}

impl EnvOrigin {
    pub open spec fn text(self) -> Seq<char> {
        match self {
            EnvOrigin::Interactive => "interactive login shell"@,
            EnvOrigin::Login => "login shell"@,
            EnvOrigin::Current => "current process"@,
        }
    }

    /// Where the environment comes from, for people.
    pub fn label(self) -> (r: &'static str)
        ensures
            r@ == self.text(),
    {
        match self {
            EnvOrigin::Interactive => "interactive login shell",
            EnvOrigin::Login => "login shell",
            EnvOrigin::Current => "current process",
        }
    }
}

/// The environment that steps run with.
#[derive(Debug)]
pub struct ResolvedEnv {
    pub vars: EnvMap,
    pub origin: EnvOrigin,
    pub shell: String,
}

// --- reading what a shell printed --------------------------------------------

/// The variable that a record stands for, if any. The marker leaves a newline
/// in front of the first record; a name never starts with one.
pub open spec fn record_var(record: Seq<char>) -> Option<Pair> {
    match split_once(without_leading(record, '\n'), '=') {
        Some(p) => if p.0.len() > 0 {
            Some(p)
        } else {
            None
        },
        None => None,
    }
}

/// The variables that some records set, one after the other.
pub open spec fn record_vars(recs: Seq<Seq<char>>) -> Seq<Pair>
    decreases recs.len(),
{
    if recs.len() == 0 {
        Seq::empty()
    } else {
        let r = record_vars(recs.drop_last());
        match record_var(recs.last()) {
            Some(p) => put(r, p.0, p.1),
            None => r,
        }
    }
}

/// Variables, where there are any.
pub open spec fn some_vars(p: Seq<Pair>) -> Option<Seq<Pair>> {
    if p.len() == 0 {
        None
    } else {
        Some(p)
    }
}

/// What optional variables say.
pub open spec fn vars_view(v: Option<EnvMap>) -> Option<Seq<Pair>> {
    match v {
        Some(m) => Some(m@),
        None => None,
    }
}

/// Parse `env -0` output: one `KEY=VALUE` record per NUL.
pub fn parse_nul(block: &str) -> (r: Option<EnvMap>)
    ensures
        vars_view(r) == some_vars(record_vars(split(block@, '\0'))),
{
    let recs = split_at_char(block, '\0');
    let ghost all = split(block@, '\0');
    let mut vars = EnvMap::new();
    let mut i: usize = 0;
    assert(all.take(0) =~= Seq::empty());
    while i < recs.len()
        invariant
            i <= recs.len(),
            texts(recs@) == all,
            vars@ == record_vars(all.take(i as int)),
        decreases recs.len() - i,
    {
        assert(all.take(i + 1).drop_last() =~= all.take(i as int));
        assert(all.take(i + 1).last() == recs@[i as int]@);
        let record = trim_start_char(recs[i].as_str(), '\n');
        match split_once_at(record.as_str(), '=') {
            Some((k, v)) => {
                if !k.as_str().is_empty() {
                    vars.insert(k, v);
                }
            },
            None => {},
        }
        i += 1;
    }
    assert(all.take(i as int) =~= all);
    if vars.is_empty() {
        None
    } else {
        Some(vars)
    }
}

/// Whether a line starts a variable: `NAME=`, with the name of a variable.
pub open spec fn assignment(line: Seq<char>) -> Option<Pair> {
    match split_once(line, '=') {
        Some(p) => if p.0.len() > 0 && (forall|i: int|
            0 <= i < p.0.len() ==> is_word(#[trigger] p.0[i])) && !is_digit(p.0[0]) {
            Some(p)
        } else {
            None
        },
        None => None,
    }
}

/// The variables and the name of the last one, after one more line. A line that
/// starts no variable goes on with the last one.
pub open spec fn after_line(
    s: (Seq<Pair>, Option<Seq<char>>),
    line: Seq<char>,
) -> (Seq<Pair>, Option<Seq<char>>) {
    match assignment(line) {
        Some(p) => (put(s.0, p.0, p.1), Some(p.0)),
        None => match s.1 {
            Some(k) => match lookup(s.0, k) {
                Some(v) => (put(s.0, k, v + "\n"@ + line), s.1),
                None => s,
            },
            None => s,
        },
    }
}

/// The variables and the name of the last one, after some lines.
pub open spec fn after_lines(all: Seq<Seq<char>>) -> (Seq<Pair>, Option<Seq<char>>)
    decreases all.len(),
{
    if all.len() == 0 {
        (Seq::empty(), None)
    } else {
        after_line(after_lines(all.drop_last()), all.last())
    }
}

fn is_assignment(line: &str) -> (r: Option<(String, String)>)
    ensures
        match r {
            Some(p) => assignment(line@) == Some((p.0@, p.1@)),
            None => assignment(line@) is None,
        },
{
    match split_once_at(line, '=') {
        Some((k, v)) => {
            let chars = chars_of(k.as_str());
            if chars.len() > 0 && all_word(k.as_str()) && !ascii_digit(chars[0]) {
                Some((k, v))
            } else {
                None
            }
        },
        None => None,
    }
}

/// Parse the output of an `env` without `-0`. It is line-based and therefore
/// ambiguous.
pub fn parse_lines(block: &str) -> (r: Option<EnvMap>)
    ensures
        vars_view(r) == some_vars(after_lines(lines(block@)).0),
{
    let rows = lines_of(block);
    let ghost all = lines(block@);
    let mut vars = EnvMap::new();
    let mut last_key: Option<String> = None;
    let mut i: usize = 0;
    assert(all.take(0) =~= Seq::empty());
    while i < rows.len()
        invariant
            i <= rows.len(),
            texts(rows@) == all,
            (vars@, option_text(last_key)) == after_lines(all.take(i as int)),
        decreases rows.len() - i,
    {
        assert(all.take(i + 1).drop_last() =~= all.take(i as int));
        assert(all.take(i + 1).last() == rows@[i as int]@);
        let line = rows[i].as_str();
        match is_assignment(line) {
            Some((k, v)) => {
                last_key = Some(k.clone());
                vars.insert(k, v);
            },
            None => match &last_key {
                Some(k) => {
                    let joined = match vars.get(k.as_str()) {
                        Some(v) => Some(glue3(v.as_str(), "\n", line)),
                        None => None,
                    };
                    match joined {
                        Some(v) => {
                            vars.insert(k.clone(), v);
                        },
                        None => {},
                    }
                },
                None => {},
            },
        }
        i += 1;
    }
    assert(all.take(i as int) =~= all);
    if vars.is_empty() {
        None
    } else {
        Some(vars)
    }
}

/// What stands between the two markers in a text.
pub open spec fn marked_block(text: Seq<char>) -> Option<Seq<char>> {
    match find(text, BEGIN@) {
        None => None,
        Some(b) => {
            let start = b + BEGIN@.len();
            match find(text.skip(start as int), END@) {
                None => None,
                Some(n) => Some(text.subrange(start as int, (start + n) as int)),
            }
        },
    }
}

/// The variables that stand between the two markers in a text: in records where
/// it holds a NUL, else line by line.
pub open spec fn block_vars(text: Seq<char>) -> Option<Seq<Pair>> {
    match marked_block(text) {
        None => None,
        Some(block) => if block.contains('\0') {
            some_vars(record_vars(split(block, '\0')))
        } else {
            some_vars(after_lines(lines(block)).0)
        },
    }
}

/// The variables that stand between the two markers in a text.
pub fn parse_text(text: &str) -> (r: Option<EnvMap>)
    ensures
        vars_view(r) == block_vars(text@),
{
    let chars = chars_of(text);
    let begin = chars_of(BEGIN);
    let end = chars_of(END);
    let len: usize = chars.len();
    assert(chars@.skip(0) =~= text@);
    let at: usize = match find_chars(&chars, &begin, 0) {
        Some(b) => b,
        None => {
            return None;
        },
    };
    assert(at + begin@.len() <= len);
    let start: usize = at + begin.len();
    let stop: usize = match find_chars(&chars, &end, start) {
        Some(e) => e,
        None => {
            return None;
        },
    };
    let block = string_of(&chars, start, stop);
    if has_char(block.as_str(), '\0') {
        parse_nul(block.as_str())
    } else {
        parse_lines(block.as_str())
    }
}

/// The variables in what a shell printed.
pub fn parse_block(bytes: &[u8]) -> (r: Option<EnvMap>)
    ensures
        vars_view(r) == block_vars(lossy_text(bytes@)),
{
    let text = lossy(bytes);
    parse_text(text.as_str())
}

/// What a shell is made to run. `env -0` comes first: an `env` that does not
/// know it fails before it prints, and the plain one follows.
pub open spec fn script() -> Seq<char> {
    "printf '\\n__HWS_ENV_BEGIN__\\n'; command env -0 2>/dev/null || command env; printf '\\n__HWS_ENV_END__\\n'"@
}

/// What a shell is made to run.
pub fn probe_script() -> (r: String)
    ensures
        r@ == script(),
{
    "printf '\\n__HWS_ENV_BEGIN__\\n'; command env -0 2>/dev/null || command env; printf '\\n__HWS_ENV_END__\\n'".to_owned()
}

/// The flags of the shell for an origin, if it comes from a shell.
pub open spec fn shell_flags(origin: EnvOrigin) -> Seq<Seq<char>> {
    match origin {
        EnvOrigin::Interactive => seq!["-l"@, "-i"@, "-c"@],
        EnvOrigin::Login => seq!["-l"@, "-c"@],
        EnvOrigin::Current => Seq::empty(),
    }
}

/// The flags of the shell for an origin, if it comes from a shell.
pub fn probe_flags(origin: EnvOrigin) -> (r: Vec<String>)
    ensures
        texts(r@) == shell_flags(origin),
{
    match origin {
        EnvOrigin::Interactive => {
            let v = ["-l", "-i", "-c"];
            assert(slices(v@) =~= seq!["-l"@, "-i"@, "-c"@]);
            owned(&v)
        },
        EnvOrigin::Login => {
            let v = ["-l", "-c"];
            assert(slices(v@) =~= seq!["-l"@, "-c"@]);
            owned(&v)
        },
        EnvOrigin::Current => {
            let v: Vec<String> = Vec::new();
            assert(texts(v@) =~= Seq::empty());
            v
        },
    }
}

/// How many nanoseconds a shell has to print its environment: five seconds.
pub const PROBE_LIMIT: u128 = 5000000000;

/// Whether a shell that has been running for so many nanoseconds is given up.
pub fn probe_overdue(elapsed: u128, limit: u128) -> (r: bool)
    ensures
        r == (elapsed > limit),
{
    elapsed > limit
}

// --- tool directories --------------------------------------------------------

/// Where developer tools commonly are in a home directory.
pub open spec fn home_dirs() -> Seq<Seq<char>> {
    seq![
        ".local/bin"@,
        ".bun/bin"@,
        ".cargo/bin"@,
        ".local/share/mise/shims"@,
        ".volta/bin"@,
        ".deno/bin"@,
        ".yarn/bin"@,
        "Library/pnpm"@,
        ".local/share/pnpm"@,
        ".nix-profile/bin"@,
        "go/bin"@,
    ]
}

/// Where developer tools commonly are elsewhere.
pub open spec fn system_dirs() -> Seq<Seq<char>> {
    seq!["/opt/homebrew/bin"@, "/usr/local/bin"@, "/home/linuxbrew/.linuxbrew/bin"@]
}

/// Some paths seen from a directory.
pub open spec fn all_joined(base: Seq<char>, rels: Seq<Seq<char>>) -> Seq<Seq<char>> {
    Seq::new(rels.len(), |i: int| joined(base, rels[i]))
}

/// The directories that commonly hold developer tools.
pub open spec fn tool_dirs(home: Option<Seq<char>>) -> Seq<Seq<char>> {
    (match home {
        Some(h) => all_joined(h, home_dirs()),
        None => Seq::empty(),
    }) + system_dirs()
}

/// Directories that commonly hold developer tools but are only added to PATH by
/// rc files or installers. Those that exist fill gaps in it.
pub fn known_tool_dirs(home: Option<&str>) -> (r: Vec<String>)
    ensures
        texts(r@) == tool_dirs(slice_text(home)),
{
    broadcast use lemma_texts_push;

    let mut dirs: Vec<String> = Vec::new();
    match home {
        Some(h) => {
            let v = [
                ".local/bin",
                ".bun/bin",
                ".cargo/bin",
                ".local/share/mise/shims",
                ".volta/bin",
                ".deno/bin",
                ".yarn/bin",
                "Library/pnpm",
                ".local/share/pnpm",
                ".nix-profile/bin",
                "go/bin",
            ];
            assert(slices(v@) =~= home_dirs());
            let rels = owned(&v);
            let ghost all = all_joined(h@, home_dirs());
            let mut i: usize = 0;
            while i < rels.len()
                invariant
                    i <= rels.len(),
                    texts(rels@) == home_dirs(),
                    all == all_joined(h@, home_dirs()),
                    texts(dirs@) =~= all.take(i as int),
                decreases rels.len() - i,
            {
                assert(home_dirs()[i as int] == rels@[i as int]@);
                dirs.push(join_path(h, rels[i].as_str()));
                assert(all.take(i as int).push(all[i as int]) =~= all.take(i + 1));
                i += 1;
            }
            assert(all.take(i as int) =~= all);
        },
        None => {
            assert(texts(dirs@) =~= Seq::empty());
        },
    }
    let w = ["/opt/homebrew/bin", "/usr/local/bin", "/home/linuxbrew/.linuxbrew/bin"];
    assert(slices(w@) =~= system_dirs());
    let mut more = owned(&w);
    let ghost a = dirs@;
    let ghost b = more@;
    dirs.append(&mut more);
    assert(texts(dirs@) =~= texts(a) + texts(b));
    dirs
}

// --- the environment for steps -----------------------------------------------

/// Variables that belong to the probe or the terminal, not to the user's
/// environment.
pub open spec fn dropped_names() -> Seq<Seq<char>> {
    seq![
        "_"@,
        "SHLVL"@,
        "PWD"@,
        "OLDPWD"@,
        "HWS_ENV_PROBE"@,
        "HWS_JOB"@,
        "COLUMNS"@,
        "LINES"@,
        "TERM"@,
    ]
}

/// Variables without those of some names.
pub open spec fn without_all(p: Seq<Pair>, gone: Seq<Seq<char>>) -> Seq<Pair>
    decreases gone.len(),
{
    if gone.len() == 0 {
        p
    } else {
        without(without_all(p, gone.drop_last()), gone.last())
    }
}

/// Whether the variable of this process wins over what the shell said.
pub open spec fn own_var(name: Seq<char>) -> bool {
    starts(name, "HERDR_"@) || name == "HOME"@ || name == "USER"@ || name == "SHELL"@
}

/// The variables of this process that win.
pub open spec fn own_vars(current: Seq<Pair>) -> Seq<Pair> {
    current.filter(|e: Pair| own_var(e.0))
}

/// The terminal type for steps.
pub open spec fn term_of(current: Seq<Pair>) -> Seq<char> {
    match lookup(current, "TERM"@) {
        Some(t) => if t.len() > 0 && t != "dumb"@ {
            t
        } else {
            "xterm-256color"@
        },
        None => "xterm-256color"@,
    }
}

/// Whether a list of paths has one with the components of `p`.
pub open spec fn has_path(list: Seq<Seq<char>>, p: Seq<char>) -> bool {
    exists|i: int| 0 <= i < list.len() && same_components(#[trigger] list[i], p)
}

/// A list of paths followed by those of `dirs` that it does not have, each once.
pub open spec fn filled(path: Seq<Seq<char>>, dirs: Seq<Seq<char>>) -> Seq<Seq<char>>
    decreases dirs.len(),
{
    if dirs.len() == 0 {
        path
    } else {
        let r = filled(path, dirs.drop_last());
        if has_path(r, dirs.last()) {
            r
        } else {
            r.push(dirs.last())
        }
    }
}

/// The directories that PATH ends with where it does not have them.
pub open spec fn fallback_dirs() -> Seq<Seq<char>> {
    seq!["/usr/bin"@, "/bin"@, "/usr/sbin"@, "/sbin"@]
}

/// The directories of PATH for steps.
pub open spec fn path_dirs(vars: Seq<Pair>, dirs: Seq<Seq<char>>) -> Seq<Seq<char>> {
    let own = match lookup(vars, "PATH"@) {
        Some(p) => split(p, ':'),
        None => Seq::empty(),
    };
    filled(filled(own, dirs), fallback_dirs())
}

/// Whether some paths can be put together to a PATH: none may hold a `:`.
pub open spec fn joinable(list: Seq<Seq<char>>) -> bool {
    forall|i: int| 0 <= i < list.len() ==> !(#[trigger] list[i]).contains(':')
}

/// Variables with a PATH that is filled up.
pub open spec fn with_path(vars: Seq<Pair>, dirs: Seq<Seq<char>>) -> Seq<Pair> {
    if joinable(path_dirs(vars, dirs)) {
        put(vars, "PATH"@, join(path_dirs(vars, dirs), ":"@))
    } else {
        vars
    }
}

/// The variables for steps: those of the shell without the ones of the probe,
/// with those of this process that win, a terminal type and a filled PATH.
pub open spec fn finalized(vars: Seq<Pair>, current: Seq<Pair>, dirs: Seq<Seq<char>>) -> Seq<Pair> {
    let a = put_all(without_all(vars, dropped_names()), own_vars(current));
    with_path(put(a, "TERM"@, term_of(current)), dirs)
}

fn drop_names(vars: &mut EnvMap)
    ensures
        final(vars)@ == without_all(old(vars)@, dropped_names()),
{
    let v = [
        "_",
        "SHLVL",
        "PWD",
        "OLDPWD",
        "HWS_ENV_PROBE",
        "HWS_JOB",
        "COLUMNS",
        "LINES",
        "TERM",
    ];
    assert(slices(v@) =~= dropped_names());
    let gone = owned(&v);
    let ghost all = dropped_names();
    let ghost start = vars@;
    let mut i: usize = 0;
    assert(all.take(0) =~= Seq::empty());
    while i < gone.len()
        invariant
            i <= gone.len(),
            texts(gone@) == all,
            vars@ == without_all(start, all.take(i as int)),
        decreases gone.len() - i,
    {
        assert(all.take(i + 1).drop_last() =~= all.take(i as int));
        assert(all.take(i + 1).last() == gone@[i as int]@);
        vars.remove(gone[i].as_str());
        i += 1;
    }
    assert(all.take(i as int) =~= all);
}

fn is_own_var(name: &str) -> (r: bool)
    ensures
        r == own_var(name@),
{
    starts_with(name, "HERDR_") || same(name, "HOME") || same(name, "USER") || same(name, "SHELL")
}

fn keep_own(vars: &mut EnvMap, current: &EnvMap)
    ensures
        final(vars)@ == put_all(old(vars)@, own_vars(current@)),
{
    let ghost start = vars@;
    let ghost all = current@;
    let mut i: usize = 0;
    proof {
        reveal(Seq::filter);
        assert(all.take(0) =~= Seq::empty());
    }
    while i < current.len()
        invariant
            i <= all.len(),
            all == current@,
            vars@ == put_all(start, own_vars(all.take(i as int))),
        decreases all.len() - i,
    {
        let ghost own = own_vars(all.take(i as int));
        proof {
            reveal(Seq::filter);
            assert(all.take(i + 1).drop_last() =~= all.take(i as int));
            assert(all.take(i + 1).last() == all[i as int]);
            assert(own.push(all[i as int]).drop_last() =~= own);
        }
        if is_own_var(current.name(i).as_str()) {
            vars.insert(current.name(i).clone(), current.value(i).clone());
        }
        i += 1;
    }
    assert(all.take(i as int) =~= all);
}

fn fill(path: &mut Vec<String>, dirs: &Vec<String>)
    ensures
        texts(final(path)@) == filled(texts(old(path)@), texts(dirs@)),
{
    broadcast use lemma_texts_push;

    let ghost start = texts(path@);
    let ghost all = texts(dirs@);
    let mut i: usize = 0;
    assert(all.take(0) =~= Seq::empty());
    while i < dirs.len()
        invariant
            i <= dirs.len(),
            all == texts(dirs@),
            texts(path@) == filled(start, all.take(i as int)),
        decreases dirs.len() - i,
    {
        assert(all.take(i + 1).drop_last() =~= all.take(i as int));
        assert(all.take(i + 1).last() == dirs@[i as int]@);
        let known = holds_path(path, dirs[i].as_str());
        proof {
            let t = texts(path@);
            if known {
                let k = choose|k: int|
                    0 <= k < path@.len() && same_components(#[trigger] path@[k]@, dirs@[i as int]@);
                assert(same_components(t[k], dirs@[i as int]@));
            } else {
                assert forall|k: int| 0 <= k < t.len() implies !same_components(
                    #[trigger] t[k],
                    dirs@[i as int]@,
                ) by {
                    assert(t[k] == path@[k]@);
                }
            }
        }
        if !known {
            path.push(dirs[i].clone());
        }
        i += 1;
    }
    assert(all.take(i as int) =~= all);
}

fn can_join(list: &Vec<String>) -> (r: bool)
    ensures
        r == joinable(texts(list@)),
{
    let mut i: usize = 0;
    while i < list.len()
        invariant
            i <= list.len(),
            forall|j: int| 0 <= j < i ==> !(#[trigger] texts(list@)[j]).contains(':'),
        decreases list.len() - i,
    {
        if has_char(list[i].as_str(), ':') {
            assert(texts(list@)[i as int].contains(':'));
            return false;
        }
        i += 1;
    }
    true
}

/// Which environment is taken: that of the interactive shell where it printed
/// one, else that of the login shell, else that of this process.
pub open spec fn chosen(
    interactive: Option<Seq<u8>>,
    login: Option<Seq<u8>>,
    current: Seq<Pair>,
) -> (Seq<Pair>, EnvOrigin) {
    match printed_vars(interactive) {
        Some(v) => (v, EnvOrigin::Interactive),
        None => match printed_vars(login) {
            Some(v) => (v, EnvOrigin::Login),
            None => (current, EnvOrigin::Current),
        },
    }
}

/// The variables in what a shell printed, if it printed anything.
pub open spec fn printed_vars(out: Option<Seq<u8>>) -> Option<Seq<Pair>> {
    match out {
        Some(bytes) => block_vars(lossy_text(bytes)),
        None => None,
    }
}

/// What a shell printed, if anything.
pub open spec fn printed(out: Option<&[u8]>) -> Option<Seq<u8>> {
    match out {
        Some(b) => Some(b@),
        None => None,
    }
}

fn parse_printed(out: Option<&[u8]>) -> (r: Option<EnvMap>)
    ensures
        vars_view(r) == printed_vars(printed(out)),
{
    match out {
        Some(bytes) => parse_block(bytes),
        None => None,
    }
}

impl ResolvedEnv {
    /// The environment for steps, from what the shell printed when it was run as
    /// an interactive and as a login shell, the environment of this process, and
    /// those of the well-known tool directories that exist.
    pub fn resolve_with(
        shell: &str,
        interactive: Option<&[u8]>,
        login: Option<&[u8]>,
        current: &EnvMap,
        tool_dirs: &Vec<String>,
    ) -> (r: ResolvedEnv)
        ensures
            r.shell@ == shell@,
            r.origin == chosen(printed(interactive), printed(login), current@).1,
            r.vars@ == finalized(
                chosen(printed(interactive), printed(login), current@).0,
                current@,
                texts(tool_dirs@),
            ),
    {
        let (vars, origin) = match parse_printed(interactive) {
            Some(v) => (v, EnvOrigin::Interactive),
            None => match parse_printed(login) {
                Some(v) => (v, EnvOrigin::Login),
                None => (current.clone(), EnvOrigin::Current),
            },
        };
        let mut env = ResolvedEnv { vars, origin, shell: shell.to_owned() };
        env.finalize(current, tool_dirs);
        env
    }

    /// Make the variables of a shell those for steps.
    pub fn finalize(&mut self, current: &EnvMap, tool_dirs: &Vec<String>)
        ensures
            final(self).vars@ == finalized(old(self).vars@, current@, texts(tool_dirs@)),
            final(self).origin == old(self).origin,
            final(self).shell@ == old(self).shell@,
    {
        drop_names(&mut self.vars);
        keep_own(&mut self.vars, current);
        let term = match current.get("TERM") {
            Some(t) => if !t.as_str().is_empty() && !same(t.as_str(), "dumb") {
                t.clone()
            } else {
                "xterm-256color".to_owned()
            },
            None => "xterm-256color".to_owned(),
        };
        self.vars.insert("TERM".to_owned(), term);
        let mut path = match self.vars.get("PATH") {
            Some(p) => split_at_char(p.as_str(), ':'),
            None => {
                let v: Vec<String> = Vec::new();
                assert(texts(v@) =~= Seq::empty());
                v
            },
        };
        fill(&mut path, tool_dirs);
        let v = ["/usr/bin", "/bin", "/usr/sbin", "/sbin"];
        assert(slices(v@) =~= fallback_dirs());
        fill(&mut path, &owned(&v));
        if can_join(&path) {
            self.vars.insert("PATH".to_owned(), join_with(&path, ":"));
        }
    }

    /// The PATH for steps.
    pub fn path_var(&self) -> (r: String)
        ensures
            r@ == match lookup(self.vars@, "PATH"@) {
                Some(p) => p,
                None => Seq::empty(),
            },
    {
        match self.vars.get("PATH") {
            Some(p) => p.clone(),
            None => {
                let s = String::new();
                assert(s@ =~= Seq::empty());
                s
            },
        }
    }

    /// `git` as it was found, or a plain `git`, whose start then fails loudly.
    pub fn git(found: Option<String>) -> (r: String)
        ensures
            r@ == match option_text(found) {
                Some(p) => p,
                None => "git"@,
            },
    {
        match found {
            Some(p) => p,
            None => "git".to_owned(),
        }
    }

    /// Every variable with its value.
    pub fn to_vec(&self) -> (r: Vec<(String, String)>)
        ensures
            pair_texts(r@) == self.vars@,
    {
        self.vars.to_vec()
    }

    pub open spec fn text(self) -> Seq<char> {
        let shell = match file_name(self.shell@) {
            Some(n) => legible(n),
            None => "sh"@,
        };
        match self.origin {
            EnvOrigin::Interactive => shell + " -lic"@,
            EnvOrigin::Login => shell + " -lc"@,
            EnvOrigin::Current => "current process env"@,
        }
    }

    /// e.g. `zsh -lic` / `zsh -lc` / `current process env`.
    pub fn describe(&self) -> (r: String)
        ensures
            r@ == self.text(),
    {
        let shell = match file_name_of(self.shell.as_str()) {
            Some(n) => legible_text(n.as_str()),
            None => "sh".to_owned(),
        };
        match self.origin {
            EnvOrigin::Interactive => glue(shell.as_str(), " -lic"),
            EnvOrigin::Login => glue(shell.as_str(), " -lc"),
            EnvOrigin::Current => "current process env".to_owned(),
        }
    }
}

/// The shell to ask: the user's, where it is a file.
pub fn shell_to_probe(shell: Option<String>, is_file: bool) -> (r: String)
    ensures
        r@ == match option_text(shell) {
            Some(s) => if is_file {
                s
            } else {
                "/bin/sh"@
            },
            None => "/bin/sh"@,
        },
{
    match shell {
        Some(s) => if is_file {
            s
        } else {
            "/bin/sh".to_owned()
        },
        None => "/bin/sh".to_owned(),
    }
}

// --- what holds of every environment -----------------------------------------

/// A value cannot forge a variable: each variable that is read from records has
/// a record of its own that starts with its name and holds all of its value,
/// newlines included.
pub proof fn law_records_cannot_forge(recs: Seq<Seq<char>>, k: Seq<char>)
    requires
        lookup(record_vars(recs), k) is Some,
    ensures
        exists|i: int|
            0 <= i < recs.len() && record_var(#[trigger] recs[i]) == Some(
                (k, lookup(record_vars(recs), k)->0),
            ),
    decreases recs.len(),
{
    if recs.len() > 0 {
        let front = recs.drop_last();
        match record_var(recs.last()) {
            Some(p) => {
                law_lookup_after_put(record_vars(front), p.0, p.1, k);
                if p.0 == k {
                    assert(record_var(recs[recs.len() - 1]) == Some(
                        (k, lookup(record_vars(recs), k)->0),
                    ));
                } else {
                    law_records_cannot_forge(front, k);
                    let i = choose|i: int|
                        0 <= i < front.len() && record_var(#[trigger] front[i]) == Some(
                            (k, lookup(record_vars(front), k)->0),
                        );
                    assert(recs[i] == front[i]);
                }
            },
            None => {
                law_records_cannot_forge(front, k);
                let i = choose|i: int|
                    0 <= i < front.len() && record_var(#[trigger] front[i]) == Some(
                        (k, lookup(record_vars(front), k)->0),
                    );
                assert(recs[i] == front[i]);
            },
        }
    }
}

proof fn lemma_filled_prefix(path: Seq<Seq<char>>, dirs: Seq<Seq<char>>)
    ensures
        path.is_prefix_of(filled(path, dirs)),
    decreases dirs.len(),
{
    if dirs.len() > 0 {
        lemma_filled_prefix(path, dirs.drop_last());
        let r = filled(path, dirs.drop_last());
        assert(path =~= r.subrange(0, path.len() as int));
        assert(path =~= filled(path, dirs).subrange(0, path.len() as int));
    } else {
        assert(path =~= path.subrange(0, path.len() as int));
    }
}

/// The user's own PATH comes first: what is filled in only fills gaps.
pub proof fn law_own_path_first(vars: Seq<Pair>, dirs: Seq<Seq<char>>)
    ensures
        lookup(vars, "PATH"@) is Some ==> split(lookup(vars, "PATH"@)->0, ':').is_prefix_of(
            path_dirs(vars, dirs),
        ),
{
    if lookup(vars, "PATH"@) is Some {
        let own = split(lookup(vars, "PATH"@)->0, ':');
        let a = filled(own, dirs);
        let b = filled(a, fallback_dirs());
        lemma_filled_prefix(own, dirs);
        lemma_filled_prefix(a, fallback_dirs());
        assert(own =~= b.subrange(0, own.len() as int)) by {
            assert(own =~= a.subrange(0, own.len() as int));
            assert(a =~= b.subrange(0, a.len() as int));
        }
    }
}

proof fn lemma_filled_has(path: Seq<Seq<char>>, dirs: Seq<Seq<char>>, i: int)
    requires
        0 <= i < dirs.len(),
    ensures
        has_path(filled(path, dirs), dirs[i]),
    decreases dirs.len(),
{
    let front = dirs.drop_last();
    let r = filled(path, front);
    let e = filled(path, dirs);
    if i == dirs.len() - 1 {
        if !has_path(r, dirs.last()) {
            assert(same_components(e[e.len() - 1], dirs[i]));
        }
    } else {
        assert(front[i] == dirs[i]);
        lemma_filled_has(path, front, i);
        let k = choose|k: int| 0 <= k < r.len() && same_components(#[trigger] r[k], dirs[i]);
        assert(same_components(e[k], dirs[i]));
    }
}

/// Every tool directory that exists, and the system's own, are on the PATH.
pub proof fn law_gaps_are_filled(vars: Seq<Pair>, dirs: Seq<Seq<char>>)
    ensures
        forall|i: int| 0 <= i < dirs.len() ==> has_path(path_dirs(vars, dirs), #[trigger] dirs[i]),
        forall|i: int|
            0 <= i < fallback_dirs().len() ==> has_path(
                path_dirs(vars, dirs),
                #[trigger] fallback_dirs()[i],
            ),
{
    let own = match lookup(vars, "PATH"@) {
        Some(p) => split(p, ':'),
        None => Seq::empty(),
    };
    let a = filled(own, dirs);
    let b = filled(a, fallback_dirs());
    assert forall|i: int| 0 <= i < dirs.len() implies has_path(b, #[trigger] dirs[i]) by {
        lemma_filled_has(own, dirs, i);
        lemma_filled_prefix(a, fallback_dirs());
        let k = choose|k: int| 0 <= k < a.len() && same_components(#[trigger] a[k], dirs[i]);
        assert(a =~= b.subrange(0, a.len() as int));
        assert(b[k] == a[k]);
    }
    assert forall|i: int| 0 <= i < fallback_dirs().len() implies has_path(
        b,
        #[trigger] fallback_dirs()[i],
    ) by {
        lemma_filled_has(a, fallback_dirs(), i);
    }
}

proof fn lemma_put_all_last(p: Seq<Pair>, more: Seq<Pair>, k: Seq<char>)
    requires
        ordered(more),
    ensures
        lookup(put_all(p, more), k) == if lookup(more, k) is Some {
            lookup(more, k)
        } else {
            lookup(p, k)
        },
{
    law_put_all(p, more, k);
}

proof fn lemma_lookup_last(p: Seq<Pair>, k: Seq<char>)
    requires
        ordered(p),
        p.len() > 0,
    ensures
        lookup(p, k) == if p.last().0 == k {
            Some(p.last().1)
        } else {
            lookup(p.drop_last(), k)
        },
{
    crate::envmap::lemma_lookup_last(p, k);
}

proof fn lemma_own_lookup(current: Seq<Pair>, k: Seq<char>)
    requires
        ordered(current),
        own_var(k),
    ensures
        lookup(own_vars(current), k) == lookup(current, k),
        ordered(own_vars(current)),
    decreases current.len(),
{
    reveal(Seq::filter);
    lemma_filter_ordered(current);
    if current.len() > 0 {
        let front = current.drop_last();
        assert(ordered(front)) by {
            assert forall|i: int, j: int| 0 <= i < j < front.len() implies crate::order::text_before(
                #[trigger] front[i].0,
                #[trigger] front[j].0,
            ) by {
                assert(front[i] == current[i] && front[j] == current[j]);
            }
        }
        lemma_own_lookup(front, k);
        lemma_lookup_last(current, k);
        if own_var(current.last().0) {
            lemma_lookup_last(own_vars(current), k);
            assert(own_vars(current).drop_last() =~= own_vars(front));
        }
    }
}

proof fn lemma_filter_ordered(current: Seq<Pair>)
    requires
        ordered(current),
    ensures
        ordered(own_vars(current)),
        forall|i: int|
            0 <= i < own_vars(current).len() ==> current.contains(#[trigger] own_vars(current)[i]),
    decreases current.len(),
{
    reveal(Seq::filter);
    if current.len() > 0 {
        let front = current.drop_last();
        assert(ordered(front)) by {
            assert forall|i: int, j: int| 0 <= i < j < front.len() implies crate::order::text_before(
                #[trigger] front[i].0,
                #[trigger] front[j].0,
            ) by {
                assert(front[i] == current[i] && front[j] == current[j]);
            }
        }
        lemma_filter_ordered(front);
        let f = own_vars(front);
        let r = own_vars(current);
        assert forall|i: int| 0 <= i < r.len() implies current.contains(#[trigger] r[i]) by {
            if i < f.len() {
                let k = choose|k: int| 0 <= k < front.len() && front[k] == f[i];
                assert(current[k] == r[i]);
            } else {
                assert(current[current.len() - 1] == r[i]);
            }
        }
        assert forall|i: int, j: int| 0 <= i < j < r.len() implies crate::order::text_before(
            #[trigger] r[i].0,
            #[trigger] r[j].0,
        ) by {
            if j < f.len() {
                assert(r[i] == f[i] && r[j] == f[j]);
            } else {
                let k = choose|k: int| 0 <= k < front.len() && front[k] == f[i];
                assert(current[k] == r[i]);
                assert(current[current.len() - 1] == r[j]);
            }
        }
    }
}

/// The plugin's own context wins over what the shell said: a step sees every
/// variable of this process whose name starts with `HERDR_`, and its home, user
/// and shell.
pub proof fn law_own_context_kept(
    vars: Seq<Pair>,
    current: Seq<Pair>,
    dirs: Seq<Seq<char>>,
    k: Seq<char>,
)
    requires
        ordered(current),
        own_var(k),
        lookup(current, k) is Some,
    ensures
        lookup(finalized(vars, current, dirs), k) == lookup(current, k),
{
    lemma_own_lookup(current, k);
    let a = without_all(vars, dropped_names());
    lemma_put_all_last(a, own_vars(current), k);
    let b = put_all(a, own_vars(current));
    reveal_strlit("HERDR_");
    reveal_strlit("TERM");
    reveal_strlit("PATH");
    reveal_strlit("HOME");
    reveal_strlit("USER");
    reveal_strlit("SHELL");
    assert(k != "TERM"@ && k != "PATH"@) by {
        if starts(k, "HERDR_"@) {
            assert(k.take(6)[0] == 'H');
        }
        assert("HOME"@[0] == 'H' && "USER"@[0] == 'U' && "SHELL"@[0] == 'S');
        assert("TERM"@[0] == 'T' && "PATH"@[0] == 'P');
    }
    law_lookup_after_put(b, "TERM"@, term_of(current), k);
    let c = put(b, "TERM"@, term_of(current));
    law_lookup_after_put(c, "PATH"@, join(path_dirs(c, dirs), ":"@), k);
}

proof fn lemma_own_only(current: Seq<Pair>, k: Seq<char>)
    requires
        !own_var(k),
    ensures
        lookup(own_vars(current), k) is None,
    decreases current.len(),
{
    reveal(Seq::filter);
    if current.len() > 0 {
        let front = current.drop_last();
        lemma_own_only(front, k);
        if own_var(current.last().0) {
            lemma_lookup_pushed(own_vars(front), current.last(), k);
        }
    }
}

proof fn lemma_without_all(p: Seq<Pair>, gone: Seq<Seq<char>>, k: Seq<char>)
    requires
        gone.contains(k),
    ensures
        lookup(without_all(p, gone), k) is None,
    decreases gone.len(),
{
    let front = gone.drop_last();
    let q = without_all(p, front);
    law_lookup_after_remove(q, gone.last(), k);
    if k != gone.last() {
        let i = choose|i: int| 0 <= i < gone.len() && gone[i] == k;
        assert(front[i] == k);
        lemma_without_all(p, front, k);
    }
}

proof fn lemma_dropped_are_not_own(k: Seq<char>)
    requires
        dropped_names().contains(k),
    ensures
        !own_var(k),
        k != "PATH"@,
{
    reveal_strlit("_");
    reveal_strlit("SHLVL");
    reveal_strlit("PWD");
    reveal_strlit("OLDPWD");
    reveal_strlit("HWS_ENV_PROBE");
    reveal_strlit("HWS_JOB");
    reveal_strlit("COLUMNS");
    reveal_strlit("LINES");
    reveal_strlit("TERM");
    reveal_strlit("HERDR_");
    reveal_strlit("PATH");
    reveal_strlit("HOME");
    reveal_strlit("USER");
    reveal_strlit("SHELL");
    assert("SHLVL"@[2] == 'L' && "SHELL"@[2] == 'E');
    assert("PATH"@.len() == 4 && "HOME"@.len() == 4 && "USER"@.len() == 4);
    assert("TERM"@[0] == 'T' && "PATH"@[0] == 'P' && "HOME"@[0] == 'H' && "USER"@[0] == 'U');
    if starts(k, "HERDR_"@) {
        assert(k.take(6) == "HERDR_"@);
        assert(k[0] == k.take(6)[0] && k[1] == k.take(6)[1]);
        assert(k[0] == 'H' && k[1] == 'E');
        assert("HWS_ENV_PROBE"@[1] == 'W' && "HWS_JOB"@[1] == 'W');
        assert("_"@.len() == 1 && "PWD"@[0] == 'P' && "OLDPWD"@[0] == 'O');
        assert("COLUMNS"@[0] == 'C' && "LINES"@[0] == 'L' && "SHLVL"@[0] == 'S');
    }
}

/// The probe leaves no trace: what belongs to it, or to its terminal, is not in
/// the environment of a step.
pub proof fn law_probe_leaves_no_trace(
    vars: Seq<Pair>,
    current: Seq<Pair>,
    dirs: Seq<Seq<char>>,
    k: Seq<char>,
)
    requires
        ordered(current),
        dropped_names().contains(k),
        k != "TERM"@,
    ensures
        lookup(finalized(vars, current, dirs), k) is None,
{
    lemma_dropped_are_not_own(k);
    let a = without_all(vars, dropped_names());
    lemma_without_all(vars, dropped_names(), k);
    lemma_filter_ordered(current);
    lemma_own_only(current, k);
    lemma_put_all_last(a, own_vars(current), k);
    let b = put_all(a, own_vars(current));
    law_lookup_after_put(b, "TERM"@, term_of(current), k);
    let c = put(b, "TERM"@, term_of(current));
    law_lookup_after_put(c, "PATH"@, join(path_dirs(c, dirs), ":"@), k);
}

/// A step always has a terminal type that can show colours.
pub proof fn law_term_is_usable(vars: Seq<Pair>, current: Seq<Pair>, dirs: Seq<Seq<char>>)
    ensures
        lookup(finalized(vars, current, dirs), "TERM"@) == Some(term_of(current)),
        term_of(current).len() > 0,
        term_of(current) != "dumb"@,
{
    reveal_strlit("TERM");
    reveal_strlit("PATH");
    reveal_strlit("dumb");
    reveal_strlit("xterm-256color");
    assert("TERM"@[0] == 'T' && "PATH"@[0] == 'P');
    assert("xterm-256color"@[0] == 'x' && "dumb"@[0] == 'd');
    let b = put_all(without_all(vars, dropped_names()), own_vars(current));
    law_lookup_after_put(b, "TERM"@, term_of(current), "TERM"@);
    let c = put(b, "TERM"@, term_of(current));
    law_lookup_after_put(c, "PATH"@, join(path_dirs(c, dirs), ":"@), "TERM"@);
}

/// So many newlines.
pub open spec fn newlines(n: nat) -> Seq<char> {
    Seq::new(n, |i: int| '\n')
}

/// Whether a record reads `name=value`, be it behind some newlines: the name is
/// what stands before the first `=`, the value is all that stands behind it.
pub open spec fn says(record: Seq<char>, name: Seq<char>, value: Seq<char>) -> bool {
    &&& name.len() > 0
    &&& name[0] != '\n'
    &&& !name.contains('=')
    &&& exists|n: nat| record == #[trigger] newlines(n) + name + seq!['='] + value
}

proof fn lemma_leading(n: nat, s: Seq<char>)
    requires
        s.len() == 0 || s[0] != '\n',
    ensures
        without_leading(newlines(n) + s, '\n') == s,
    decreases n,
{
    let t = newlines(n) + s;
    if n == 0 {
        assert(t =~= s);
    } else {
        let m = (n - 1) as nat;
        assert(t.skip(1) =~= newlines(m) + s);
        lemma_leading(m, s);
    }
}

proof fn lemma_leading_back(s: Seq<char>)
    ensures
        exists|n: nat| s == #[trigger] newlines(n) + without_leading(s, '\n'),
        without_leading(s, '\n').len() == 0 || without_leading(s, '\n')[0] != '\n',
    decreases s.len(),
{
    if s.len() > 0 && s[0] == '\n' {
        lemma_leading_back(s.skip(1));
        let n = choose|n: nat|
            s.skip(1) == #[trigger] newlines(n) + without_leading(s.skip(1), '\n');
        let rest = without_leading(s, '\n');
        assert(rest == without_leading(s.skip(1), '\n'));
        assert(seq!['\n'] + newlines(n) =~= newlines(n + 1));
        assert(s =~= seq!['\n'] + s.skip(1));
        assert(s =~= newlines(n + 1) + rest);
    } else {
        assert(s =~= newlines(0) + s);
    }
}

proof fn lemma_says(record: Seq<char>, name: Seq<char>, value: Seq<char>)
    ensures
        says(record, name, value) <==> record_var(record) == Some((name, value)),
{
    if says(record, name, value) {
        let n = choose|n: nat| record == #[trigger] newlines(n) + name + seq!['='] + value;
        let rest = name + seq!['='] + value;
        assert(record =~= newlines(n) + rest);
        assert(rest[0] == name[0]);
        lemma_leading(n, rest);
        law_cut_once(name, '=', value);
    }
    if record_var(record) == Some((name, value)) {
        let rest = without_leading(record, '\n');
        law_cut_gives_all(rest, '=');
        lemma_leading_back(record);
        let n = choose|n: nat| record == #[trigger] newlines(n) + without_leading(record, '\n');
        assert(rest[0] == name[0]);
        assert(record =~= newlines(n) + name + seq!['='] + value);
    }
}

/// A record that reads `name=value` sets that variable to exactly that value,
/// whatever the value holds, and no other; one that does not read so sets none.
pub proof fn law_a_record_sets_its_variable(
    recs: Seq<Seq<char>>,
    record: Seq<char>,
    name: Seq<char>,
    value: Seq<char>,
    k: Seq<char>,
)
    ensures
        says(record, name, value) ==> lookup(record_vars(recs.push(record)), k) == if k == name {
            Some(value)
        } else {
            lookup(record_vars(recs), k)
        },
        (forall|a: Seq<char>, b: Seq<char>| !#[trigger] says(record, a, b)) ==> record_vars(
            recs.push(record),
        ) == record_vars(recs),
{
    assert(recs.push(record).drop_last() =~= recs);
    lemma_says(record, name, value);
    if says(record, name, value) {
        law_lookup_after_put(record_vars(recs), name, value, k);
    }
    if record_var(record) is Some {
        let p = record_var(record)->0;
        lemma_says(record, p.0, p.1);
        assert(says(record, p.0, p.1));
    }
}

/// Every variable is read, and with the value of the last record that sets it:
/// none is lost, none is made up.
pub proof fn law_the_last_record_counts(recs: Seq<Seq<char>>, k: Seq<char>)
    ensures
        forall|i: int, v: Seq<char>|
            #![trigger says(recs[i], k, v)]
            0 <= i < recs.len() && says(recs[i], k, v) && (forall|j: int, w: Seq<char>|
                #![trigger says(recs[j], k, w)]
                i < j < recs.len() ==> !says(recs[j], k, w)) ==> lookup(record_vars(recs), k)
                == Some(v),
        (forall|i: int, v: Seq<char>|
            #![trigger says(recs[i], k, v)]
            0 <= i < recs.len() ==> !says(recs[i], k, v)) ==> lookup(record_vars(recs), k) is None,
    decreases recs.len(),
{
    if recs.len() > 0 {
        let front = recs.drop_last();
        let last = recs.last();
        assert(front.push(last) =~= recs);
        law_the_last_record_counts(front, k);
        match record_var(last) {
            Some(p) => {
                lemma_says(last, p.0, p.1);
                law_a_record_sets_its_variable(front, last, p.0, p.1, k);
                assert(says(recs[recs.len() - 1], p.0, p.1));
            },
            None => {},
        }
        assert forall|i: int, v: Seq<char>|
            #![trigger says(recs[i], k, v)]
            0 <= i < recs.len() && says(recs[i], k, v) && (forall|j: int, w: Seq<char>|
                #![trigger says(recs[j], k, w)]
                i < j < recs.len() ==> !says(recs[j], k, w)) implies lookup(record_vars(recs), k)
            == Some(v) by {
            lemma_says(recs[i], k, v);
            if i < front.len() {
                assert(says(front[i], k, v));
                assert forall|j: int, w: Seq<char>|
                    #![trigger says(front[j], k, w)]
                    i < j < front.len() implies !says(front[j], k, w) by {
                    assert(front[j] == recs[j]);
                    assert(!says(recs[j], k, w));
                }
                if let Some(p) = record_var(last) {
                    assert(!says(recs[recs.len() - 1], k, p.1));
                }
            }
        }
        if forall|i: int, v: Seq<char>|
            #![trigger says(recs[i], k, v)]
            0 <= i < recs.len() ==> !says(recs[i], k, v) {
            assert forall|i: int, v: Seq<char>|
                #![trigger says(front[i], k, v)]
                0 <= i < front.len() implies !says(front[i], k, v) by {
                assert(front[i] == recs[i]);
                assert(!says(recs[i], k, v));
            }
            if let Some(p) = record_var(last) {
                assert(!says(recs[recs.len() - 1], k, p.1));
            }
        }
    }
}

/// Whether a line reads `NAME=value` with a name as variables have: letters,
/// digits and underscores, not a digit first.
pub open spec fn line_says(line: Seq<char>, name: Seq<char>, value: Seq<char>) -> bool {
    &&& line == name + seq!['='] + value
    &&& name.len() > 0
    &&& !('0' <= name[0] <= '9')
    &&& forall|i: int|
        0 <= i < name.len() ==> ('a' <= #[trigger] name[i] <= 'z' || 'A' <= name[i] <= 'Z' || '0'
            <= name[i] <= '9' || name[i] == '_')
}

proof fn lemma_line_says(line: Seq<char>, name: Seq<char>, value: Seq<char>)
    ensures
        line_says(line, name, value) <==> assignment(line) == Some((name, value)),
{
    if line_says(line, name, value) {
        assert(!name.contains('=')) by {
            assert forall|i: int| 0 <= i < name.len() implies name[i] != '=' by {
            }
        }
        law_cut_once(name, '=', value);
        assert forall|i: int| 0 <= i < name.len() implies is_word(#[trigger] name[i]) by {
        }
    }
    if assignment(line) == Some((name, value)) {
        law_cut_gives_all(line, '=');
        assert forall|i: int| 0 <= i < name.len() implies ('a' <= #[trigger] name[i] <= 'z' || 'A'
            <= name[i] <= 'Z' || '0' <= name[i] <= '9' || name[i] == '_') by {
            assert(is_word(name[i]));
        }
    }
}

/// Of an `env` that prints lines, a line that reads `NAME=value` sets a variable;
/// any other goes on with the value of the last one, behind a newline. No other
/// variable changes.
pub proof fn law_lines_are_read(
    all: Seq<Seq<char>>,
    line: Seq<char>,
    name: Seq<char>,
    value: Seq<char>,
    k: Seq<char>,
)
    ensures
        ({
            let before = after_lines(all);
            let now = after_lines(all.push(line));
            &&& line_says(line, name, value) ==> now.1 == Some(name) && lookup(now.0, k) == (if k
                == name {
                Some(value)
            } else {
                lookup(before.0, k)
            })
            &&& (forall|a: Seq<char>, b: Seq<char>| !#[trigger] line_says(line, a, b)) ==> {
                &&& now.1 == before.1
                &&& before.1 == Some(k) && lookup(before.0, k) is Some ==> lookup(now.0, k) == Some(
                    lookup(before.0, k)->0 + "\n"@ + line,
                )
                &&& before.1 != Some(k) ==> lookup(now.0, k) == lookup(before.0, k)
            }
        }),
{
    assert(all.push(line).drop_last() =~= all);
    let s = after_lines(all);
    lemma_line_says(line, name, value);
    if line_says(line, name, value) {
        law_lookup_after_put(s.0, name, value, k);
    }
    match assignment(line) {
        Some(p) => {
            lemma_line_says(line, p.0, p.1);
        },
        None => {
            if let Some(l) = s.1 {
                if let Some(v) = lookup(s.0, l) {
                    law_lookup_after_put(s.0, l, v + "\n"@ + line, k);
                }
            }
        },
    }
}

/// What stands between the first mark and the next end mark is what is read,
/// whatever the shell printed around it.
pub proof fn law_marked_block_is_found(before: Seq<char>, block: Seq<char>, after: Seq<char>)
    requires
        forall|i: int|
            0 <= i < before.len() ==> !#[trigger] stands_at(
                before + BEGIN@ + block + END@ + after,
                BEGIN@,
                i,
            ),
        forall|i: int|
            0 <= i < block.len() ==> !#[trigger] stands_at(block + END@ + after, END@, i),
    ensures
        marked_block(before + BEGIN@ + block + END@ + after) == Some(block),
{
    let text = before + BEGIN@ + block + END@ + after;
    let b = before.len();
    assert(text.subrange(b as int, (b + BEGIN@.len()) as int) =~= BEGIN@);
    law_found_where_it_stands(text, BEGIN@, b);
    let start = b + BEGIN@.len();
    let rest = block + END@ + after;
    assert(text.skip(start as int) =~= rest);
    assert(rest.subrange(block.len() as int, (block.len() + END@.len()) as int) =~= END@);
    law_found_where_it_stands(rest, END@, block.len());
    assert(text.subrange(start as int, (start + block.len()) as int) =~= block);
}

/// Records that the shell printed between the marks, each ended by a NUL, are all
/// read as records.
pub proof fn law_printed_records_are_read(text: Seq<char>, recs: Seq<Seq<char>>)
    requires
        recs.len() > 1,
        forall|i: int| 0 <= i < recs.len() ==> !(#[trigger] recs[i]).contains('\0'),
        marked_block(text) == Some(join(recs, seq!['\0'])),
    ensures
        record_vars(recs).len() > 0 ==> block_vars(text) == Some(record_vars(recs)),
        record_vars(recs).len() == 0 ==> block_vars(text) is None,
{
    let block = join(recs, seq!['\0']);
    law_split_undoes_join(recs, '\0');
    let front = join(recs.drop_last(), seq!['\0']);
    assert(block == front + seq!['\0'] + recs.last());
    assert(block[front.len() as int] == '\0');
    assert(block.contains('\0'));
}

proof fn lemma_without_all_other(p: Seq<Pair>, gone: Seq<Seq<char>>, k: Seq<char>)
    requires
        !gone.contains(k),
    ensures
        lookup(without_all(p, gone), k) == lookup(p, k),
    decreases gone.len(),
{
    if gone.len() > 0 {
        let front = gone.drop_last();
        assert(gone.contains(gone.last()));
        assert(!front.contains(k)) by {
            if front.contains(k) {
                let i = choose|i: int| 0 <= i < front.len() && front[i] == k;
                assert(gone[i] == k);
            }
        }
        lemma_without_all_other(p, front, k);
        law_lookup_after_remove(without_all(p, front), gone.last(), k);
    }
}

/// Whether a variable belongs to the plugin's own context: its name starts with
/// `HERDR_`, or it is the home, the user or the shell.
pub open spec fn of_own_context(k: Seq<char>) -> bool {
    "HERDR_"@.is_prefix_of(k) || k == "HOME"@ || k == "USER"@ || k == "SHELL"@
}

/// Whether a variable belongs to the probe or its terminal.
pub open spec fn of_the_probe(k: Seq<char>) -> bool {
    k == "_"@ || k == "SHLVL"@ || k == "PWD"@ || k == "OLDPWD"@ || k == "HWS_ENV_PROBE"@ || k
        == "HWS_JOB"@ || k == "COLUMNS"@ || k == "LINES"@
}

/// What becomes of each variable but the PATH: the plugin's own context wins over
/// the shell, what belongs to the probe is gone, the terminal type is that of this
/// process where it can show anything, and every other variable is as the shell
/// has it.
pub proof fn law_every_variable_is_kept(
    vars: Seq<Pair>,
    current: Seq<Pair>,
    dirs: Seq<Seq<char>>,
    k: Seq<char>,
)
    requires
        ordered(current),
        k != "PATH"@,
    ensures
        ({
            let now = lookup(finalized(vars, current, dirs), k);
            &&& of_own_context(k) && lookup(current, k) is Some ==> now == lookup(current, k)
            &&& of_the_probe(k) ==> now is None
            &&& k == "TERM"@ ==> now == (match lookup(current, "TERM"@) {
                Some(t) => if t.len() == 0 || t == "dumb"@ {
                    Some("xterm-256color"@)
                } else {
                    Some(t)
                },
                None => Some("xterm-256color"@),
            })
            &&& !of_the_probe(k) && k != "TERM"@ && !(of_own_context(k) && lookup(current, k)
                is Some) ==> now == lookup(vars, k)
        }),
{
    let gone = dropped_names();
    assert(gone.contains(k) <==> of_the_probe(k) || k == "TERM"@) by {
        assert(gone[0] == "_"@ && gone[1] == "SHLVL"@ && gone[2] == "PWD"@ && gone[3] == "OLDPWD"@
            && gone[4] == "HWS_ENV_PROBE"@ && gone[5] == "HWS_JOB"@ && gone[6] == "COLUMNS"@
            && gone[7] == "LINES"@ && gone[8] == "TERM"@);
        if gone.contains(k) {
            let i = choose|i: int| 0 <= i < gone.len() && gone[i] == k;
            assert(gone[i] == k);
        }
    }
    assert(own_var(k) == of_own_context(k)) by {
        let h = "HERDR_"@;
        if h.len() <= k.len() {
            assert(k.take(h.len() as int) =~= k.subrange(0, h.len() as int));
        }
    }
    let a = without_all(vars, gone);
    let own = own_vars(current);
    lemma_filter_ordered(current);
    if own_var(k) {
        lemma_own_lookup(current, k);
    } else {
        lemma_own_only(current, k);
    }
    lemma_put_all_last(a, own, k);
    let b = put_all(a, own);
    law_lookup_after_put(b, "TERM"@, term_of(current), k);
    let c = put(b, "TERM"@, term_of(current));
    law_lookup_after_put(c, "PATH"@, join(path_dirs(c, dirs), ":"@), k);
    if gone.contains(k) {
        lemma_dropped_are_not_own(k);
        lemma_without_all(vars, gone, k);
        if of_the_probe(k) {
            lemma_probe_is_not_term(k);
        }
    } else {
        lemma_without_all_other(vars, gone, k);
    }
}

proof fn lemma_probe_is_not_term(k: Seq<char>)
    requires
        of_the_probe(k),
    ensures
        k != "TERM"@,
{
    reveal_strlit("_");
    reveal_strlit("SHLVL");
    reveal_strlit("PWD");
    reveal_strlit("OLDPWD");
    reveal_strlit("HWS_ENV_PROBE");
    reveal_strlit("HWS_JOB");
    reveal_strlit("COLUMNS");
    reveal_strlit("LINES");
    reveal_strlit("TERM");
    assert("TERM"@.len() == 4 && "_"@.len() == 1 && "SHLVL"@.len() == 5 && "PWD"@.len() == 3);
    assert("OLDPWD"@.len() == 6 && "HWS_ENV_PROBE"@.len() == 13 && "HWS_JOB"@.len() == 7);
    assert("COLUMNS"@.len() == 7 && "LINES"@.len() == 5);
}

/// Whether a directory is in a list, be it spelled otherwise.
pub open spec fn listed(list: Seq<Seq<char>>, dir: Seq<char>) -> bool {
    exists|j: int| 0 <= j < list.len() && same_components(#[trigger] list[j], dir)
}

proof fn lemma_filled_only(path: Seq<Seq<char>>, dirs: Seq<Seq<char>>, x: Seq<char>)
    requires
        filled(path, dirs).contains(x),
    ensures
        path.contains(x) || dirs.contains(x),
    decreases dirs.len(),
{
    if dirs.len() > 0 {
        let r = filled(path, dirs.drop_last());
        let e = filled(path, dirs);
        let k = choose|k: int| 0 <= k < e.len() && e[k] == x;
        if k < r.len() {
            assert(r[k] == x);
            lemma_filled_only(path, dirs.drop_last(), x);
            if dirs.drop_last().contains(x) {
                let i = choose|i: int| 0 <= i < dirs.drop_last().len() && dirs.drop_last()[i] == x;
                assert(dirs[i] == x);
            }
        } else {
            assert(dirs[dirs.len() - 1] == x);
        }
    }
}

/// The PATH of a step, cut at its colons: first all directories of the shell's own
/// PATH in their order, then only tool directories and those of the system, and
/// each of these is there, under this or another spelling. Where a directory holds
/// a colon no such PATH can be written, and it stays as the shell has it.
pub proof fn law_path_is_filled_up(vars: Seq<Pair>, current: Seq<Pair>, dirs: Seq<Seq<char>>)
    requires
        ordered(current),
        lookup(vars, "PATH"@) is Some,
    ensures
        ({
            let own = split(lookup(vars, "PATH"@)->0, ':');
            let now = lookup(finalized(vars, current, dirs), "PATH"@);
            let system = seq!["/usr/bin"@, "/bin"@, "/usr/sbin"@, "/sbin"@];
            &&& now is Some
            &&& (forall|i: int| 0 <= i < dirs.len() ==> !(#[trigger] dirs[i]).contains(':')) ==> {
                let list = split(now->0, ':');
                &&& own.is_prefix_of(list)
                &&& forall|x: Seq<char>| #[trigger]
                    list.contains(x) ==> own.contains(x) || dirs.contains(x) || system.contains(x)
                &&& forall|i: int| 0 <= i < dirs.len() ==> listed(list, #[trigger] dirs[i])
                &&& forall|i: int| 0 <= i < 4 ==> listed(list, #[trigger] system[i])
            }
        }),
{
    let system = seq!["/usr/bin"@, "/bin"@, "/usr/sbin"@, "/sbin"@];
    assert(system =~= fallback_dirs());
    reveal_strlit("PATH");
    reveal_strlit("TERM");
    reveal_strlit("/usr/bin");
    reveal_strlit("/bin");
    reveal_strlit("/usr/sbin");
    reveal_strlit("/sbin");
    reveal_strlit(":");
    assert("PATH"@[0] == 'P' && "TERM"@[0] == 'T');
    let k = "PATH"@;
    let a = without_all(vars, dropped_names());
    assert(!own_var(k)) by {
        reveal_strlit("HERDR_");
        reveal_strlit("HOME");
        reveal_strlit("USER");
        reveal_strlit("SHELL");
        assert("HOME"@[0] == 'H' && "USER"@[0] == 'U' && "SHELL"@[0] == 'S');
        if starts(k, "HERDR_"@) {
            assert(k.len() == 4);
        }
    }
    assert(!dropped_names().contains(k)) by {
        if dropped_names().contains(k) {
            lemma_dropped_are_not_own(k);
        }
    }
    lemma_without_all_other(vars, dropped_names(), k);
    lemma_filter_ordered(current);
    lemma_own_only(current, k);
    lemma_put_all_last(a, own_vars(current), k);
    let b = put_all(a, own_vars(current));
    law_lookup_after_put(b, "TERM"@, term_of(current), k);
    let c = put(b, "TERM"@, term_of(current));
    let own = split(lookup(vars, k)->0, ':');
    let list = path_dirs(c, dirs);
    law_lookup_after_put(c, k, join(list, ":"@), k);
    law_own_path_first(c, dirs);
    law_gaps_are_filled(c, dirs);
    if forall|i: int| 0 <= i < dirs.len() ==> !(#[trigger] dirs[i]).contains(':') {
        lemma_split_pieces(lookup(vars, k)->0, ':');
        assert forall|x: Seq<char>| #[trigger] list.contains(x) implies own.contains(x)
            || dirs.contains(x) || system.contains(x) by {
            lemma_filled_only(filled(own, dirs), fallback_dirs(), x);
            if filled(own, dirs).contains(x) {
                lemma_filled_only(own, dirs, x);
            }
        }
        assert forall|i: int| 0 <= i < list.len() implies !(#[trigger] list[i]).contains(':') by {
            assert(list.contains(list[i]));
            assert(forall|j: int| 0 <= j < 4 ==> !(#[trigger] system[j]).contains(':'));
        }
        assert(own.len() > 0);
        assert(list.len() > 0);
        assert(":"@ =~= seq![':']);
        law_split_undoes_join(list, ':');
        assert forall|i: int| 0 <= i < dirs.len() implies listed(list, #[trigger] dirs[i]) by {
            assert(has_path(list, dirs[i]));
        }
        assert forall|i: int| 0 <= i < 4 implies listed(list, #[trigger] system[i]) by {
            assert(has_path(list, fallback_dirs()[i]));
        }
        assert(joinable(list));
        assert(lookup(finalized(vars, current, dirs), k) == Some(join(list, ":"@)));
        assert(split(lookup(finalized(vars, current, dirs), k)->0, ':') == list);
    }
}

/// The interactive login shell is asked first, then the login shell, and this
/// process last: the first that printed any variables is the one that counts.
pub proof fn law_best_shell_counts(
    interactive: Option<Seq<u8>>,
    login: Option<Seq<u8>>,
    current: Seq<Pair>,
)
    ensures
        ({
            let i = interactive is Some && block_vars(lossy_text(interactive->0)) is Some;
            let l = login is Some && block_vars(lossy_text(login->0)) is Some;
            let r = chosen(interactive, login, current);
            &&& i ==> r == (block_vars(lossy_text(interactive->0))->0, EnvOrigin::Interactive)
            &&& !i && l ==> r == (block_vars(lossy_text(login->0))->0, EnvOrigin::Login)
            &&& !i && !l ==> r == (current, EnvOrigin::Current)
        }),
{
}

/// The well-known tool directories of a home directory are looked for in it, and
/// those of the system wherever the home is.
pub proof fn law_tool_directories(home: Seq<char>, rel: Seq<char>)
    requires
        home.len() > 0,
        home.last() != '/',
        rel == ".local/bin"@ || rel == ".bun/bin"@ || rel == ".cargo/bin"@ || rel
            == ".local/share/mise/shims"@ || rel == ".volta/bin"@ || rel == ".deno/bin"@ || rel
            == ".yarn/bin"@ || rel == "Library/pnpm"@ || rel == ".local/share/pnpm"@ || rel
            == ".nix-profile/bin"@ || rel == "go/bin"@,
    ensures
        tool_dirs(Some(home)).contains(home.push('/') + rel),
        tool_dirs(Some(home)).len() == 14,
{
    reveal_strlit(".local/bin");
    reveal_strlit(".bun/bin");
    reveal_strlit(".cargo/bin");
    reveal_strlit(".local/share/mise/shims");
    reveal_strlit(".volta/bin");
    reveal_strlit(".deno/bin");
    reveal_strlit(".yarn/bin");
    reveal_strlit("Library/pnpm");
    reveal_strlit(".local/share/pnpm");
    reveal_strlit(".nix-profile/bin");
    reveal_strlit("go/bin");
    let h = home_dirs();
    let i: int = if rel == ".local/bin"@ {
        0
    } else if rel == ".bun/bin"@ {
        1
    } else if rel == ".cargo/bin"@ {
        2
    } else if rel == ".local/share/mise/shims"@ {
        3
    } else if rel == ".volta/bin"@ {
        4
    } else if rel == ".deno/bin"@ {
        5
    } else if rel == ".yarn/bin"@ {
        6
    } else if rel == "Library/pnpm"@ {
        7
    } else if rel == ".local/share/pnpm"@ {
        8
    } else if rel == ".nix-profile/bin"@ {
        9
    } else {
        10
    };
    assert(h[i] == rel);
    assert(!absolute(rel)) by {
        assert(rel[0] == '.' || rel[0] == 'L' || rel[0] == 'g');
    }
    assert(tool_dirs(Some(home))[i] == home.push('/') + rel);
}

/// The tool directories of the system are looked for wherever the home is.
pub proof fn law_system_tool_directories(home: Option<Seq<char>>)
    ensures
        tool_dirs(home).contains("/opt/homebrew/bin"@),
        tool_dirs(home).contains("/usr/local/bin"@),
        tool_dirs(home).contains("/home/linuxbrew/.linuxbrew/bin"@),
        home is None ==> tool_dirs(home).len() == 3,
{
    let n = tool_dirs(home).len();
    assert(tool_dirs(home)[n - 3] == system_dirs()[0]);
    assert(tool_dirs(home)[n - 2] == system_dirs()[1]);
    assert(tool_dirs(home)[n - 1] == system_dirs()[2]);
}

/// A shell is a login shell either way, and interactive only where that is asked
/// for; the script stands behind `-c`.
pub proof fn law_shells_are_login_shells()
    ensures
        shell_flags(EnvOrigin::Interactive) == seq!["-l"@, "-i"@, "-c"@],
        shell_flags(EnvOrigin::Login) == seq!["-l"@, "-c"@],
        shell_flags(EnvOrigin::Current).len() == 0,
{
}

/// An environment says which shell it comes from, by its name, and how that was
/// started.
pub proof fn law_environment_says_where_it_comes_from(env: ResolvedEnv, dirs: Seq<Seq<char>>)
    requires
        dirs.len() > 0,
        plain_names(dirs),
        dirs.last() != seq!['.', '.'],
        !dirs.last().contains('\0'),
        env.shell@ == from_root(dirs),
    ensures
        env.origin == EnvOrigin::Interactive ==> env.text() == dirs.last() + " -lic"@,
        env.origin == EnvOrigin::Login ==> env.text() == dirs.last() + " -lc"@,
        env.origin == EnvOrigin::Current ==> env.text() == "current process env"@,
{
    law_components_of_a_path(dirs);
}

} // verus!
