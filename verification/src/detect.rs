//! Zero-config detection of what a checkout needs: package manager installs,
//! mise config files, direnv.
//!
//! What is looked at here comes from the worktree, whose contents are up to
//! whoever wrote the branch. So nothing of it ever becomes part of a command:
//! it only selects among fixed ones.

use vstd::prelude::*;
use vstd::string::*;
use crate::json::{json_text, text_at};
use crate::paths::{join_path, joined, law_joined};
use crate::pieces::{join, join_with, lemma_split_len, lemma_split_whole, split, split_at_char};
use crate::text::{
    copy_list, holds, is_space, lemma_texts_push, owned, same, slice_text, slices, texts, trim,
    trimmed,
};

verus! {

/// A command that installs dependencies.
#[derive(Debug, PartialEq, Eq)]
pub struct InstallCmd {
    /// Program name. Always a literal from this file, never repo-derived text.
    pub tool: String,
    /// Full argv, executed directly. No shell is involved.
    pub argv: Vec<String>,
    /// Display label.
    pub label: String,
}

/// What an install command says.
#[verifier::ext_equal]
pub struct InstallView {
    pub tool: Seq<char>,
    pub argv: Seq<Seq<char>>,
    pub label: Seq<char>,
}

impl View for InstallCmd {
    type V = InstallView;

    open spec fn view(&self) -> InstallView {
        InstallView { tool: self.tool@, argv: texts(self.argv@), label: self.label@ }
    }
}

impl Clone for InstallCmd {
    fn clone(&self) -> (r: Self)
        ensures
            r@ == self@,
    {
        InstallCmd {
            tool: self.tool.clone(),
            argv: copy_list(&self.argv),
            label: self.label.clone(),
        }
    }
}

/// What some install commands say.
pub open spec fn installs_view(v: Seq<InstallCmd>) -> Seq<InstallView> {
    Seq::new(v.len(), |i: int| v[i]@)
}

/// The install command with these words.
pub open spec fn command(words: Seq<Seq<char>>) -> InstallView {
    InstallView { tool: words[0], argv: words, label: join(words, " "@) }
}

fn cmd(words: &[&str]) -> (r: InstallCmd)
    requires
        words@.len() > 0,
    ensures
        r@ == command(slices(words@)),
{
    let argv = owned(words);
    assert(texts(argv@)[0] == words@[0]@);
    let tool = words[0].to_owned();
    let label = join_with(&argv, " ");
    InstallCmd { tool, argv, label }
}

/// The Node package managers that can be invoked.
#[derive(Debug, Clone, Copy, PartialEq, Eq, Structural)]
pub enum InstallKind {
    Pnpm,
    Bun,
    Yarn,
    Npm,
}

impl InstallKind {
    pub open spec fn text(self) -> Seq<char> {
        match self {
            InstallKind::Pnpm => "pnpm"@,
            InstallKind::Bun => "bun"@,
            InstallKind::Yarn => "yarn"@,
            InstallKind::Npm => "npm"@,
        }
    }

    pub fn command(self) -> (r: InstallCmd)
        ensures
            r@ == command(seq![self.text(), "install"@]),
    {
        match self {
            InstallKind::Pnpm => two("pnpm", "install"),
            InstallKind::Bun => two("bun", "install"),
            InstallKind::Yarn => two("yarn", "install"),
            InstallKind::Npm => two("npm", "install"),
        }
    }
}

fn two(tool: &str, arg: &str) -> (r: InstallCmd)
    ensures
        r@ == command(seq![tool@, arg@]),
{
    let words = [tool, arg];
    assert(slices(words@) =~= seq![tool@, arg@]);
    cmd(&words)
}

/// The package manager of a name.
pub open spec fn manager_named(name: Seq<char>) -> Option<InstallKind> {
    if name == "pnpm"@ {
        Some(InstallKind::Pnpm)
    } else if name == "bun"@ {
        Some(InstallKind::Bun)
    } else if name == "yarn"@ {
        Some(InstallKind::Yarn)
    } else if name == "npm"@ {
        Some(InstallKind::Npm)
    } else {
        None
    }
}

/// The package manager that a `packageManager` value names: what stands before
/// its first `@`, without white space around it.
pub open spec fn manager_in(field: Seq<char>) -> Option<InstallKind> {
    manager_named(trimmed(split(field, '@')[0]))
}

/// The package manager that a `packageManager` value names. A value that names
/// none of those that are known selects nothing: it never becomes a command.
pub fn manager_of(field: &str) -> (r: Option<InstallKind>)
    ensures
        r == manager_in(field@),
{
    let parts = split_at_char(field, '@');
    proof {
        lemma_split_len(field@, '@');
        assert(texts(parts@)[0] == parts@[0]@);
    }
    let trimmed_name = trim(parts[0].as_str());
    let name = trimmed_name.as_str();
    if same(name, "pnpm") {
        Some(InstallKind::Pnpm)
    } else if same(name, "bun") {
        Some(InstallKind::Bun)
    } else if same(name, "yarn") {
        Some(InstallKind::Yarn)
    } else if same(name, "npm") {
        Some(InstallKind::Npm)
    } else {
        None
    }
}

/// The package manager that a `package.json` declares.
pub open spec fn declared(package_json: Option<Seq<char>>) -> Option<InstallKind> {
    match package_json {
        Some(raw) => match json_text(raw, "/packageManager"@) {
            Some(field) => manager_in(field),
            None => None,
        },
        None => None,
    }
}

/// The package manager that a `package.json` declares, if its text could be
/// read.
pub fn declared_node_manager(package_json: Option<&str>) -> (r: Option<InstallKind>)
    ensures
        r == declared(slice_text(package_json)),
{
    match package_json {
        Some(raw) => match text_at(raw, "/packageManager") {
            Some(field) => manager_of(field.as_str()),
            None => None,
        },
        None => None,
    }
}

/// The package manager that a lockfile stands for.
pub open spec fn locked(files: Seq<Seq<char>>) -> Option<InstallKind> {
    if files.contains("pnpm-lock.yaml"@) {
        Some(InstallKind::Pnpm)
    } else if files.contains("bun.lock"@) || files.contains("bun.lockb"@) {
        Some(InstallKind::Bun)
    } else if files.contains("yarn.lock"@) {
        Some(InstallKind::Yarn)
    } else if files.contains("package-lock.json"@) || files.contains("npm-shrinkwrap.json"@) {
        Some(InstallKind::Npm)
    } else {
        None
    }
}

/// The package manager for a checkout with these files: the declared one, else
/// the one of its lockfile.
pub open spec fn node_manager(files: Seq<Seq<char>>, manager: Option<InstallKind>) -> Option<
    InstallKind,
> {
    if !files.contains("package.json"@) {
        None
    } else if manager is Some {
        manager
    } else {
        locked(files)
    }
}

fn node_install(files: &Vec<String>, manager: Option<InstallKind>) -> (r: Option<InstallKind>)
    ensures
        r == node_manager(texts(files@), manager),
{
    if !holds(files, "package.json") {
        return None;
    }
    if manager.is_some() {
        return manager;
    }
    if holds(files, "pnpm-lock.yaml") {
        Some(InstallKind::Pnpm)
    } else if holds(files, "bun.lock") || holds(files, "bun.lockb") {
        Some(InstallKind::Bun)
    } else if holds(files, "yarn.lock") {
        Some(InstallKind::Yarn)
    } else if holds(files, "package-lock.json") || holds(files, "npm-shrinkwrap.json") {
        Some(InstallKind::Npm)
    } else {
        None
    }
}

/// The command with these words, where it is called for.
pub open spec fn when(cond: bool, words: Seq<Seq<char>>) -> Seq<InstallView> {
    if cond {
        seq![command(words)]
    } else {
        Seq::empty()
    }
}

/// The install command for Node, if the checkout has a `package.json`.
pub open spec fn node_part(files: Seq<Seq<char>>, manager: Option<InstallKind>) -> Seq<
    InstallView,
> {
    let kind = match node_manager(files, manager) {
        Some(k) => k,
        None => InstallKind::Npm,
    };
    when(files.contains("package.json"@), seq![kind.text(), "install"@])
}

/// The install command for Python: of the first lockfile that there is.
pub open spec fn python_part(files: Seq<Seq<char>>) -> Seq<InstallView> {
    if files.contains("uv.lock"@) {
        seq![command(seq!["uv"@, "sync"@])]
    } else if files.contains("poetry.lock"@) {
        seq![command(seq!["poetry"@, "install"@])]
    } else {
        when(files.contains("Pipfile.lock"@), seq!["pipenv"@, "install"@])
    }
}

/// The install commands for a checkout with these files, whose `package.json`
/// declares this package manager: one for each ecosystem.
pub open spec fn installs(files: Seq<Seq<char>>, manager: Option<InstallKind>) -> Seq<InstallView> {
    node_part(files, manager) + python_part(files)
        + when(files.contains("Gemfile.lock"@), seq!["bundle"@, "install"@])
        + when(files.contains("go.sum"@), seq!["go"@, "mod"@, "download"@])
        + when(files.contains("mix.lock"@), seq!["mix"@, "deps.get"@])
        + when(files.contains("composer.lock"@), seq!["composer"@, "install"@])
        + when(files.contains("Cargo.lock"@), seq!["cargo"@, "fetch"@])
}

fn push_cmd(out: &mut Vec<InstallCmd>, c: InstallCmd)
    ensures
        installs_view(final(out)@) == installs_view(old(out)@) + seq![c@],
{
    let ghost before = out@;
    out.push(c);
    assert(installs_view(out@) =~= installs_view(before) + seq![c@]);
}

fn push_when(out: &mut Vec<InstallCmd>, cond: bool, tool: &str, arg: &str)
    ensures
        installs_view(final(out)@) == installs_view(old(out)@) + when(cond, seq![tool@, arg@]),
{
    assert(installs_view(out@) + Seq::<InstallView>::empty() =~= installs_view(out@));
    if cond {
        push_cmd(out, two(tool, arg));
    }
}

/// The install commands for a checkout, given the files at its root and the
/// package manager that its `package.json` declares.
pub fn installs_for(files: &Vec<String>, manager: Option<InstallKind>) -> (r: Vec<InstallCmd>)
    ensures
        installs_view(r@) == installs(texts(files@), manager),
{
    let mut out: Vec<InstallCmd> = Vec::new();
    assert(installs_view(out@) =~= Seq::<InstallView>::empty());
    if holds(files, "package.json") {
        let kind = match node_install(files, manager) {
            Some(k) => k,
            None => InstallKind::Npm,
        };
        push_cmd(&mut out, kind.command());
    }
    assert(installs_view(out@) =~= node_part(texts(files@), manager));
    if holds(files, "uv.lock") {
        push_cmd(&mut out, two("uv", "sync"));
    } else if holds(files, "poetry.lock") {
        push_cmd(&mut out, two("poetry", "install"));
    } else {
        push_when(&mut out, holds(files, "Pipfile.lock"), "pipenv", "install");
    }
    push_when(&mut out, holds(files, "Gemfile.lock"), "bundle", "install");
    let ghost so_far = installs_view(out@);
    assert(so_far + Seq::<InstallView>::empty() =~= so_far);
    if holds(files, "go.sum") {
        let words = ["go", "mod", "download"];
        assert(slices(words@) =~= seq!["go"@, "mod"@, "download"@]);
        push_cmd(&mut out, cmd(&words));
    }
    push_when(&mut out, holds(files, "mix.lock"), "mix", "deps.get");
    push_when(&mut out, holds(files, "composer.lock"), "composer", "install");
    push_when(&mut out, holds(files, "Cargo.lock"), "cargo", "fetch");
    out
}

/// One install command per ecosystem present at the checkout root: `files` are
/// the files there, `package_json` is the text of the one of that name, if it
/// could be read.
pub fn detect_installs(files: &Vec<String>, package_json: Option<&str>) -> (r: Vec<InstallCmd>)
    ensures
        installs_view(r@) == installs(texts(files@), declared(slice_text(package_json))),
{
    installs_for(files, declared_node_manager(package_json))
}

/// The mise config files that a checkout may have.
pub open spec fn mise_files() -> Seq<Seq<char>> {
    seq![
        ".mise.toml"@,
        "mise.toml"@,
        ".mise.local.toml"@,
        "mise.local.toml"@,
        ".mise/config.toml"@,
        "mise/config.toml"@,
        ".config/mise.toml"@,
        ".config/mise/config.toml"@,
        ".tool-versions"@,
    ]
}

/// The paths of those of some files that a checkout has.
pub open spec fn paths_present(
    target: Seq<char>,
    wanted: Seq<Seq<char>>,
    files: Seq<Seq<char>>,
) -> Seq<Seq<char>>
    decreases wanted.len(),
{
    if wanted.len() == 0 {
        Seq::empty()
    } else {
        let r = paths_present(target, wanted.drop_last(), files);
        if files.contains(wanted.last()) {
            r.push(joined(target, wanted.last()))
        } else {
            r
        }
    }
}

fn mise_file_list() -> (r: Vec<String>)
    ensures
        texts(r@) == mise_files(),
{
    let v = [
        ".mise.toml",
        "mise.toml",
        ".mise.local.toml",
        "mise.local.toml",
        ".mise/config.toml",
        "mise/config.toml",
        ".config/mise.toml",
        ".config/mise/config.toml",
        ".tool-versions",
    ];
    assert(slices(v@) =~= mise_files());
    owned(&v)
}

/// The paths of the mise config files of a checkout, given the files that it
/// has.
pub fn mise_config_files(target: &str, files: &Vec<String>) -> (r: Vec<String>)
    ensures
        texts(r@) == paths_present(target@, mise_files(), texts(files@)),
{
    broadcast use lemma_texts_push;

    let wanted = mise_file_list();
    let ghost all = mise_files();
    let mut out: Vec<String> = Vec::new();
    let mut i: usize = 0;
    assert(all.take(0) =~= Seq::empty());
    assert(texts(out@) =~= paths_present(target@, all.take(0), texts(files@)));
    while i < wanted.len()
        invariant
            i <= wanted.len(),
            texts(wanted@) == all,
            texts(out@) == paths_present(target@, all.take(i as int), texts(files@)),
        decreases wanted.len() - i,
    {
        assert(all.take(i + 1).drop_last() =~= all.take(i as int));
        assert(all.take(i + 1).last() == wanted@[i as int]@);
        if holds(files, wanted[i].as_str()) {
            out.push(join_path(target, wanted[i].as_str()));
        }
        i += 1;
    }
    assert(all.take(i as int) =~= all);
    out
}

/// Whether a checkout with these files has an `.envrc`.
pub fn has_envrc(files: &Vec<String>) -> (r: bool)
    ensures
        r == texts(files@).contains(".envrc"@),
{
    holds(files, ".envrc")
}

/// The files on which the detection depends.
pub open spec fn watched_files() -> Seq<Seq<char>> {
    seq![
        "package.json"@,
        "pnpm-lock.yaml"@,
        "bun.lock"@,
        "bun.lockb"@,
        "yarn.lock"@,
        "package-lock.json"@,
        "npm-shrinkwrap.json"@,
        "uv.lock"@,
        "poetry.lock"@,
        "Pipfile.lock"@,
        "Gemfile.lock"@,
        "go.sum"@,
        "mix.lock"@,
        "composer.lock"@,
        "Cargo.lock"@,
        ".envrc"@,
    ] + mise_files()
}

/// The files to look for at the root of a checkout.
pub fn files_to_probe() -> (r: Vec<String>)
    ensures
        texts(r@) == watched_files(),
{
    let v = [
        "package.json",
        "pnpm-lock.yaml",
        "bun.lock",
        "bun.lockb",
        "yarn.lock",
        "package-lock.json",
        "npm-shrinkwrap.json",
        "uv.lock",
        "poetry.lock",
        "Pipfile.lock",
        "Gemfile.lock",
        "go.sum",
        "mix.lock",
        "composer.lock",
        "Cargo.lock",
        ".envrc",
    ];
    let mut out = owned(&v);
    let mut more = mise_file_list();
    let ghost a = out@;
    let ghost b = more@;
    out.append(&mut more);
    assert(texts(out@) =~= texts(a) + texts(b));
    assert(texts(out@) =~= watched_files());
    out
}

/// The commands that can ever be installed with.
pub open spec fn allowlist() -> Seq<InstallView> {
    seq![
        command(seq!["pnpm"@, "install"@]),
        command(seq!["bun"@, "install"@]),
        command(seq!["yarn"@, "install"@]),
        command(seq!["npm"@, "install"@]),
        command(seq!["uv"@, "sync"@]),
        command(seq!["poetry"@, "install"@]),
        command(seq!["pipenv"@, "install"@]),
        command(seq!["bundle"@, "install"@]),
        command(seq!["go"@, "mod"@, "download"@]),
        command(seq!["mix"@, "deps.get"@]),
        command(seq!["composer"@, "install"@]),
        command(seq!["cargo"@, "fetch"@]),
    ]
}

/// Whether some commands are all among the fixed ones.
pub open spec fn all_literal(s: Seq<InstallView>) -> bool {
    forall|i: int| 0 <= i < s.len() ==> allowlist().contains(#[trigger] s[i])
}

proof fn lemma_sum_literal(a: Seq<InstallView>, b: Seq<InstallView>)
    requires
        all_literal(a),
        all_literal(b),
    ensures
        all_literal(a + b),
{
    assert forall|i: int| 0 <= i < (a + b).len() implies allowlist().contains(
        #[trigger] (a + b)[i],
    ) by {
        if i < a.len() {
            assert((a + b)[i] == a[i]);
        } else {
            assert((a + b)[i] == b[i - a.len()]);
        }
    }
}

proof fn lemma_when_literal(cond: bool, words: Seq<Seq<char>>, k: int)
    requires
        0 <= k < allowlist().len(),
        allowlist()[k] == command(words),
    ensures
        all_literal(when(cond, words)),
        all_literal(seq![command(words)]),
{
    assert(allowlist().contains(command(words)));
}

/// Whatever files a branch carries and whatever its `package.json` declares, an
/// install command is one of a fixed few: no text of the branch is in it.
pub proof fn law_installs_are_literal(files: Seq<Seq<char>>, manager: Option<InstallKind>)
    ensures
        all_literal(installs(files, manager)),
{
    let kind = match node_manager(files, manager) {
        Some(k) => k,
        None => InstallKind::Npm,
    };
    let node = files.contains("package.json"@);
    match kind {
        InstallKind::Pnpm => lemma_when_literal(node, seq!["pnpm"@, "install"@], 0),
        InstallKind::Bun => lemma_when_literal(node, seq!["bun"@, "install"@], 1),
        InstallKind::Yarn => lemma_when_literal(node, seq!["yarn"@, "install"@], 2),
        InstallKind::Npm => lemma_when_literal(node, seq!["npm"@, "install"@], 3),
    }
    lemma_when_literal(true, seq!["uv"@, "sync"@], 4);
    lemma_when_literal(true, seq!["poetry"@, "install"@], 5);
    lemma_when_literal(files.contains("Pipfile.lock"@), seq!["pipenv"@, "install"@], 6);
    let a = node_part(files, manager);
    let b = python_part(files);
    let c = when(files.contains("Gemfile.lock"@), seq!["bundle"@, "install"@]);
    let d = when(files.contains("go.sum"@), seq!["go"@, "mod"@, "download"@]);
    let e = when(files.contains("mix.lock"@), seq!["mix"@, "deps.get"@]);
    let f = when(files.contains("composer.lock"@), seq!["composer"@, "install"@]);
    let g = when(files.contains("Cargo.lock"@), seq!["cargo"@, "fetch"@]);
    lemma_when_literal(files.contains("Gemfile.lock"@), seq!["bundle"@, "install"@], 7);
    lemma_when_literal(files.contains("go.sum"@), seq!["go"@, "mod"@, "download"@], 8);
    lemma_when_literal(files.contains("mix.lock"@), seq!["mix"@, "deps.get"@], 9);
    lemma_when_literal(files.contains("composer.lock"@), seq!["composer"@, "install"@], 10);
    lemma_when_literal(files.contains("Cargo.lock"@), seq!["cargo"@, "fetch"@], 11);
    lemma_sum_literal(a, b);
    lemma_sum_literal(a + b, c);
    lemma_sum_literal(a + b + c, d);
    lemma_sum_literal(a + b + c + d, e);
    lemma_sum_literal(a + b + c + d + e, f);
    lemma_sum_literal(a + b + c + d + e + f, g);
}

/// Whether a name is that of a mise config file.
pub open spec fn configures_mise(name: Seq<char>) -> bool {
    ||| name == ".mise.toml"@
    ||| name == "mise.toml"@
    ||| name == ".mise.local.toml"@
    ||| name == "mise.local.toml"@
    ||| name == ".mise/config.toml"@
    ||| name == "mise/config.toml"@
    ||| name == ".config/mise.toml"@
    ||| name == ".config/mise/config.toml"@
    ||| name == ".tool-versions"@
}

/// Whether a checkout with these files has a mise config file.
pub open spec fn configured_for_mise(files: Seq<Seq<char>>) -> bool {
    exists|name: Seq<char>| configures_mise(name) && #[trigger] files.contains(name)
}

proof fn lemma_mise_names(name: Seq<char>)
    ensures
        mise_files().contains(name) <==> configures_mise(name),
{
    let all = mise_files();
    assert(all[0] == ".mise.toml"@);
    assert(all[1] == "mise.toml"@);
    assert(all[2] == ".mise.local.toml"@);
    assert(all[3] == "mise.local.toml"@);
    assert(all[4] == ".mise/config.toml"@);
    assert(all[5] == "mise/config.toml"@);
    assert(all[6] == ".config/mise.toml"@);
    assert(all[7] == ".config/mise/config.toml"@);
    assert(all[8] == ".tool-versions"@);
}

proof fn lemma_present(target: Seq<char>, wanted: Seq<Seq<char>>, files: Seq<Seq<char>>, p: Seq<char>)
    ensures
        paths_present(target, wanted, files).contains(p) <==> exists|i: int|
            0 <= i < wanted.len() && files.contains(#[trigger] wanted[i]) && p == joined(
                target,
                wanted[i],
            ),
    decreases wanted.len(),
{
    let r = paths_present(target, wanted, files);
    if wanted.len() > 0 {
        let front = wanted.drop_last();
        let a = paths_present(target, front, files);
        lemma_present(target, front, files, p);
        if a.contains(p) {
            let i = choose|i: int|
                0 <= i < front.len() && files.contains(#[trigger] front[i]) && p == joined(
                    target,
                    front[i],
                );
            assert(wanted[i] == front[i]);
            let k = choose|k: int| 0 <= k < a.len() && a[k] == p;
            assert(r[k] == p);
        }
        if files.contains(wanted.last()) {
            assert(r[r.len() - 1] == joined(target, wanted.last()));
            assert(wanted[wanted.len() - 1] == wanted.last());
        }
        if r.contains(p) && !a.contains(p) {
            assert(files.contains(wanted[wanted.len() - 1]));
        }
        if exists|i: int|
            0 <= i < wanted.len() && files.contains(#[trigger] wanted[i]) && p == joined(
                target,
                wanted[i],
            ) {
            let i = choose|i: int|
                0 <= i < wanted.len() && files.contains(#[trigger] wanted[i]) && p == joined(
                    target,
                    wanted[i],
                );
            if i < front.len() {
                assert(front[i] == wanted[i]);
            }
        }
    }
}

/// The mise config files of a checkout are all files of those names that it has,
/// by their paths in it.
pub proof fn law_mise_files_are_found(target: Seq<char>, files: Seq<Seq<char>>, p: Seq<char>)
    requires
        target.len() > 0,
        target.last() != '/',
    ensures
        paths_present(target, mise_files(), files).contains(p) <==> exists|name: Seq<char>|
            configures_mise(name) && #[trigger] files.contains(name) && p == target + seq!['/']
                + name,
{
    let found = paths_present(target, mise_files(), files);
    let all = mise_files();
    lemma_present(target, all, files, p);
    assert forall|name: Seq<char>| #[trigger] configures_mise(name) implies joined(target, name)
        == target + seq!['/'] + name by {
        lemma_mise_names(name);
        lemma_relative_names(name);
        law_joined(target, name);
    }
    if found.contains(p) {
        let i = choose|i: int|
            0 <= i < all.len() && files.contains(#[trigger] all[i]) && p == joined(target, all[i]);
        lemma_mise_names(all[i]);
        assert(configures_mise(all[i]) && files.contains(all[i]));
    }
    if exists|name: Seq<char>|
        configures_mise(name) && #[trigger] files.contains(name) && p == target + seq!['/'] + name {
        let name = choose|name: Seq<char>|
            configures_mise(name) && #[trigger] files.contains(name) && p == target + seq!['/']
                + name;
        lemma_mise_names(name);
        let i = choose|i: int| 0 <= i < all.len() && all[i] == name;
        assert(files.contains(all[i]));
    }
}

/// There is a mise config file to be trusted if and only if the checkout has one,
/// wherever it lies.
pub proof fn law_mise_is_configured_by_any_file(target: Seq<char>, files: Seq<Seq<char>>)
    ensures
        paths_present(target, mise_files(), files).len() > 0 <==> configured_for_mise(files),
{
    let found = paths_present(target, mise_files(), files);
    let all = mise_files();
    if found.len() > 0 {
        assert(found.contains(found[0]));
        lemma_present(target, all, files, found[0]);
        let i = choose|i: int|
            0 <= i < all.len() && files.contains(#[trigger] all[i]) && found[0] == joined(
                target,
                all[i],
            );
        lemma_mise_names(all[i]);
        assert(configures_mise(all[i]) && files.contains(all[i]));
    }
    if configured_for_mise(files) {
        let name = choose|name: Seq<char>| configures_mise(name) && #[trigger] files.contains(name);
        lemma_mise_names(name);
        let i = choose|i: int| 0 <= i < all.len() && all[i] == name;
        lemma_present(target, all, files, joined(target, name));
        assert(files.contains(all[i]));
        assert(found.contains(joined(target, name)));
    }
}

proof fn lemma_relative_names(name: Seq<char>)
    requires
        configures_mise(name),
    ensures
        name.len() > 0,
        name[0] != '/',
{
    reveal_strlit(".mise.toml");
    reveal_strlit("mise.toml");
    reveal_strlit(".mise.local.toml");
    reveal_strlit("mise.local.toml");
    reveal_strlit(".mise/config.toml");
    reveal_strlit("mise/config.toml");
    reveal_strlit(".config/mise.toml");
    reveal_strlit(".config/mise/config.toml");
    reveal_strlit(".tool-versions");
}

/// Whether an install command runs these words and is shown as them.
pub open spec fn runs(x: InstallView, words: Seq<Seq<char>>) -> bool {
    x.tool == words[0] && x.argv == words && x.label == join(words, seq![' '])
}

/// Whether a checkout has a lockfile of pnpm or bun.
pub open spec fn locked_by_pnpm_or_bun(files: Seq<Seq<char>>) -> bool {
    files.contains("pnpm-lock.yaml"@) || files.contains("bun.lock"@) || files.contains(
        "bun.lockb"@,
    )
}

/// Which commands install what a checkout needs. A `package.json` calls for the
/// package manager that it declares, else for that of the lockfile, where pnpm
/// goes before bun, bun before yarn and yarn before npm, which it also falls back
/// to. Python goes by the first of its lockfiles, each other ecosystem by its own.
pub proof fn law_installs_by_ecosystem(
    files: Seq<Seq<char>>,
    manager: Option<InstallKind>,
    x: InstallView,
)
    ensures
        installs(files, manager).contains(x) <==> {
            ||| files.contains("package.json"@) && runs(x, seq!["pnpm"@, "install"@]) && (manager
                == Some(InstallKind::Pnpm) || manager is None && files.contains("pnpm-lock.yaml"@))
            ||| files.contains("package.json"@) && runs(x, seq!["bun"@, "install"@]) && (manager
                == Some(InstallKind::Bun) || manager is None && !files.contains("pnpm-lock.yaml"@)
                && locked_by_pnpm_or_bun(files))
            ||| files.contains("package.json"@) && runs(x, seq!["yarn"@, "install"@]) && (manager
                == Some(InstallKind::Yarn) || manager is None && !locked_by_pnpm_or_bun(files)
                && files.contains("yarn.lock"@))
            ||| files.contains("package.json"@) && runs(x, seq!["npm"@, "install"@]) && (manager
                == Some(InstallKind::Npm) || manager is None && !locked_by_pnpm_or_bun(files)
                && !files.contains("yarn.lock"@))
            ||| files.contains("uv.lock"@) && runs(x, seq!["uv"@, "sync"@])
            ||| files.contains("poetry.lock"@) && !files.contains("uv.lock"@) && runs(
                x,
                seq!["poetry"@, "install"@],
            )
            ||| files.contains("Pipfile.lock"@) && !files.contains("uv.lock"@) && !files.contains(
                "poetry.lock"@,
            ) && runs(x, seq!["pipenv"@, "install"@])
            ||| files.contains("Gemfile.lock"@) && runs(x, seq!["bundle"@, "install"@])
            ||| files.contains("go.sum"@) && runs(x, seq!["go"@, "mod"@, "download"@])
            ||| files.contains("mix.lock"@) && runs(x, seq!["mix"@, "deps.get"@])
            ||| files.contains("composer.lock"@) && runs(x, seq!["composer"@, "install"@])
            ||| files.contains("Cargo.lock"@) && runs(x, seq!["cargo"@, "fetch"@])
        },
{
    let a = node_part(files, manager);
    let b = python_part(files);
    let c = when(files.contains("Gemfile.lock"@), seq!["bundle"@, "install"@]);
    let d = when(files.contains("go.sum"@), seq!["go"@, "mod"@, "download"@]);
    let e = when(files.contains("mix.lock"@), seq!["mix"@, "deps.get"@]);
    let f = when(files.contains("composer.lock"@), seq!["composer"@, "install"@]);
    let g = when(files.contains("Cargo.lock"@), seq!["cargo"@, "fetch"@]);
    lemma_in_sum(a, b, x);
    lemma_in_sum(a + b, c, x);
    lemma_in_sum(a + b + c, d, x);
    lemma_in_sum(a + b + c + d, e, x);
    lemma_in_sum(a + b + c + d + e, f, x);
    lemma_in_sum(a + b + c + d + e + f, g, x);
    reveal_strlit(" ");
    assert(" "@ =~= seq![' ']);
    lemma_one(true, seq!["uv"@, "sync"@], x);
    lemma_one(true, seq!["poetry"@, "install"@], x);
    lemma_one(files.contains("Pipfile.lock"@), seq!["pipenv"@, "install"@], x);
    lemma_one(files.contains("Gemfile.lock"@), seq!["bundle"@, "install"@], x);
    lemma_one(files.contains("go.sum"@), seq!["go"@, "mod"@, "download"@], x);
    lemma_one(files.contains("mix.lock"@), seq!["mix"@, "deps.get"@], x);
    lemma_one(files.contains("composer.lock"@), seq!["composer"@, "install"@], x);
    lemma_one(files.contains("Cargo.lock"@), seq!["cargo"@, "fetch"@], x);
    let node = files.contains("package.json"@);
    lemma_one(node, seq!["pnpm"@, "install"@], x);
    lemma_one(node, seq!["bun"@, "install"@], x);
    lemma_one(node, seq!["yarn"@, "install"@], x);
    lemma_one(node, seq!["npm"@, "install"@], x);
}

proof fn lemma_in_sum(a: Seq<InstallView>, b: Seq<InstallView>, x: InstallView)
    ensures
        (a + b).contains(x) <==> a.contains(x) || b.contains(x),
{
    let r = a + b;
    if a.contains(x) {
        let i = choose|i: int| 0 <= i < a.len() && a[i] == x;
        assert(r[i] == x);
    }
    if b.contains(x) {
        let i = choose|i: int| 0 <= i < b.len() && b[i] == x;
        assert(r[a.len() + i] == x);
    }
    if r.contains(x) {
        let i = choose|i: int| 0 <= i < r.len() && r[i] == x;
        if i < a.len() {
            assert(a[i] == x);
        } else {
            assert(b[i - a.len()] == x);
        }
    }
}

proof fn lemma_one(cond: bool, words: Seq<Seq<char>>, x: InstallView)
    ensures
        (when(cond, words)).contains(x) <==> cond && runs(x, words),
        seq![command(words)].contains(x) <==> runs(x, words),
{
    reveal_strlit(" ");
    assert(" "@ =~= seq![' ']);
    let one = seq![command(words)];
    assert(one[0] == command(words));
    if runs(x, words) {
        assert(x == command(words));
        assert(one.contains(x));
    }
}

/// No more than one command is run for an ecosystem: there are no more commands
/// than there are ecosystems that call for one.
pub proof fn law_one_install_per_ecosystem(files: Seq<Seq<char>>, manager: Option<InstallKind>)
    ensures
        ({
            let one = |b: bool|
                if b {
                    1nat
                } else {
                    0nat
                };
            installs(files, manager).len() == one(files.contains("package.json"@)) + one(
                files.contains("uv.lock"@) || files.contains("poetry.lock"@) || files.contains(
                    "Pipfile.lock"@,
                ),
            ) + one(files.contains("Gemfile.lock"@)) + one(files.contains("go.sum"@)) + one(
                files.contains("mix.lock"@),
            ) + one(files.contains("composer.lock"@)) + one(files.contains("Cargo.lock"@))
        }),
{
}

/// The package manager that a `packageManager` value names stands before its
/// first `@`, whatever the version behind it; a value that is none of the four
/// names selects nothing.
pub proof fn law_manager_stands_before_the_version(name: Seq<char>, version: Seq<char>)
    requires
        !name.contains('@'),
        name.len() > 0 ==> !is_space(name[0]) && !is_space(name.last()),
    ensures
        manager_in(name + seq!['@'] + version) == manager_in(name),
        manager_in(name) == Some(InstallKind::Pnpm) <==> name == "pnpm"@,
        manager_in(name) == Some(InstallKind::Bun) <==> name == "bun"@,
        manager_in(name) == Some(InstallKind::Yarn) <==> name == "yarn"@,
        manager_in(name) == Some(InstallKind::Npm) <==> name == "npm"@,
{
    lemma_split_whole(name, '@');
    lemma_split_first(name, '@', version);
    assert(trimmed(name) == name);
    reveal_strlit("pnpm");
    reveal_strlit("bun");
    reveal_strlit("yarn");
    reveal_strlit("npm");
    assert("pnpm"@.len() == 4 && "yarn"@.len() == 4 && "npm"@.len() == 3 && "bun"@.len() == 3);
    assert("pnpm"@[0] == 'p' && "yarn"@[0] == 'y' && "npm"@[0] == 'n' && "bun"@[0] == 'b');
}

proof fn lemma_split_first(first: Seq<char>, c: char, rest: Seq<char>)
    requires
        !first.contains(c),
    ensures
        split(first + seq![c] + rest, c).len() >= 2,
        split(first + seq![c] + rest, c)[0] == first,
    decreases rest.len(),
{
    let s = first + seq![c] + rest;
    if rest.len() == 0 {
        lemma_split_whole(first, c);
        assert(s.drop_last() =~= first);
    } else {
        lemma_split_first(first, c, rest.drop_last());
        assert(s.drop_last() =~= first + seq![c] + rest.drop_last());
    }
}

/// Every file on which the detection depends is looked for.
pub proof fn law_every_file_is_looked_for(name: Seq<char>)
    requires
        ({
            ||| configures_mise(name)
            ||| name == ".envrc"@ || name == "package.json"@ || name == "pnpm-lock.yaml"@
            ||| name == "bun.lock"@ || name == "bun.lockb"@ || name == "yarn.lock"@
            ||| name == "package-lock.json"@ || name == "npm-shrinkwrap.json"@
            ||| name == "uv.lock"@ || name == "poetry.lock"@ || name == "Pipfile.lock"@
            ||| name == "Gemfile.lock"@ || name == "go.sum"@ || name == "mix.lock"@
            ||| name == "composer.lock"@ || name == "Cargo.lock"@
        }),
    ensures
        watched_files().contains(name),
{
    let all = watched_files();
    if configures_mise(name) {
        lemma_mise_names(name);
        let i = choose|i: int| 0 <= i < mise_files().len() && mise_files()[i] == name;
        assert(all[16 + i] == name);
    } else {
        assert(all[0] == "package.json"@);
        assert(all[1] == "pnpm-lock.yaml"@);
        assert(all[2] == "bun.lock"@);
        assert(all[3] == "bun.lockb"@);
        assert(all[4] == "yarn.lock"@);
        assert(all[5] == "package-lock.json"@);
        assert(all[6] == "npm-shrinkwrap.json"@);
        assert(all[7] == "uv.lock"@);
        assert(all[8] == "poetry.lock"@);
        assert(all[9] == "Pipfile.lock"@);
        assert(all[10] == "Gemfile.lock"@);
        assert(all[11] == "go.sum"@);
        assert(all[12] == "mix.lock"@);
        assert(all[13] == "composer.lock"@);
        assert(all[14] == "Cargo.lock"@);
        assert(all[15] == ".envrc"@);
    }
}

/// A `package.json` declares the package manager that its `packageManager` names;
/// one that cannot be read, or that names none, declares none.
pub proof fn law_declared_manager(raw: Seq<char>, name: Seq<char>, version: Seq<char>)
    requires
        !name.contains('@'),
        name.len() > 0,
        !is_space(name[0]),
        !is_space(name.last()),
        json_text(raw, "/packageManager"@) == Some(name + seq!['@'] + version) || json_text(
            raw,
            "/packageManager"@,
        ) == Some(name),
    ensures
        declared(Some(raw)) == Some(InstallKind::Pnpm) <==> name == "pnpm"@,
        declared(Some(raw)) == Some(InstallKind::Bun) <==> name == "bun"@,
        declared(Some(raw)) == Some(InstallKind::Yarn) <==> name == "yarn"@,
        declared(Some(raw)) == Some(InstallKind::Npm) <==> name == "npm"@,
        declared(None) is None,
{
    law_manager_stands_before_the_version(name, version);
}

} // verus!
