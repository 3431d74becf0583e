//! Layered configuration: built-in defaults, then the user's file, then the two
//! files of the repository, which may only restrict what the user allows.

use vstd::prelude::*;
use vstd::string::*;
use crate::envmap::{
    law_lookup_after_put, lemma_lookup_last, lookup, ordered, put_all, EnvMap, Pair,
};
use crate::order::text_before;
use crate::paths::{join_path, joined};
use crate::text::{
    all_word, among, capital, capitals, copy_option, glue, glue3, holds, in_capitals, is_letter, is_word,
    lemma_texts_push, letter, chars_of, option_text, owned, slices, starts, starts_with, texts,
};

verus! {

/// Where the setup pane goes.
#[derive(Debug, Clone, Copy, PartialEq, Eq, Structural)]
pub enum Placement {
    Split,
    Tab,
    Overlay,
    Zoomed,
}

impl Placement {
    pub open spec fn text(self) -> Seq<char> {
        match self {
            Placement::Split => "split"@,
            Placement::Tab => "tab"@,
            Placement::Overlay => "overlay"@,
            Placement::Zoomed => "zoomed"@,
        }
    }

    pub fn as_str(self) -> (r: &'static str)
        ensures
            r@ == self.text(),
    {
        match self {
            Placement::Split => "split",
            Placement::Tab => "tab",
            Placement::Overlay => "overlay",
            Placement::Zoomed => "zoomed",
        }
    }
}

/// Which way a split goes.
#[derive(Debug, Clone, Copy, PartialEq, Eq, Structural)]
pub enum Direction {
    Down,
    Right,
}

impl Direction {
    pub open spec fn text(self) -> Seq<char> {
        match self {
            Direction::Down => "down"@,
            Direction::Right => "right"@,
        }
    }

    pub fn as_str(self) -> (r: &'static str)
        ensures
            r@ == self.text(),
    {
        match self {
            Direction::Down => "down",
            Direction::Right => "right",
        }
    }
}

#[derive(Debug, Clone, Copy, PartialEq, Eq, Structural)]
pub enum CloneMode {
    /// Try clonefile / reflink first, fall back to a byte copy (size-capped).
    Reflink,
    /// Always byte-copy (size-capped).
    Copy,
}

/// Which file a setting came from.
#[derive(Debug, Clone, Copy, PartialEq, Eq, Structural)]
pub enum Origin {
    Default,
    User,
    Repo,
    RepoLocal,
}

impl Default for Origin {
    fn default() -> (r: Self)
        ensures
            r == Origin::Default,
    {
        Origin::Default
    }
}

impl Origin {
    pub open spec fn text(self) -> Seq<char> {
        match self {
            Origin::Default => "defaults"@,
            Origin::User => "user config"@,
            Origin::Repo => ".herdr-worktree.toml"@,
            Origin::RepoLocal => ".herdr-worktree.local.toml"@,
        }
    }

    /// Whether the repository wrote the file.
    pub open spec fn repo(self) -> bool {
        self == Origin::Repo || self == Origin::RepoLocal
    }

    pub fn label(self) -> (r: &'static str)
        ensures
            r@ == self.text(),
    {
        match self {
            Origin::Default => "defaults",
            Origin::User => "user config",
            Origin::Repo => ".herdr-worktree.toml",
            Origin::RepoLocal => ".herdr-worktree.local.toml",
        }
    }

    pub fn is_repo(self) -> (r: bool)
        ensures
            r == self.repo(),
    {
        matches!(self, Origin::Repo | Origin::RepoLocal)
    }
}

/// A custom step.
#[derive(Debug)]
pub struct StepDef {
    pub name: String,
    pub run: String,
    /// Path (relative to the worktree) that must exist for the step to run.
    pub if_path: Option<String>,
    pub continue_on_error: bool,
    pub origin: Origin,
}

/// What a custom step says.
#[verifier::ext_equal]
pub struct StepDefView {
    pub name: Seq<char>,
    pub run: Seq<char>,
    pub if_path: Option<Seq<char>>,
    pub continue_on_error: bool,
    pub origin: Origin,
}

impl View for StepDef {
    type V = StepDefView;

    open spec fn view(&self) -> StepDefView {
        StepDefView {
            name: self.name@,
            run: self.run@,
            if_path: option_text(self.if_path),
            continue_on_error: self.continue_on_error,
            origin: self.origin,
        }
    }
}

impl Clone for StepDef {
    fn clone(&self) -> (r: Self)
        ensures
            r@ == self@,
    {
        StepDef {
            name: self.name.clone(),
            run: self.run.clone(),
            if_path: copy_option(&self.if_path),
            continue_on_error: self.continue_on_error,
            origin: self.origin,
        }
    }
}

/// What a list of custom steps says.
pub open spec fn steps_view(v: Seq<StepDef>) -> Seq<StepDefView> {
    Seq::new(v.len(), |i: int| v[i]@)
}

/// One config file, every field optional.
#[derive(Debug)]
pub struct ConfigLayer {
    pub auto_close_secs: Option<u64>,
    pub focus: Option<bool>,
    pub placement: Option<Placement>,
    pub direction: Option<Direction>,
    pub install: Option<bool>,
    pub mode: Option<CloneMode>,
    pub copy_size_cap_mb: Option<u64>,
    pub total_size_cap_mb: Option<u64>,
    pub color: Option<bool>,
    pub mise_trust: Option<bool>,
    pub direnv_allow: Option<bool>,
    pub use_mise: Option<bool>,
    pub use_direnv: Option<bool>,
    pub trust_repo_steps: Option<bool>,
    pub step_timeout_secs: Option<u64>,
    pub copy: Vec<String>,
    pub clone: Vec<String>,
    pub symlink: Vec<String>,
    pub exclude: Vec<String>,
    pub env: EnvMap,
    pub steps: Vec<StepDef>,
}

/// What a config file says.
#[verifier::ext_equal]
pub struct LayerView {
    pub auto_close_secs: Option<u64>,
    pub focus: Option<bool>,
    pub placement: Option<Placement>,
    pub direction: Option<Direction>,
    pub install: Option<bool>,
    pub mode: Option<CloneMode>,
    pub copy_size_cap_mb: Option<u64>,
    pub total_size_cap_mb: Option<u64>,
    pub color: Option<bool>,
    pub mise_trust: Option<bool>,
    pub direnv_allow: Option<bool>,
    pub use_mise: Option<bool>,
    pub use_direnv: Option<bool>,
    pub trust_repo_steps: Option<bool>,
    pub step_timeout_secs: Option<u64>,
    pub copy: Seq<Seq<char>>,
    pub clone: Seq<Seq<char>>,
    pub symlink: Seq<Seq<char>>,
    pub exclude: Seq<Seq<char>>,
    pub env: Seq<Pair>,
    pub steps: Seq<StepDefView>,
}

impl View for ConfigLayer {
    type V = LayerView;

    open spec fn view(&self) -> LayerView {
        LayerView {
            auto_close_secs: self.auto_close_secs,
            focus: self.focus,
            placement: self.placement,
            direction: self.direction,
            install: self.install,
            mode: self.mode,
            copy_size_cap_mb: self.copy_size_cap_mb,
            total_size_cap_mb: self.total_size_cap_mb,
            color: self.color,
            mise_trust: self.mise_trust,
            direnv_allow: self.direnv_allow,
            use_mise: self.use_mise,
            use_direnv: self.use_direnv,
            trust_repo_steps: self.trust_repo_steps,
            step_timeout_secs: self.step_timeout_secs,
            copy: texts(self.copy@),
            clone: texts(self.clone@),
            symlink: texts(self.symlink@),
            exclude: texts(self.exclude@),
            env: self.env@,
            steps: steps_view(self.steps@),
        }
    }
}

/// A config file that says nothing.
pub open spec fn empty_layer() -> LayerView {
    LayerView {
        auto_close_secs: None,
        focus: None,
        placement: None,
        direction: None,
        install: None,
        mode: None,
        copy_size_cap_mb: None,
        total_size_cap_mb: None,
        color: None,
        mise_trust: None,
        direnv_allow: None,
        use_mise: None,
        use_direnv: None,
        trust_repo_steps: None,
        step_timeout_secs: None,
        copy: Seq::empty(),
        clone: Seq::empty(),
        symlink: Seq::empty(),
        exclude: Seq::empty(),
        env: Seq::empty(),
        steps: Seq::empty(),
    }
}

impl Default for ConfigLayer {
    fn default() -> (r: Self)
        ensures
            r@ == empty_layer(),
    {
        let r = ConfigLayer {
            auto_close_secs: None,
            focus: None,
            placement: None,
            direction: None,
            install: None,
            mode: None,
            copy_size_cap_mb: None,
            total_size_cap_mb: None,
            color: None,
            mise_trust: None,
            direnv_allow: None,
            use_mise: None,
            use_direnv: None,
            trust_repo_steps: None,
            step_timeout_secs: None,
            copy: Vec::new(),
            clone: Vec::new(),
            symlink: Vec::new(),
            exclude: Vec::new(),
            env: EnvMap::new(),
            steps: Vec::new(),
        };
        assert(r@ =~= empty_layer());
        r
    }
}

/// Fully resolved configuration.
#[derive(Debug)]
pub struct Config {
    pub auto_close_secs: u64,
    pub focus: bool,
    pub placement: Placement,
    pub direction: Direction,
    pub install: bool,
    pub mode: CloneMode,
    pub copy_size_cap_mb: u64,
    pub total_size_cap_mb: u64,
    pub color: bool,
    pub mise_trust: bool,
    pub direnv_allow: bool,
    pub use_mise: bool,
    pub use_direnv: bool,
    pub trust_repo_steps: bool,
    pub step_timeout_secs: u64,
    pub copy: Vec<String>,
    pub clone: Vec<String>,
    pub symlink: Vec<String>,
    pub exclude: Vec<String>,
    pub env: EnvMap,
    pub steps: Vec<StepDef>,
    /// Config files that were actually read, in merge order.
    pub layers: Vec<(Origin, String)>,
    pub warnings: Vec<String>,
}

/// What a configuration says.
#[verifier::ext_equal]
pub struct ConfigView {
    pub auto_close_secs: u64,
    pub focus: bool,
    pub placement: Placement,
    pub direction: Direction,
    pub install: bool,
    pub mode: CloneMode,
    pub copy_size_cap_mb: u64,
    pub total_size_cap_mb: u64,
    pub color: bool,
    pub mise_trust: bool,
    pub direnv_allow: bool,
    pub use_mise: bool,
    pub use_direnv: bool,
    pub trust_repo_steps: bool,
    pub step_timeout_secs: u64,
    pub copy: Seq<Seq<char>>,
    pub clone: Seq<Seq<char>>,
    pub symlink: Seq<Seq<char>>,
    pub exclude: Seq<Seq<char>>,
    pub env: Seq<Pair>,
    pub steps: Seq<StepDefView>,
    pub layers: Seq<(Origin, Seq<char>)>,
    pub warnings: Seq<Seq<char>>,
}

/// The files of a configuration.
pub open spec fn layers_view(v: Seq<(Origin, String)>) -> Seq<(Origin, Seq<char>)> {
    Seq::new(v.len(), |i: int| (v[i].0, v[i].1@))
}

impl View for Config {
    type V = ConfigView;

    open spec fn view(&self) -> ConfigView {
        ConfigView {
            auto_close_secs: self.auto_close_secs,
            focus: self.focus,
            placement: self.placement,
            direction: self.direction,
            install: self.install,
            mode: self.mode,
            copy_size_cap_mb: self.copy_size_cap_mb,
            total_size_cap_mb: self.total_size_cap_mb,
            color: self.color,
            mise_trust: self.mise_trust,
            direnv_allow: self.direnv_allow,
            use_mise: self.use_mise,
            use_direnv: self.use_direnv,
            trust_repo_steps: self.trust_repo_steps,
            step_timeout_secs: self.step_timeout_secs,
            copy: texts(self.copy@),
            clone: texts(self.clone@),
            symlink: texts(self.symlink@),
            exclude: texts(self.exclude@),
            env: self.env@,
            steps: steps_view(self.steps@),
            layers: layers_view(self.layers@),
            warnings: texts(self.warnings@),
        }
    }
}

/// The small dev state that is copied. `*.local.json` takes in the local settings
/// that an editor or an assistant keeps in a directory of its own.
pub open spec fn default_copy() -> Seq<Seq<char>> {
    seq![
        ".env"@,
        ".env.*"@,
        ".envrc"@,
        ".envrc.local"@,
        ".dev.vars"@,
        ".flaskenv"@,
        ".mise.local.toml"@,
        "mise.local.toml"@,
        ".tool-versions"@,
        ".npmrc"@,
        "*.local.json"@,
        "*.local.toml"@,
        "*.local.yaml"@,
        "*.local.yml"@,
        "docker-compose.override.yml"@,
        "docker-compose.override.yaml"@,
        ".vercel/"@,
        ".wrangler/"@,
        ".vscode/"@,
        ".idea/"@,
        "local.properties"@,
        ".herdr-worktree.local.toml"@,
    ]
}

/// The dependency and build caches that are cloned.
pub open spec fn default_clone() -> Seq<Seq<char>> {
    seq![
        "node_modules/"@,
        ".venv/"@,
        "venv/"@,
        "target/"@,
        ".next/cache/"@,
        ".turbo/"@,
        ".cache/"@,
        ".parcel-cache/"@,
        ".yarn/cache/"@,
        ".gradle/"@,
        "vendor/bundle/"@,
        "vendor/"@,
        "_build/"@,
        "deps/"@,
        ".dart_tool/"@,
        "Pods/"@,
        ".build/"@,
        ".zig-cache/"@,
        ".mypy_cache/"@,
        ".ruff_cache/"@,
    ]
}

/// What is never copied.
pub open spec fn default_exclude() -> Seq<Seq<char>> {
    seq![
        ".git/"@,
        ".direnv/"@,
        ".turbo/daemon/"@,
        "dist/"@,
        "build/"@,
        "out/"@,
        "coverage/"@,
        "tmp/"@,
        ".next/"@,
        ".env.example"@,
        ".env.sample"@,
        ".env.template"@,
        ".env.dist"@,
        ".env.*.example"@,
        ".env.*.sample"@,
        "*.log"@,
        "*.pid"@,
        "*.sock"@,
        ".DS_Store"@,
    ]
}

fn default_copy_list() -> (r: Vec<String>)
    ensures
        texts(r@) == default_copy(),
{
    let v = [
        ".env",
        ".env.*",
        ".envrc",
        ".envrc.local",
        ".dev.vars",
        ".flaskenv",
        ".mise.local.toml",
        "mise.local.toml",
        ".tool-versions",
        ".npmrc",
        "*.local.json",
        "*.local.toml",
        "*.local.yaml",
        "*.local.yml",
        "docker-compose.override.yml",
        "docker-compose.override.yaml",
        ".vercel/",
        ".wrangler/",
        ".vscode/",
        ".idea/",
        "local.properties",
        ".herdr-worktree.local.toml",
    ];
    assert(slices(v@) =~= default_copy());
    owned(&v)
}

fn default_clone_list() -> (r: Vec<String>)
    ensures
        texts(r@) == default_clone(),
{
    let v = [
        "node_modules/",
        ".venv/",
        "venv/",
        "target/",
        ".next/cache/",
        ".turbo/",
        ".cache/",
        ".parcel-cache/",
        ".yarn/cache/",
        ".gradle/",
        "vendor/bundle/",
        "vendor/",
        "_build/",
        "deps/",
        ".dart_tool/",
        "Pods/",
        ".build/",
        ".zig-cache/",
        ".mypy_cache/",
        ".ruff_cache/",
    ];
    assert(slices(v@) =~= default_clone());
    owned(&v)
}

fn default_exclude_list() -> (r: Vec<String>)
    ensures
        texts(r@) == default_exclude(),
{
    let v = [
        ".git/",
        ".direnv/",
        ".turbo/daemon/",
        "dist/",
        "build/",
        "out/",
        "coverage/",
        "tmp/",
        ".next/",
        ".env.example",
        ".env.sample",
        ".env.template",
        ".env.dist",
        ".env.*.example",
        ".env.*.sample",
        "*.log",
        "*.pid",
        "*.sock",
        ".DS_Store",
    ];
    assert(slices(v@) =~= default_exclude());
    owned(&v)
}

/// The configuration that holds where no file says anything.
pub open spec fn default_config() -> ConfigView {
    ConfigView {
        auto_close_secs: 5,
        focus: true,
        placement: Placement::Split,
        direction: Direction::Down,
        install: true,
        mode: CloneMode::Reflink,
        copy_size_cap_mb: 2048,
        total_size_cap_mb: 8192,
        color: true,
        mise_trust: true,
        direnv_allow: true,
        use_mise: true,
        use_direnv: true,
        trust_repo_steps: true,
        step_timeout_secs: 1800,
        copy: default_copy(),
        clone: default_clone(),
        symlink: Seq::empty(),
        exclude: default_exclude(),
        env: Seq::empty(),
        steps: Seq::empty(),
        layers: Seq::empty(),
        warnings: Seq::empty(),
    }
}

impl Default for Config {
    fn default() -> (r: Self)
        ensures
            r@ == default_config(),
    {
        let r = Config {
            auto_close_secs: 5,
            focus: true,
            placement: Placement::Split,
            direction: Direction::Down,
            install: true,
            mode: CloneMode::Reflink,
            copy_size_cap_mb: 2048,
            total_size_cap_mb: 8192,
            color: true,
            mise_trust: true,
            direnv_allow: true,
            use_mise: true,
            use_direnv: true,
            trust_repo_steps: true,
            step_timeout_secs: 1800,
            copy: default_copy_list(),
            clone: default_clone_list(),
            symlink: Vec::new(),
            exclude: default_exclude_list(),
            env: EnvMap::new(),
            steps: Vec::new(),
            layers: Vec::new(),
            warnings: Vec::new(),
        };
        assert(r@ =~= default_config());
        r
    }
}

pub const USER_FILE: &'static str = "config.toml";

pub const REPO_FILE: &'static str = ".herdr-worktree.toml";

pub const REPO_LOCAL_FILE: &'static str = ".herdr-worktree.local.toml";

// --- what a repository may say -----------------------------------------------

/// Variables that decide which program runs, or put code into one that does.
pub open spec fn denied_names() -> Seq<Seq<char>> {
    seq![
        "PATH"@,
        "SHELL"@,
        "IFS"@,
        "HOME"@,
        "ENV"@,
        "BASH_ENV"@,
        "NODE_OPTIONS"@,
        "PYTHONPATH"@,
        "PYTHONSTARTUP"@,
        "PERL5OPT"@,
        "PERL5LIB"@,
        "RUBYOPT"@,
        "RUBYLIB"@,
        "GEM_HOME"@,
        "GEM_PATH"@,
        "PAGER"@,
        "EDITOR"@,
        "VISUAL"@,
    ]
}

/// A variable whose name starts with one of these is of that kind too.
pub open spec fn denied_start(name: Seq<char>) -> bool {
    ||| starts(name, "LD_"@)
    ||| starts(name, "DYLD_"@)
    ||| starts(name, "GIT_SSH"@)
    ||| starts(name, "GIT_EXTERNAL_"@)
    ||| starts(name, "GIT_PROXY"@)
}

/// Whether `name` is made like the name of a variable.
pub open spec fn variable_name(name: Seq<char>) -> bool {
    &&& name.len() > 0
    &&& is_letter(name[0]) || name[0] == '_'
    &&& forall|i: int| 0 <= i < name.len() ==> is_word(#[trigger] name[i])
}

/// Whether a repository may set the variable `name`. The case of its letters
/// makes no difference.
pub open spec fn env_allowed(name: Seq<char>) -> bool {
    &&& variable_name(name)
    &&& !denied_names().contains(capitals(name))
    &&& !denied_start(capitals(name))
}

/// Whether a repository may set the variable `name`: not one that decides
/// which program runs (`PATH`) or puts code into one that does (the loader and
/// interpreter hooks). Ordinary build variables like `NODE_ENV` are fine.
pub fn repo_env_allowed(name: &str) -> (r: bool)
    ensures
        r == env_allowed(name@),
{
    let chars = chars_of(name);
    if chars.len() == 0 || !(letter(chars[0]) || chars[0] == '_') || !all_word(name) {
        return false;
    }
    let upper = in_capitals(name);
    let deny = [
        "PATH",
        "SHELL",
        "IFS",
        "HOME",
        "ENV",
        "BASH_ENV",
        "NODE_OPTIONS",
        "PYTHONPATH",
        "PYTHONSTARTUP",
        "PERL5OPT",
        "PERL5LIB",
        "RUBYOPT",
        "RUBYLIB",
        "GEM_HOME",
        "GEM_PATH",
        "PAGER",
        "EDITOR",
        "VISUAL",
    ];
    assert(slices(deny@) =~= denied_names());
    let u = upper.as_str();
    !among(u, &deny) && !starts_with(u, "LD_") && !starts_with(u, "DYLD_") && !starts_with(
        u,
        "GIT_SSH",
    ) && !starts_with(u, "GIT_EXTERNAL_") && !starts_with(u, "GIT_PROXY")
}

/// `into` followed by the texts of `from` that it does not hold yet, each once.
pub open spec fn extended(into: Seq<Seq<char>>, from: Seq<Seq<char>>) -> Seq<Seq<char>>
    decreases from.len(),
{
    if from.len() == 0 {
        into
    } else {
        let r = extended(into, from.drop_last());
        if r.contains(from.last()) {
            r
        } else {
            r.push(from.last())
        }
    }
}

/// Extending a list keeps what it held, in place, and makes it hold all of the rest.
pub proof fn law_extended(into: Seq<Seq<char>>, from: Seq<Seq<char>>)
    ensures
        into.is_prefix_of(extended(into, from)),
        forall|x: Seq<char>| #[trigger]
            extended(into, from).contains(x) <==> into.contains(x) || from.contains(x),
    decreases from.len(),
{
    if from.len() == 0 {
        assert(into.is_prefix_of(into));
    } else {
        law_extended(into, from.drop_last());
        let r = extended(into, from.drop_last());
        let e = extended(into, from);
        assert(into =~= e.subrange(0, into.len() as int)) by {
            assert(into =~= r.subrange(0, into.len() as int));
        }
        assert forall|x: Seq<char>| #[trigger] e.contains(x) <==> into.contains(x) || from.contains(
            x,
        ) by {
            assert(r.contains(x) <==> into.contains(x) || from.drop_last().contains(x));
            if from.drop_last().contains(x) {
                let k = choose|k: int| 0 <= k < from.drop_last().len() && from.drop_last()[k] == x;
                assert(from[k] == x);
            }
            if from.contains(x) && x != from.last() {
                let k = choose|k: int| 0 <= k < from.len() && from[k] == x;
                assert(from.drop_last()[k] == x);
            }
            if from.last() == x {
                assert(from[from.len() - 1] == x);
            }
            if !r.contains(from.last()) {
                assert(e[r.len() as int] == from.last());
                if r.contains(x) {
                    let k = choose|k: int| 0 <= k < r.len() && r[k] == x;
                    assert(e[k] == x);
                }
                if e.contains(x) && x != from.last() {
                    let k = choose|k: int| 0 <= k < e.len() && e[k] == x;
                    assert(r[k] == x);
                }
            }
        }
    }
}

/// Add to a list the strings of another that it does not hold yet.
pub fn extend_unique(into: &mut Vec<String>, from: Vec<String>)
    ensures
        texts(final(into)@) == extended(texts(old(into)@), texts(from@)),
{
    broadcast use lemma_texts_push;

    let mut i: usize = 0;
    let ghost start = texts(into@);
    assert(texts(from@).take(0) =~= Seq::empty());
    while i < from.len()
        invariant
            i <= from.len(),
            texts(into@) == extended(start, texts(from@).take(i as int)),
        decreases from.len() - i,
    {
        let ghost now = texts(from@).take(i + 1);
        assert(now.drop_last() =~= texts(from@).take(i as int));
        assert(now.last() == from@[i as int]@);
        if !holds(into, from[i].as_str()) {
            into.push(from[i].clone());
        }
        i += 1;
    }
    assert(texts(from@).take(i as int) =~= texts(from@));
}

// --- merging -----------------------------------------------------------------

/// A setting that belongs to the person who runs the tool, not to a repository.
pub open spec fn host_only<T>(repo: bool, now: T, said: Option<T>) -> T {
    match said {
        Some(v) => if repo {
            now
        } else {
            v
        },
        None => now,
    }
}

/// A switch that a repository may turn off but never on.
pub open spec fn off_only(repo: bool, now: bool, said: Option<bool>) -> bool {
    match said {
        Some(v) => if repo && v {
            now
        } else {
            v
        },
        None => now,
    }
}

/// A limit that a repository may lower but never raise.
pub open spec fn lower_only(repo: bool, now: u64, said: Option<u64>) -> u64 {
    match said {
        Some(v) => if repo && v > now {
            now
        } else {
            v
        },
        None => now,
    }
}

/// Whether one time limit is longer than another. Zero stands for no limit, which
/// is longer than any other.
pub open spec fn longer(a: u64, b: u64) -> bool {
    b != 0 && (a == 0 || a > b)
}

/// A time limit that a repository may shorten but never lengthen or lift.
pub open spec fn shorter_only(repo: bool, now: u64, said: Option<u64>) -> u64 {
    match said {
        Some(v) => if repo && longer(v, now) {
            now
        } else {
            v
        },
        None => now,
    }
}

/// How a refused setting is reported.
pub open spec fn refusal(label: Seq<char>, name: Seq<char>, why: Seq<char>) -> Seq<char> {
    label + ": `"@ + name + "` "@ + why + "; ignored"@
}

/// The report of a setting, where it was refused.
#[verifier::opaque]
pub open spec fn noted(refused: bool, label: Seq<char>, name: Seq<char>, why: Seq<char>) -> Seq<
    Seq<char>,
> {
    if refused {
        seq![refusal(label, name, why)]
    } else {
        Seq::empty()
    }
}

/// Why a setting of the user's alone is refused.
pub open spec fn why_host() -> Seq<char> {
    "can only be set in the user config"@
}

/// Why a switch is refused.
pub open spec fn why_on() -> Seq<char> {
    "can only be disabled by a repo config"@
}

/// Why a limit is refused.
pub open spec fn why_higher() -> Seq<char> {
    "can only be lowered by a repo config"@
}

/// Why a variable is refused.
pub open spec fn why_env() -> Seq<char> {
    "selects or injects into the program that runs"@
}

/// The variables of a file that are taken over.
pub open spec fn env_taken(repo: bool, env: Seq<Pair>) -> Seq<Pair> {
    env.filter(|e: Pair| !repo || env_allowed(e.0))
}

/// The reports on the variables of a file that are not.
pub open spec fn env_refusals(repo: bool, label: Seq<char>, env: Seq<Pair>) -> Seq<Seq<char>>
    decreases env.len(),
{
    if env.len() == 0 {
        Seq::empty()
    } else {
        env_refusals(repo, label, env.drop_last()) + noted(
            repo && !env_allowed(env.last().0),
            label,
            "env."@ + env.last().0,
            why_env(),
        )
    }
}

/// The custom steps of a file, as coming from it.
pub open spec fn steps_from(steps: Seq<StepDefView>, origin: Origin) -> Seq<StepDefView> {
    Seq::new(steps.len(), |i: int| StepDefView { origin, ..steps[i] })
}

/// Whether a file asks for a higher limit.
pub open spec fn raises(now: u64, said: Option<u64>) -> bool {
    said is Some && said->0 > now
}

/// Whether a file asks for a longer time limit, or for none.
pub open spec fn lengthens(now: u64, said: Option<u64>) -> bool {
    said is Some && longer(said->0, now)
}

/// Move the strings of one list to the end of another.
fn add_texts(into: &mut Vec<String>, from: &mut Vec<String>)
    ensures
        texts(final(into)@) == texts(old(into)@) + texts(old(from)@),
{
    let ghost a = into@;
    let ghost b = from@;
    into.append(from);
    assert(texts(into@) =~= texts(a) + texts(b));
}

fn refuse(warnings: &mut Vec<String>, label: &str, name: &str, why: &str)
    ensures
        texts(final(warnings)@) == texts(old(warnings)@) + seq![refusal(label@, name@, why@)],
{
    broadcast use lemma_texts_push;

    let mut out = glue3(label, ": `", name);
    out.append("` ");
    out.append(why);
    out.append("; ignored");
    let ghost before = texts(warnings@);
    warnings.push(out);
    assert(texts(warnings@) =~= before + seq![refusal(label@, name@, why@)]);
}

fn host<T: Copy>(
    warnings: &mut Vec<String>,
    origin: Origin,
    name: &str,
    now: T,
    said: Option<T>,
) -> (r: T)
    ensures
        r == host_only(origin.repo(), now, said),
        texts(final(warnings)@) == texts(old(warnings)@) + noted(
            origin.repo() && said is Some,
            origin.text(),
            name@,
            why_host(),
        ),
{
    proof {
        reveal(noted);
        assert(texts(warnings@) + Seq::<Seq<char>>::empty() =~= texts(warnings@));
    }
    match said {
        Some(v) => {
            if origin.is_repo() {
                refuse(warnings, origin.label(), name, "can only be set in the user config");
                now
            } else {
                v
            }
        },
        None => now,
    }
}

fn switch(
    warnings: &mut Vec<String>,
    origin: Origin,
    name: &str,
    now: bool,
    said: Option<bool>,
) -> (r: bool)
    ensures
        r == off_only(origin.repo(), now, said),
        texts(final(warnings)@) == texts(old(warnings)@) + noted(
            origin.repo() && said == Some(true),
            origin.text(),
            name@,
            why_on(),
        ),
{
    proof {
        reveal(noted);
        assert(texts(warnings@) + Seq::<Seq<char>>::empty() =~= texts(warnings@));
    }
    match said {
        Some(v) => {
            if origin.is_repo() && v {
                refuse(warnings, origin.label(), name, "can only be disabled by a repo config");
                now
            } else {
                v
            }
        },
        None => now,
    }
}

fn limit(
    warnings: &mut Vec<String>,
    origin: Origin,
    name: &str,
    now: u64,
    said: Option<u64>,
) -> (r: u64)
    ensures
        r == lower_only(origin.repo(), now, said),
        texts(final(warnings)@) == texts(old(warnings)@) + noted(
            origin.repo() && raises(now, said),
            origin.text(),
            name@,
            why_higher(),
        ),
{
    proof {
        reveal(noted);
        assert(texts(warnings@) + Seq::<Seq<char>>::empty() =~= texts(warnings@));
    }
    match said {
        Some(v) => {
            if origin.is_repo() && v > now {
                refuse(warnings, origin.label(), name, "can only be lowered by a repo config");
                now
            } else {
                v
            }
        },
        None => now,
    }
}

fn time_limit(
    warnings: &mut Vec<String>,
    origin: Origin,
    name: &str,
    now: u64,
    said: Option<u64>,
) -> (r: u64)
    ensures
        r == shorter_only(origin.repo(), now, said),
        texts(final(warnings)@) == texts(old(warnings)@) + noted(
            origin.repo() && lengthens(now, said),
            origin.text(),
            name@,
            why_higher(),
        ),
{
    proof {
        reveal(noted);
        assert(texts(warnings@) + Seq::<Seq<char>>::empty() =~= texts(warnings@));
    }
    match said {
        Some(v) => {
            if origin.is_repo() && now != 0 && (v == 0 || v > now) {
                refuse(warnings, origin.label(), name, "can only be lowered by a repo config");
                now
            } else {
                v
            }
        },
        None => now,
    }
}

/// Take over the symlink patterns of a file. A symlink aims the worktree back at
/// the source checkout, so writes in the worktree change the main one: a choice
/// only the user may make.
fn merge_symlinks(
    symlink: &mut Vec<String>,
    more: Vec<String>,
    origin: Origin,
    warnings: &mut Vec<String>,
)
    ensures
        texts(final(symlink)@) == if origin.repo() {
            texts(old(symlink)@)
        } else {
            extended(texts(old(symlink)@), texts(more@))
        },
        texts(final(warnings)@) == texts(old(warnings)@) + noted(
            origin.repo() && texts(more@).len() > 0,
            origin.text(),
            "symlink"@,
            why_host(),
        ),
{
    proof {
        reveal(noted);
        assert(texts(warnings@) + Seq::<Seq<char>>::empty() =~= texts(warnings@));
    }
    if origin.is_repo() && more.len() > 0 {
        refuse(warnings, origin.label(), "symlink", "can only be set in the user config");
    } else {
        extend_unique(symlink, more);
    }
}

/// Take over the variables of a file.
fn merge_env(env: &mut EnvMap, more: &EnvMap, origin: Origin, warnings: &mut Vec<String>)
    ensures
        final(env)@ == put_all(old(env)@, env_taken(origin.repo(), more@)),
        texts(final(warnings)@) == texts(old(warnings)@) + env_refusals(
            origin.repo(),
            origin.text(),
            more@,
        ),
{
    let mut i: usize = 0;
    let repo = origin.is_repo();
    let ghost start = env@;
    let ghost told = texts(warnings@);
    proof {
        reveal(Seq::filter);
        assert(more@.take(0) =~= Seq::empty());
        assert(told + Seq::<Seq<char>>::empty() =~= told);
    }
    while i < more.len()
        invariant
            i <= more@.len(),
            repo == origin.repo(),
            env@ == put_all(start, env_taken(repo, more@.take(i as int))),
            texts(warnings@) == told + env_refusals(repo, origin.text(), more@.take(i as int)),
        decreases more@.len() - i,
    {
        let ghost now = more@.take(i + 1);
        let ghost taken = env_taken(repo, more@.take(i as int));
        proof {
            reveal(Seq::filter);
            reveal(noted);
            assert(now.drop_last() =~= more@.take(i as int));
            assert(now.last() == more@[i as int]);
            assert(taken.push(now.last()).drop_last() =~= taken);
        }
        let name = more.name(i);
        let ghost so_far = env_refusals(repo, origin.text(), more@.take(i as int));
        if repo && !repo_env_allowed(name.as_str()) {
            let key = glue("env.", name.as_str());
            refuse(
                warnings,
                origin.label(),
                key.as_str(),
                "selects or injects into the program that runs",
            );
            assert(texts(warnings@) =~= told + (so_far + noted(
                true,
                origin.text(),
                "env."@ + now.last().0,
                why_env(),
            )));
        } else {
            env.insert(name.clone(), more.value(i).clone());
            assert(so_far + Seq::<Seq<char>>::empty() =~= so_far);
        }
        i += 1;
    }
    assert(more@.take(i as int) =~= more@);
}

/// Take over the custom steps of a file.
fn merge_steps(steps: &mut Vec<StepDef>, more: &Vec<StepDef>, origin: Origin)
    ensures
        steps_view(final(steps)@) == steps_view(old(steps)@) + steps_from(
            steps_view(more@),
            origin,
        ),
{
    let mut i: usize = 0;
    let ghost start = steps_view(steps@);
    let ghost all = steps_from(steps_view(more@), origin);
    while i < more.len()
        invariant
            i <= more.len(),
            all == steps_from(steps_view(more@), origin),
            steps_view(steps@) =~= start + all.take(i as int),
        decreases more.len() - i,
    {
        let mut step = more[i].clone();
        step.origin = origin;
        let ghost before = steps_view(steps@);
        assert(step@ == all[i as int]);
        steps.push(step);
        assert(steps_view(steps@) =~= before.push(all[i as int]));
        i += 1;
    }
    assert(all.take(i as int) =~= all);
}

/// The reports on the settings of a file that are the user's alone, in order.
pub open spec fn host_refusals(layer: LayerView, origin: Origin) -> Seq<Seq<char>> {
    let repo = origin.repo();
    let label = origin.text();
    Seq::<Seq<char>>::empty()
        + noted(repo && layer.focus is Some, label, "focus"@, why_host())
        + noted(repo && layer.placement is Some, label, "placement"@, why_host())
        + noted(repo && layer.direction is Some, label, "direction"@, why_host())
        + noted(repo && layer.trust_repo_steps is Some, label, "trust_repo_steps"@, why_host())
        + noted(repo && layer.color is Some, label, "color"@, why_host())
        + noted(repo && layer.mode is Some, label, "mode"@, why_host())
        + noted(repo && layer.auto_close_secs is Some, label, "auto_close_secs"@, why_host())
}

/// The reports on the switches of a file, in order.
pub open spec fn switch_refusals(layer: LayerView, origin: Origin) -> Seq<Seq<char>> {
    let repo = origin.repo();
    let label = origin.text();
    Seq::<Seq<char>>::empty()
        + noted(repo && layer.install == Some(true), label, "install"@, why_on())
        + noted(repo && layer.mise_trust == Some(true), label, "mise_trust"@, why_on())
        + noted(repo && layer.direnv_allow == Some(true), label, "direnv_allow"@, why_on())
        + noted(repo && layer.use_mise == Some(true), label, "use_mise"@, why_on())
        + noted(repo && layer.use_direnv == Some(true), label, "use_direnv"@, why_on())
}

/// The reports on the limits of a file, in order.
pub open spec fn limit_refusals(cfg: ConfigView, layer: LayerView, origin: Origin) -> Seq<
    Seq<char>,
> {
    let repo = origin.repo();
    let label = origin.text();
    Seq::<Seq<char>>::empty()
        + noted(
            repo && raises(cfg.copy_size_cap_mb, layer.copy_size_cap_mb),
            label,
            "copy_size_cap_mb"@,
            why_higher(),
        )
        + noted(
            repo && raises(cfg.total_size_cap_mb, layer.total_size_cap_mb),
            label,
            "total_size_cap_mb"@,
            why_higher(),
        )
        + noted(
            repo && lengthens(cfg.step_timeout_secs, layer.step_timeout_secs),
            label,
            "step_timeout_secs"@,
            why_higher(),
        )
}

/// The configuration after the user's own settings of a file were merged into it.
pub open spec fn host_merged(cfg: ConfigView, layer: LayerView, origin: Origin) -> ConfigView {
    let repo = origin.repo();
    ConfigView {
        auto_close_secs: host_only(repo, cfg.auto_close_secs, layer.auto_close_secs),
        focus: host_only(repo, cfg.focus, layer.focus),
        placement: host_only(repo, cfg.placement, layer.placement),
        direction: host_only(repo, cfg.direction, layer.direction),
        mode: host_only(repo, cfg.mode, layer.mode),
        color: host_only(repo, cfg.color, layer.color),
        trust_repo_steps: host_only(repo, cfg.trust_repo_steps, layer.trust_repo_steps),
        ..cfg
    }
}

/// The configuration after the switches of a file were merged into it.
pub open spec fn switches_merged(cfg: ConfigView, layer: LayerView, origin: Origin) -> ConfigView {
    let repo = origin.repo();
    ConfigView {
        install: off_only(repo, cfg.install, layer.install),
        mise_trust: off_only(repo, cfg.mise_trust, layer.mise_trust),
        direnv_allow: off_only(repo, cfg.direnv_allow, layer.direnv_allow),
        use_mise: off_only(repo, cfg.use_mise, layer.use_mise),
        use_direnv: off_only(repo, cfg.use_direnv, layer.use_direnv),
        ..cfg
    }
}

/// The configuration after the limits of a file were merged into it.
pub open spec fn limits_merged(cfg: ConfigView, layer: LayerView, origin: Origin) -> ConfigView {
    let repo = origin.repo();
    ConfigView {
        copy_size_cap_mb: lower_only(repo, cfg.copy_size_cap_mb, layer.copy_size_cap_mb),
        total_size_cap_mb: lower_only(repo, cfg.total_size_cap_mb, layer.total_size_cap_mb),
        step_timeout_secs: shorter_only(repo, cfg.step_timeout_secs, layer.step_timeout_secs),
        ..cfg
    }
}

/// The reports on what a file of the given origin says and may not, in order.
pub open spec fn refusals(cfg: ConfigView, layer: LayerView, origin: Origin) -> Seq<Seq<char>> {
    host_refusals(layer, origin) + switch_refusals(layer, origin) + limit_refusals(
        cfg,
        layer,
        origin,
    ) + noted(
        origin.repo() && layer.symlink.len() > 0,
        origin.text(),
        "symlink"@,
        why_host(),
    ) + env_refusals(origin.repo(), origin.text(), layer.env)
}

/// The configuration after a file of the given origin was merged into it.
pub open spec fn merged(cfg: ConfigView, layer: LayerView, origin: Origin) -> ConfigView {
    ConfigView {
        copy: extended(cfg.copy, layer.copy),
        clone: extended(cfg.clone, layer.clone),
        symlink: if origin.repo() {
            cfg.symlink
        } else {
            extended(cfg.symlink, layer.symlink)
        },
        exclude: extended(cfg.exclude, layer.exclude),
        env: put_all(cfg.env, env_taken(origin.repo(), layer.env)),
        steps: cfg.steps + steps_from(layer.steps, origin),
        warnings: cfg.warnings + refusals(cfg, layer, origin),
        ..limits_merged(
            switches_merged(host_merged(cfg, layer, origin), layer, origin),
            layer,
            origin,
        )
    }
}

impl Config {
    /// Merge the settings of a file that are the user's alone.
    fn merge_host(&mut self, layer: &ConfigLayer, origin: Origin) -> (w: Vec<String>)
        ensures
            final(self)@ == host_merged(old(self)@, layer@, origin),
            texts(w@) == host_refusals(layer@, origin),
    {
        let mut w: Vec<String> = Vec::new();
        assert(texts(w@) =~= Seq::<Seq<char>>::empty());
        self.focus = host(&mut w, origin, "focus", self.focus, layer.focus);
        self.placement = host(&mut w, origin, "placement", self.placement, layer.placement);
        self.direction = host(&mut w, origin, "direction", self.direction, layer.direction);
        self.trust_repo_steps = host(
            &mut w,
            origin,
            "trust_repo_steps",
            self.trust_repo_steps,
            layer.trust_repo_steps,
        );
        self.color = host(&mut w, origin, "color", self.color, layer.color);
        self.mode = host(&mut w, origin, "mode", self.mode, layer.mode);
        self.auto_close_secs = host(
            &mut w,
            origin,
            "auto_close_secs",
            self.auto_close_secs,
            layer.auto_close_secs,
        );
        w
    }

    /// Merge the switches of a file.
    fn merge_switches(&mut self, layer: &ConfigLayer, origin: Origin) -> (w: Vec<String>)
        ensures
            final(self)@ == switches_merged(old(self)@, layer@, origin),
            texts(w@) == switch_refusals(layer@, origin),
    {
        let mut w: Vec<String> = Vec::new();
        assert(texts(w@) =~= Seq::<Seq<char>>::empty());
        self.install = switch(&mut w, origin, "install", self.install, layer.install);
        self.mise_trust = switch(&mut w, origin, "mise_trust", self.mise_trust, layer.mise_trust);
        self.direnv_allow = switch(
            &mut w,
            origin,
            "direnv_allow",
            self.direnv_allow,
            layer.direnv_allow,
        );
        self.use_mise = switch(&mut w, origin, "use_mise", self.use_mise, layer.use_mise);
        self.use_direnv = switch(&mut w, origin, "use_direnv", self.use_direnv, layer.use_direnv);
        w
    }

    /// Merge the limits of a file.
    fn merge_limits(&mut self, layer: &ConfigLayer, origin: Origin) -> (w: Vec<String>)
        ensures
            final(self)@ == limits_merged(old(self)@, layer@, origin),
            texts(w@) == limit_refusals(old(self)@, layer@, origin),
    {
        let mut w: Vec<String> = Vec::new();
        assert(texts(w@) =~= Seq::<Seq<char>>::empty());
        self.copy_size_cap_mb = limit(
            &mut w,
            origin,
            "copy_size_cap_mb",
            self.copy_size_cap_mb,
            layer.copy_size_cap_mb,
        );
        self.total_size_cap_mb = limit(
            &mut w,
            origin,
            "total_size_cap_mb",
            self.total_size_cap_mb,
            layer.total_size_cap_mb,
        );
        self.step_timeout_secs = time_limit(
            &mut w,
            origin,
            "step_timeout_secs",
            self.step_timeout_secs,
            layer.step_timeout_secs,
        );
        w
    }

    /// Merge one file into the configuration.
    pub fn merge(&mut self, layer: ConfigLayer, origin: Origin)
        ensures
            final(self)@ == merged(old(self)@, layer@, origin),
    {
        let ghost before = self@;
        let ghost said = layer@;
        let mut w = self.merge_host(&layer, origin);
        let mut switches = self.merge_switches(&layer, origin);
        add_texts(&mut w, &mut switches);
        let mut limits = self.merge_limits(&layer, origin);
        add_texts(&mut w, &mut limits);
        extend_unique(&mut self.copy, layer.copy);
        extend_unique(&mut self.clone, layer.clone);
        merge_symlinks(&mut self.symlink, layer.symlink, origin, &mut w);
        extend_unique(&mut self.exclude, layer.exclude);
        merge_env(&mut self.env, &layer.env, origin, &mut w);
        merge_steps(&mut self.steps, &layer.steps, origin);
        let ghost told = texts(self.warnings@);
        let ghost new = texts(w@);
        assert(new == refusals(before, said, origin));
        add_texts(&mut self.warnings, &mut w);
        assert(self@ =~= merged(before, said, origin));
    }
}

// --- loading -----------------------------------------------------------------

/// What came of reading a config file.
#[derive(Debug)]
pub enum LayerRead {
    Missing,
    Parsed(ConfigLayer),
    /// It could not be read, and why.
    Unreadable(String),
    /// It could not be parsed, and why.
    Malformed(String),
}

/// What is said of a config file that could not be read or parsed: which one it
/// is, and why.
pub open spec fn read_failure(path: Seq<char>, read: LayerRead) -> Option<Seq<char>> {
    match read {
        LayerRead::Unreadable(why) => Some("reading "@ + path + ": "@ + why@),
        LayerRead::Malformed(why) => Some("parsing "@ + path + ": "@ + why@),
        _ => None,
    }
}

fn failure_text(doing: &str, path: &str, why: &str) -> (r: String)
    ensures
        r@ == doing@ + path@ + ": "@ + why@,
{
    let mut out = glue3(doing, path, ": ");
    out.append(why);
    out
}

/// The configuration after what came of reading a file was merged into it. A
/// file of the repository that cannot be read is only reported.
pub open spec fn file_merged(
    cfg: ConfigView,
    origin: Origin,
    path: Seq<char>,
    read: LayerRead,
) -> ConfigView {
    match read {
        LayerRead::Missing => cfg,
        LayerRead::Parsed(layer) => merged(
            ConfigView { layers: cfg.layers.push((origin, path)), ..cfg },
            layer@,
            origin,
        ),
        _ => if origin.repo() {
            ConfigView {
                warnings: cfg.warnings.push(
                    "ignored "@ + path + ": "@ + read_failure(path, read)->0,
                ),
                ..cfg
            }
        } else {
            cfg
        },
    }
}

/// A config file on the branch, held against the one in the source checkout.
#[derive(Debug)]
pub struct BranchFile {
    /// Whether the worktree has the file.
    pub present: bool,
    /// What the file in the worktree holds, if it could be read.
    pub branch: Option<Vec<u8>>,
    /// What the file in the source checkout holds, if it could be read.
    pub source: Option<Vec<u8>>,
}

impl BranchFile {
    /// Whether the branch carries a file that the source checkout does not.
    pub open spec fn ignored(self) -> bool {
        self.present && match (self.branch, self.source) {
            (Some(a), Some(b)) => a@ != b@,
            _ => true,
        }
    }

    fn differs(&self) -> (r: bool)
        ensures
            r == self.ignored(),
    {
        if !self.present {
            return false;
        }
        match (&self.branch, &self.source) {
            (Some(a), Some(b)) => !same_bytes(a, b),
            _ => true,
        }
    }
}

fn same_bytes(a: &Vec<u8>, b: &Vec<u8>) -> (r: bool)
    ensures
        r == (a@ == b@),
{
    if a.len() != b.len() {
        return false;
    }
    let mut i: usize = 0;
    while i < a.len()
        invariant
            i <= a.len(),
            a.len() == b.len(),
            forall|k: int| 0 <= k < i ==> a@[k] == b@[k],
        decreases a.len() - i,
    {
        if a[i] != b[i] {
            return false;
        }
        i += 1;
    }
    assert(a@ =~= b@);
    true
}

/// How a config file that only the branch has is reported.
pub open spec fn branch_warning(file: Seq<char>, source: Seq<char>) -> Seq<char> {
    "ignored "@ + file + " from the worktree: configuration is read from "@ + source
        + " (the branch does not get to configure its own setup)"@
}

/// The reports on the config files of the branch.
pub open spec fn branch_warnings(source: Seq<char>, repo: BranchFile, local: BranchFile) -> Seq<
    Seq<char>,
> {
    (if repo.ignored() {
        seq![branch_warning(REPO_FILE@, source)]
    } else {
        Seq::empty()
    }) + (if local.ignored() {
        seq![branch_warning(REPO_LOCAL_FILE@, source)]
    } else {
        Seq::empty()
    })
}

/// The configuration for a run.
pub open spec fn loaded(
    config_dir: Seq<char>,
    source: Seq<char>,
    user: LayerRead,
    repo: LayerRead,
    local: LayerRead,
    branch_repo: BranchFile,
    branch_local: BranchFile,
) -> ConfigView {
    let a = file_merged(default_config(), Origin::User, joined(config_dir, USER_FILE@), user);
    let b = file_merged(a, Origin::Repo, joined(source, REPO_FILE@), repo);
    let c = file_merged(b, Origin::RepoLocal, joined(source, REPO_LOCAL_FILE@), local);
    ConfigView {
        warnings: c.warnings + branch_warnings(source, branch_repo, branch_local),
        ..c
    }
}

fn branch_note(file: &str, source: &str) -> (r: String)
    ensures
        r@ == branch_warning(file@, source@),
{
    let mut out = glue3("ignored ", file, " from the worktree: configuration is read from ");
    out.append(source);
    out.append(" (the branch does not get to configure its own setup)");
    out
}

impl Config {
    /// Full merge for a run, from what came of reading the three files.
    ///
    /// Both repository files are those of the source checkout, the working copy
    /// the user already has. A file on the branch being set up configures
    /// nothing: it is reported where it differs.
    pub fn load(
        config_dir: &str,
        source: &str,
        user: LayerRead,
        repo: LayerRead,
        local: LayerRead,
        branch_repo: &BranchFile,
        branch_local: &BranchFile,
    ) -> (r: Result<Config, String>)
        ensures
            match r {
                Ok(cfg) => read_failure(joined(config_dir@, USER_FILE@), user) is None && cfg@
                    == loaded(
                    config_dir@,
                    source@,
                    user,
                    repo,
                    local,
                    *branch_repo,
                    *branch_local,
                ),
                Err(e) => read_failure(joined(config_dir@, USER_FILE@), user) == Some(e@),
            },
    {
        let mut cfg = Config::default();
        match cfg.merge_file(Origin::User, join_path(config_dir, USER_FILE), user) {
            Ok(_) => {},
            Err(e) => {
                return Err(e);
            },
        }
        match cfg.merge_file(Origin::Repo, join_path(source, REPO_FILE), repo) {
            Ok(_) => {},
            Err(e) => {
                return Err(e);
            },
        }
        match cfg.merge_file(Origin::RepoLocal, join_path(source, REPO_LOCAL_FILE), local) {
            Ok(_) => {},
            Err(e) => {
                return Err(e);
            },
        }
        cfg.note_ignored_branch_config(source, branch_repo, branch_local);
        Ok(cfg)
    }

    /// Report a config file that the branch has and the source checkout has not,
    /// or has otherwise.
    pub fn note_ignored_branch_config(
        &mut self,
        source: &str,
        repo: &BranchFile,
        local: &BranchFile,
    )
        ensures
            final(self)@ == (ConfigView {
                warnings: old(self)@.warnings + branch_warnings(source@, *repo, *local),
                ..old(self)@
            }),
    {
        broadcast use lemma_texts_push;

        let ghost told = texts(self.warnings@);
        if repo.differs() {
            self.warnings.push(branch_note(REPO_FILE, source));
        }
        if local.differs() {
            self.warnings.push(branch_note(REPO_LOCAL_FILE, source));
        }
        assert(texts(self.warnings@) =~= told + branch_warnings(source@, *repo, *local));
    }

    /// The user's file alone: enough to open the pane.
    pub fn load_user(config_dir: &str, user: LayerRead) -> (r: Result<Config, String>)
        ensures
            match r {
                Ok(cfg) => read_failure(joined(config_dir@, USER_FILE@), user) is None && cfg@
                    == file_merged(
                    default_config(),
                    Origin::User,
                    joined(config_dir@, USER_FILE@),
                    user,
                ),
                Err(e) => read_failure(joined(config_dir@, USER_FILE@), user) == Some(e@),
            },
    {
        let mut cfg = Config::default();
        match cfg.merge_file(Origin::User, join_path(config_dir, USER_FILE), user) {
            Ok(_) => Ok(cfg),
            Err(e) => Err(e),
        }
    }

    /// Merge what came of reading a file. The user's own file is theirs to fix,
    /// so a bad one is fatal; one of the repository is reported and left out.
    #[verifier::rlimit(30)]
    pub fn merge_file(&mut self, origin: Origin, path: String, read: LayerRead) -> (r: Result<
        (),
        String,
    >)
        ensures
            final(self)@ == file_merged(old(self)@, origin, path@, read),
            match r {
                Ok(_) => read_failure(path@, read) is Some ==> origin.repo(),
                Err(e) => !origin.repo() && read_failure(path@, read) == Some(e@),
            },
    {
        broadcast use lemma_texts_push;

        let ghost before = self@;
        let err = match read {
            LayerRead::Missing => {
                return Ok(());
            },
            LayerRead::Parsed(layer) => {
                self.layers.push((origin, path));
                assert(self@ =~= ConfigView {
                    layers: before.layers.push((origin, path@)),
                    ..before
                });
                self.merge(layer, origin);
                return Ok(());
            },
            LayerRead::Unreadable(why) => failure_text("reading ", path.as_str(), why.as_str()),
            LayerRead::Malformed(why) => failure_text("parsing ", path.as_str(), why.as_str()),
        };
        if origin.is_repo() {
            self.warnings.push(failure_text("ignored ", path.as_str(), err.as_str()));
            Ok(())
        } else {
            Err(err)
        }
    }

    pub fn copy_size_cap_bytes(&self) -> (r: u64)
        ensures
            r == cap_bytes(self.copy_size_cap_mb),
    {
        in_bytes(self.copy_size_cap_mb)
    }

    pub fn total_size_cap_bytes(&self) -> (r: u64)
        ensures
            r == cap_bytes(self.total_size_cap_mb),
    {
        in_bytes(self.total_size_cap_mb)
    }
}

/// So many megabytes in bytes, or the greatest number there is room for.
pub open spec fn cap_bytes(mb: u64) -> u64 {
    let n = mb as int * 1048576;
    if n > u64::MAX {
        u64::MAX
    } else {
        n as u64
    }
}

fn in_bytes(mb: u64) -> (r: u64)
    ensures
        r == cap_bytes(mb),
{
    match mb.checked_mul(1048576) {
        Some(n) => n,
        None => u64::MAX,
    }
}

// --- what holds of every configuration ---------------------------------------

proof fn lemma_taken_keeps(env: Seq<Pair>, more: Seq<Pair>, name: Seq<char>)
    requires
        !env_allowed(name),
    ensures
        crate::envmap::lookup(put_all(env, env_taken(true, more)), name)
            == crate::envmap::lookup(env, name),
    decreases more.len(),
{
    reveal(Seq::filter);
    if more.len() > 0 {
        let rest = more.drop_last();
        lemma_taken_keeps(env, rest, name);
        if env_allowed(more.last().0) {
            let taken = env_taken(true, rest);
            assert(env_taken(true, more) =~= taken.push(more.last()));
            assert(taken.push(more.last()).drop_last() =~= taken);
            crate::envmap::law_lookup_after_put(
                put_all(env, taken),
                more.last().0,
                more.last().1,
                name,
            );
        }
    }
}

/// A file of the repository only ever restricts: it turns no switch on,
/// raises no cap and neither lengthens nor lifts the time limit, leaves what is the user's alone as it was, and sets no
/// variable that decides which program runs.
pub proof fn law_repo_only_restricts(cfg: ConfigView, layer: LayerView, origin: Origin)
    requires
        origin.repo(),
    ensures
        ({
            let m = merged(cfg, layer, origin);
            &&& m.install ==> cfg.install
            &&& m.mise_trust ==> cfg.mise_trust
            &&& m.direnv_allow ==> cfg.direnv_allow
            &&& m.use_mise ==> cfg.use_mise
            &&& m.use_direnv ==> cfg.use_direnv
            &&& m.copy_size_cap_mb <= cfg.copy_size_cap_mb
            &&& m.total_size_cap_mb <= cfg.total_size_cap_mb
            &&& !longer(m.step_timeout_secs, cfg.step_timeout_secs)
            &&& m.focus == cfg.focus
            &&& m.placement == cfg.placement
            &&& m.direction == cfg.direction
            &&& m.trust_repo_steps == cfg.trust_repo_steps
            &&& m.color == cfg.color
            &&& m.mode == cfg.mode
            &&& m.auto_close_secs == cfg.auto_close_secs
            &&& m.symlink == cfg.symlink
            &&& forall|name: Seq<char>|
                !env_allowed(name) ==> #[trigger] crate::envmap::lookup(m.env, name)
                    == crate::envmap::lookup(cfg.env, name)
        }),
{
    let m = merged(cfg, layer, origin);
    assert forall|name: Seq<char>| !env_allowed(name) implies #[trigger] crate::envmap::lookup(
        m.env,
        name,
    ) == crate::envmap::lookup(cfg.env, name) by {
        lemma_taken_keeps(cfg.env, layer.env, name);
    }
}

/// The user's file may set anything, and nothing of it is refused.
pub proof fn law_user_sets_anything(cfg: ConfigView, layer: LayerView)
    ensures
        ({
            let m = merged(cfg, layer, Origin::User);
            &&& m.warnings == cfg.warnings
            &&& layer.install is Some ==> m.install == layer.install->0
            &&& layer.mise_trust is Some ==> m.mise_trust == layer.mise_trust->0
            &&& layer.direnv_allow is Some ==> m.direnv_allow == layer.direnv_allow->0
            &&& layer.use_mise is Some ==> m.use_mise == layer.use_mise->0
            &&& layer.use_direnv is Some ==> m.use_direnv == layer.use_direnv->0
            &&& layer.copy_size_cap_mb is Some ==> m.copy_size_cap_mb == layer.copy_size_cap_mb->0
            &&& layer.total_size_cap_mb is Some ==> m.total_size_cap_mb
                == layer.total_size_cap_mb->0
            &&& layer.step_timeout_secs is Some ==> m.step_timeout_secs
                == layer.step_timeout_secs->0
            &&& layer.focus is Some ==> m.focus == layer.focus->0
            &&& layer.placement is Some ==> m.placement == layer.placement->0
            &&& layer.direction is Some ==> m.direction == layer.direction->0
            &&& layer.trust_repo_steps is Some ==> m.trust_repo_steps == layer.trust_repo_steps->0
            &&& layer.color is Some ==> m.color == layer.color->0
            &&& layer.mode is Some ==> m.mode == layer.mode->0
            &&& layer.auto_close_secs is Some ==> m.auto_close_secs == layer.auto_close_secs->0
            &&& m.symlink == extended(cfg.symlink, layer.symlink)
            &&& m.env == put_all(cfg.env, layer.env)
        }),
{
    reveal(noted);
    lemma_no_env_refusals(Origin::User.text(), layer.env);
    lemma_env_all_taken(layer.env);
    assert(refusals(cfg, layer, Origin::User) =~= Seq::<Seq<char>>::empty());
    assert(merged(cfg, layer, Origin::User).warnings =~= cfg.warnings);
}

proof fn lemma_no_env_refusals(label: Seq<char>, env: Seq<Pair>)
    ensures
        env_refusals(false, label, env) == Seq::<Seq<char>>::empty(),
    decreases env.len(),
{
    reveal(noted);
    if env.len() > 0 {
        lemma_no_env_refusals(label, env.drop_last());
        assert(env_refusals(false, label, env) =~= Seq::<Seq<char>>::empty());
    }
}

proof fn lemma_env_all_taken(env: Seq<Pair>)
    ensures
        env_taken(false, env) == env,
    decreases env.len(),
{
    reveal(Seq::filter);
    if env.len() > 0 {
        lemma_env_all_taken(env.drop_last());
        assert(env.drop_last().push(env.last()) =~= env);
    } else {
        assert(env_taken(false, env) =~= env);
    }
}

/// No file takes a pattern out of a list: the lists of the defaults stay, in
/// place, at the start of what a run goes by.
pub proof fn law_lists_only_grow(cfg: ConfigView, layer: LayerView, origin: Origin)
    ensures
        cfg.copy.is_prefix_of(merged(cfg, layer, origin).copy),
        cfg.clone.is_prefix_of(merged(cfg, layer, origin).clone),
        cfg.symlink.is_prefix_of(merged(cfg, layer, origin).symlink),
        cfg.exclude.is_prefix_of(merged(cfg, layer, origin).exclude),
        cfg.steps.is_prefix_of(merged(cfg, layer, origin).steps),
        cfg.warnings.is_prefix_of(merged(cfg, layer, origin).warnings),
{
    law_extended(cfg.copy, layer.copy);
    law_extended(cfg.clone, layer.clone);
    law_extended(cfg.symlink, layer.symlink);
    law_extended(cfg.exclude, layer.exclude);
    let m = merged(cfg, layer, origin);
    assert(cfg.symlink =~= cfg.symlink.subrange(0, cfg.symlink.len() as int));
    assert(cfg.steps =~= m.steps.subrange(0, cfg.steps.len() as int));
    assert(cfg.warnings =~= m.warnings.subrange(0, cfg.warnings.len() as int));
}

proof fn lemma_in_sum(a: Seq<Seq<char>>, b: Seq<Seq<char>>, x: Seq<char>)
    ensures
        (a + b).contains(x) == (a.contains(x) || b.contains(x)),
{
    let s = a + b;
    if a.contains(x) {
        let k = choose|k: int| 0 <= k < a.len() && a[k] == x;
        assert(s[k] == x);
    }
    if b.contains(x) {
        let k = choose|k: int| 0 <= k < b.len() && b[k] == x;
        assert(s[a.len() + k] == x);
    }
    if s.contains(x) {
        let k = choose|k: int| 0 <= k < s.len() && s[k] == x;
        if k < a.len() {
            assert(a[k] == x);
        } else {
            assert(b[k - a.len()] == x);
        }
    }
}

proof fn lemma_noted(refused: bool, label: Seq<char>, name: Seq<char>, why: Seq<char>)
    ensures
        refused ==> noted(refused, label, name, why).contains(refusal(label, name, why)),
{
    reveal(noted);
    if refused {
        assert(noted(refused, label, name, why)[0] == refusal(label, name, why));
    }
}

/// The text `name` of a setting, if it was refused, is among the reports after
/// a file was merged.
pub open spec fn reported(m: ConfigView, origin: Origin, name: Seq<char>, why: Seq<char>) -> bool {
    m.warnings.contains(refusal(origin.text(), name, why))
}

proof fn lemma_host_reported(layer: LayerView, origin: Origin)
    requires
        origin.repo(),
    ensures
        ({
            let r = host_refusals(layer, origin);
            let l = origin.text();
            &&& layer.focus is Some ==> r.contains(refusal(l, "focus"@, why_host()))
            &&& layer.placement is Some ==> r.contains(refusal(l, "placement"@, why_host()))
            &&& layer.direction is Some ==> r.contains(refusal(l, "direction"@, why_host()))
            &&& layer.trust_repo_steps is Some ==> r.contains(
                refusal(l, "trust_repo_steps"@, why_host()),
            )
            &&& layer.color is Some ==> r.contains(refusal(l, "color"@, why_host()))
            &&& layer.mode is Some ==> r.contains(refusal(l, "mode"@, why_host()))
            &&& layer.auto_close_secs is Some ==> r.contains(
                refusal(l, "auto_close_secs"@, why_host()),
            )
        }),
{
    let l = origin.text();
    let w = why_host();
    let n1 = noted(layer.focus is Some, l, "focus"@, w);
    let n2 = noted(layer.placement is Some, l, "placement"@, w);
    let n3 = noted(layer.direction is Some, l, "direction"@, w);
    let n4 = noted(layer.trust_repo_steps is Some, l, "trust_repo_steps"@, w);
    let n5 = noted(layer.color is Some, l, "color"@, w);
    let n6 = noted(layer.mode is Some, l, "mode"@, w);
    let n7 = noted(layer.auto_close_secs is Some, l, "auto_close_secs"@, w);
    lemma_noted(layer.focus is Some, l, "focus"@, w);
    lemma_noted(layer.placement is Some, l, "placement"@, w);
    lemma_noted(layer.direction is Some, l, "direction"@, w);
    lemma_noted(layer.trust_repo_steps is Some, l, "trust_repo_steps"@, w);
    lemma_noted(layer.color is Some, l, "color"@, w);
    lemma_noted(layer.mode is Some, l, "mode"@, w);
    lemma_noted(layer.auto_close_secs is Some, l, "auto_close_secs"@, w);
    let e = Seq::<Seq<char>>::empty();
    assert forall|x: Seq<char>|
        (n1.contains(x) || n2.contains(x) || n3.contains(x) || n4.contains(x) || n5.contains(x)
            || n6.contains(x) || n7.contains(x)) implies #[trigger] host_refusals(
        layer,
        origin,
    ).contains(x) by {
        lemma_in_sum(e, n1, x);
        lemma_in_sum(e + n1, n2, x);
        lemma_in_sum(e + n1 + n2, n3, x);
        lemma_in_sum(e + n1 + n2 + n3, n4, x);
        lemma_in_sum(e + n1 + n2 + n3 + n4, n5, x);
        lemma_in_sum(e + n1 + n2 + n3 + n4 + n5, n6, x);
        lemma_in_sum(e + n1 + n2 + n3 + n4 + n5 + n6, n7, x);
    }
}

proof fn lemma_switch_reported(layer: LayerView, origin: Origin)
    requires
        origin.repo(),
    ensures
        ({
            let r = switch_refusals(layer, origin);
            let l = origin.text();
            &&& layer.install == Some(true) ==> r.contains(refusal(l, "install"@, why_on()))
            &&& layer.mise_trust == Some(true) ==> r.contains(refusal(l, "mise_trust"@, why_on()))
            &&& layer.direnv_allow == Some(true) ==> r.contains(
                refusal(l, "direnv_allow"@, why_on()),
            )
            &&& layer.use_mise == Some(true) ==> r.contains(refusal(l, "use_mise"@, why_on()))
            &&& layer.use_direnv == Some(true) ==> r.contains(refusal(l, "use_direnv"@, why_on()))
        }),
{
    let l = origin.text();
    let w = why_on();
    let n1 = noted(layer.install == Some(true), l, "install"@, w);
    let n2 = noted(layer.mise_trust == Some(true), l, "mise_trust"@, w);
    let n3 = noted(layer.direnv_allow == Some(true), l, "direnv_allow"@, w);
    let n4 = noted(layer.use_mise == Some(true), l, "use_mise"@, w);
    let n5 = noted(layer.use_direnv == Some(true), l, "use_direnv"@, w);
    lemma_noted(layer.install == Some(true), l, "install"@, w);
    lemma_noted(layer.mise_trust == Some(true), l, "mise_trust"@, w);
    lemma_noted(layer.direnv_allow == Some(true), l, "direnv_allow"@, w);
    lemma_noted(layer.use_mise == Some(true), l, "use_mise"@, w);
    lemma_noted(layer.use_direnv == Some(true), l, "use_direnv"@, w);
    let e = Seq::<Seq<char>>::empty();
    assert forall|x: Seq<char>|
        (n1.contains(x) || n2.contains(x) || n3.contains(x) || n4.contains(x) || n5.contains(
            x,
        )) implies #[trigger] switch_refusals(layer, origin).contains(x) by {
        lemma_in_sum(e, n1, x);
        lemma_in_sum(e + n1, n2, x);
        lemma_in_sum(e + n1 + n2, n3, x);
        lemma_in_sum(e + n1 + n2 + n3, n4, x);
        lemma_in_sum(e + n1 + n2 + n3 + n4, n5, x);
    }
}

proof fn lemma_limit_reported(cfg: ConfigView, layer: LayerView, origin: Origin)
    requires
        origin.repo(),
    ensures
        ({
            let r = limit_refusals(cfg, layer, origin);
            let l = origin.text();
            &&& raises(cfg.copy_size_cap_mb, layer.copy_size_cap_mb) ==> r.contains(
                refusal(l, "copy_size_cap_mb"@, why_higher()),
            )
            &&& raises(cfg.total_size_cap_mb, layer.total_size_cap_mb) ==> r.contains(
                refusal(l, "total_size_cap_mb"@, why_higher()),
            )
            &&& lengthens(cfg.step_timeout_secs, layer.step_timeout_secs) ==> r.contains(
                refusal(l, "step_timeout_secs"@, why_higher()),
            )
        }),
{
    let l = origin.text();
    let w = why_higher();
    let c1 = raises(cfg.copy_size_cap_mb, layer.copy_size_cap_mb);
    let c2 = raises(cfg.total_size_cap_mb, layer.total_size_cap_mb);
    let c3 = lengthens(cfg.step_timeout_secs, layer.step_timeout_secs);
    let n1 = noted(c1, l, "copy_size_cap_mb"@, w);
    let n2 = noted(c2, l, "total_size_cap_mb"@, w);
    let n3 = noted(c3, l, "step_timeout_secs"@, w);
    lemma_noted(c1, l, "copy_size_cap_mb"@, w);
    lemma_noted(c2, l, "total_size_cap_mb"@, w);
    lemma_noted(c3, l, "step_timeout_secs"@, w);
    let e = Seq::<Seq<char>>::empty();
    assert forall|x: Seq<char>|
        (n1.contains(x) || n2.contains(x) || n3.contains(x)) implies #[trigger] limit_refusals(
        cfg,
        layer,
        origin,
    ).contains(x) by {
        lemma_in_sum(e, n1, x);
        lemma_in_sum(e + n1, n2, x);
        lemma_in_sum(e + n1 + n2, n3, x);
    }
}

proof fn lemma_env_reported(label: Seq<char>, env: Seq<Pair>, i: int)
    requires
        0 <= i < env.len(),
        !env_allowed(env[i].0),
    ensures
        env_refusals(true, label, env).contains(refusal(label, "env."@ + env[i].0, why_env())),
    decreases env.len(),
{
    let x = refusal(label, "env."@ + env[i].0, why_env());
    let last = noted(!env_allowed(env.last().0), label, "env."@ + env.last().0, why_env());
    lemma_in_sum(env_refusals(true, label, env.drop_last()), last, x);
    if i == env.len() - 1 {
        lemma_noted(!env_allowed(env.last().0), label, "env."@ + env.last().0, why_env());
    } else {
        assert(env.drop_last()[i] == env[i]);
        lemma_env_reported(label, env.drop_last(), i);
    }
}

/// Every setting that is refused from a file of the repository is reported.
pub proof fn law_every_refusal_reported(cfg: ConfigView, layer: LayerView, origin: Origin)
    requires
        origin.repo(),
    ensures
        ({
            let m = merged(cfg, layer, origin);
            &&& layer.focus is Some ==> reported(m, origin, "focus"@, why_host())
            &&& layer.placement is Some ==> reported(m, origin, "placement"@, why_host())
            &&& layer.direction is Some ==> reported(m, origin, "direction"@, why_host())
            &&& layer.trust_repo_steps is Some ==> reported(
                m,
                origin,
                "trust_repo_steps"@,
                why_host(),
            )
            &&& layer.color is Some ==> reported(m, origin, "color"@, why_host())
            &&& layer.mode is Some ==> reported(m, origin, "mode"@, why_host())
            &&& layer.auto_close_secs is Some ==> reported(
                m,
                origin,
                "auto_close_secs"@,
                why_host(),
            )
            &&& layer.install == Some(true) ==> reported(m, origin, "install"@, why_on())
            &&& layer.mise_trust == Some(true) ==> reported(m, origin, "mise_trust"@, why_on())
            &&& layer.direnv_allow == Some(true) ==> reported(m, origin, "direnv_allow"@, why_on())
            &&& layer.use_mise == Some(true) ==> reported(m, origin, "use_mise"@, why_on())
            &&& layer.use_direnv == Some(true) ==> reported(m, origin, "use_direnv"@, why_on())
            &&& raises(cfg.copy_size_cap_mb, layer.copy_size_cap_mb) ==> reported(
                m,
                origin,
                "copy_size_cap_mb"@,
                why_higher(),
            )
            &&& raises(cfg.total_size_cap_mb, layer.total_size_cap_mb) ==> reported(
                m,
                origin,
                "total_size_cap_mb"@,
                why_higher(),
            )
            &&& lengthens(cfg.step_timeout_secs, layer.step_timeout_secs) ==> reported(
                m,
                origin,
                "step_timeout_secs"@,
                why_higher(),
            )
            &&& layer.symlink.len() > 0 ==> reported(m, origin, "symlink"@, why_host())
            &&& forall|i: int|
                0 <= i < layer.env.len() && !env_allowed(#[trigger] layer.env[i].0) ==> reported(
                    m,
                    origin,
                    "env."@ + layer.env[i].0,
                    why_env(),
                )
        }),
{
    let l = origin.text();
    let a = host_refusals(layer, origin);
    let b = switch_refusals(layer, origin);
    let c = limit_refusals(cfg, layer, origin);
    let d = noted(layer.symlink.len() > 0, l, "symlink"@, why_host());
    let e = env_refusals(true, l, layer.env);
    lemma_host_reported(layer, origin);
    lemma_switch_reported(layer, origin);
    lemma_limit_reported(cfg, layer, origin);
    lemma_noted(layer.symlink.len() > 0, l, "symlink"@, why_host());
    let m = merged(cfg, layer, origin);
    assert forall|x: Seq<char>|
        (a.contains(x) || b.contains(x) || c.contains(x) || d.contains(x) || e.contains(
            x,
        )) implies #[trigger] m.warnings.contains(x) by {
        lemma_in_sum(a, b, x);
        lemma_in_sum(a + b, c, x);
        lemma_in_sum(a + b + c, d, x);
        lemma_in_sum(a + b + c + d, e, x);
        lemma_in_sum(cfg.warnings, a + b + c + d + e, x);
    }
    assert forall|i: int|
        0 <= i < layer.env.len() && !env_allowed(#[trigger] layer.env[i].0) implies reported(
        m,
        origin,
        "env."@ + layer.env[i].0,
        why_env(),
    ) by {
        lemma_env_reported(l, layer.env, i);
    }
}

/// The branch being set up configures nothing: whatever config files it
/// carries, the configuration is the same but for the reports on them.
pub proof fn law_branch_configures_nothing(
    config_dir: Seq<char>,
    source: Seq<char>,
    user: LayerRead,
    repo: LayerRead,
    local: LayerRead,
    a: (BranchFile, BranchFile),
    b: (BranchFile, BranchFile),
)
    ensures
        ({
            let x = loaded(config_dir, source, user, repo, local, a.0, a.1);
            let y = loaded(config_dir, source, user, repo, local, b.0, b.1);
            ConfigView { warnings: y.warnings, ..x } == y
        }),
        a.0.ignored() ==> loaded(
            config_dir,
            source,
            user,
            repo,
            local,
            a.0,
            a.1,
        ).warnings.contains(branch_warning(REPO_FILE@, source)),
        a.1.ignored() ==> loaded(
            config_dir,
            source,
            user,
            repo,
            local,
            a.0,
            a.1,
        ).warnings.contains(branch_warning(REPO_LOCAL_FILE@, source)),
{
    let x = loaded(config_dir, source, user, repo, local, a.0, a.1);
    let w = branch_warnings(source, a.0, a.1);
    let n = x.warnings.len() - w.len();
    if a.0.ignored() {
        assert(w[0] == branch_warning(REPO_FILE@, source));
        assert(x.warnings[n] == w[0]);
    }
    if a.1.ignored() {
        assert(w[w.len() - 1] == branch_warning(REPO_LOCAL_FILE@, source));
        assert(x.warnings[x.warnings.len() - 1] == w[w.len() - 1]);
    }
}

/// Each list of a file is added to the list of the same name, whoever wrote the
/// file: afterwards it has a pattern if and only if one of the two had it. Only
/// the symlinks are the user's alone. What was there stays in front, in place.
pub proof fn law_lists_are_united(cfg: ConfigView, layer: LayerView, origin: Origin, x: Seq<char>)
    ensures
        ({
            let m = merged(cfg, layer, origin);
            &&& m.copy.contains(x) <==> cfg.copy.contains(x) || layer.copy.contains(x)
            &&& m.clone.contains(x) <==> cfg.clone.contains(x) || layer.clone.contains(x)
            &&& m.exclude.contains(x) <==> cfg.exclude.contains(x) || layer.exclude.contains(x)
            &&& origin == Origin::User ==> (m.symlink.contains(x) <==> cfg.symlink.contains(x)
                || layer.symlink.contains(x))
            &&& origin == Origin::Repo || origin == Origin::RepoLocal ==> m.symlink == cfg.symlink
            &&& cfg.copy.is_prefix_of(m.copy)
            &&& cfg.clone.is_prefix_of(m.clone)
            &&& cfg.exclude.is_prefix_of(m.exclude)
            &&& cfg.symlink.is_prefix_of(m.symlink)
        }),
{
    law_extended(cfg.copy, layer.copy);
    law_extended(cfg.clone, layer.clone);
    law_extended(cfg.exclude, layer.exclude);
    law_extended(cfg.symlink, layer.symlink);
    let m = merged(cfg, layer, origin);
    assert(extended(cfg.copy, layer.copy).contains(x) == m.copy.contains(x));
    assert(extended(cfg.clone, layer.clone).contains(x) == m.clone.contains(x));
    assert(extended(cfg.exclude, layer.exclude).contains(x) == m.exclude.contains(x));
    assert(extended(cfg.symlink, layer.symlink).contains(x) == (cfg.symlink.contains(x)
        || layer.symlink.contains(x)));
    assert(cfg.symlink =~= cfg.symlink.subrange(0, cfg.symlink.len() as int));
}

/// Where a list holds nothing twice, it does not after it was extended either,
/// and what was new stands behind, in the order of the file.
pub proof fn law_extended_in_order(into: Seq<Seq<char>>, from: Seq<Seq<char>>)
    ensures
        into.no_duplicates() ==> extended(into, from).no_duplicates(),
        forall|p: int, q: int|
            into.len() <= p < q < extended(into, from).len() ==> exists|i: int, j: int|
                0 <= i < j < from.len() && from[i] == #[trigger] extended(into, from)[p] && from[j]
                    == #[trigger] extended(into, from)[q],
        forall|p: int|
            into.len() <= p < extended(into, from).len() ==> from.contains(
                #[trigger] extended(into, from)[p],
            ),
        into.len() <= extended(into, from).len(),
    decreases from.len(),
{
    if from.len() > 0 {
        let front = from.drop_last();
        law_extended_in_order(into, front);
        let r = extended(into, front);
        let e = extended(into, from);
        assert forall|p: int| into.len() <= p < e.len() implies from.contains(#[trigger] e[p]) by {
            if p < r.len() {
                assert(front.contains(r[p]));
                let i = choose|i: int| 0 <= i < front.len() && front[i] == r[p];
                assert(from[i] == e[p]);
            } else {
                assert(from[from.len() - 1] == e[p]);
            }
        }
        assert forall|p: int, q: int| into.len() <= p < q < e.len() implies exists|i: int, j: int|
            0 <= i < j < from.len() && from[i] == #[trigger] e[p] && from[j] == #[trigger] e[q] by {
            if q < r.len() {
                assert(r[p] == e[p] && r[q] == e[q]);
                let (i, j) = choose|i: int, j: int|
                    0 <= i < j < front.len() && front[i] == r[p] && front[j] == r[q];
                assert(from[i] == e[p] && from[j] == e[q]);
            } else {
                assert(front.contains(r[p]));
                let i = choose|i: int| 0 <= i < front.len() && front[i] == r[p];
                assert(from[i] == e[p] && from[from.len() - 1] == e[q]);
            }
        }
    }
}

/// What a file says of a switch, a cap or the time limit takes effect as far as
/// it may. The user's word stands as it is. A repository's turns a switch off, and
/// of two limits the stricter one holds, where no time limit is the least strict.
/// What a file does not mention stays.
pub proof fn law_restrictions_take_effect(cfg: ConfigView, layer: LayerView, origin: Origin)
    ensures
        ({
            let m = merged(cfg, layer, origin);
            let repo = origin == Origin::Repo || origin == Origin::RepoLocal;
            &&& repo ==> {
                &&& m.install == (cfg.install && layer.install != Some(false))
                &&& m.mise_trust == (cfg.mise_trust && layer.mise_trust != Some(false))
                &&& m.direnv_allow == (cfg.direnv_allow && layer.direnv_allow != Some(false))
                &&& m.use_mise == (cfg.use_mise && layer.use_mise != Some(false))
                &&& m.use_direnv == (cfg.use_direnv && layer.use_direnv != Some(false))
                &&& layer.copy_size_cap_mb matches Some(v) ==> m.copy_size_cap_mb as int
                    == vstd::math::min(v as int, cfg.copy_size_cap_mb as int)
                &&& layer.total_size_cap_mb matches Some(v) ==> m.total_size_cap_mb as int
                    == vstd::math::min(v as int, cfg.total_size_cap_mb as int)
                &&& layer.step_timeout_secs matches Some(v) ==> m.step_timeout_secs as int == (if v
                    == 0 {
                    cfg.step_timeout_secs as int
                } else if cfg.step_timeout_secs == 0 {
                    v as int
                } else {
                    vstd::math::min(v as int, cfg.step_timeout_secs as int)
                })
            }
            &&& layer.install is None ==> m.install == cfg.install
            &&& layer.mise_trust is None ==> m.mise_trust == cfg.mise_trust
            &&& layer.direnv_allow is None ==> m.direnv_allow == cfg.direnv_allow
            &&& layer.use_mise is None ==> m.use_mise == cfg.use_mise
            &&& layer.use_direnv is None ==> m.use_direnv == cfg.use_direnv
            &&& layer.copy_size_cap_mb is None ==> m.copy_size_cap_mb == cfg.copy_size_cap_mb
            &&& layer.total_size_cap_mb is None ==> m.total_size_cap_mb == cfg.total_size_cap_mb
            &&& layer.step_timeout_secs is None ==> m.step_timeout_secs == cfg.step_timeout_secs
            &&& layer.focus is None ==> m.focus == cfg.focus
            &&& layer.placement is None ==> m.placement == cfg.placement
            &&& layer.direction is None ==> m.direction == cfg.direction
            &&& layer.trust_repo_steps is None ==> m.trust_repo_steps == cfg.trust_repo_steps
            &&& layer.color is None ==> m.color == cfg.color
            &&& layer.mode is None ==> m.mode == cfg.mode
            &&& layer.auto_close_secs is None ==> m.auto_close_secs == cfg.auto_close_secs
            &&& m.layers == cfg.layers
        }),
{
}

proof fn lemma_taken(env: Seq<Pair>, repo: bool, more: Seq<Pair>, k: Seq<char>)
    requires
        ordered(more),
    ensures
        lookup(put_all(env, env_taken(repo, more)), k) == if lookup(more, k) is Some && (!repo
            || env_allowed(k)) {
            lookup(more, k)
        } else {
            lookup(env, k)
        },
    decreases more.len(),
{
    reveal(Seq::filter);
    if more.len() > 0 {
        let rest = more.drop_last();
        let last = more.last();
        assert(ordered(rest)) by {
            assert forall|i: int, j: int| 0 <= i < j < rest.len() implies text_before(
                #[trigger] rest[i].0,
                #[trigger] rest[j].0,
            ) by {
                assert(rest[i] == more[i] && rest[j] == more[j]);
            }
        }
        lemma_taken(env, repo, rest, k);
        lemma_lookup_last(more, k);
        let taken = env_taken(repo, rest);
        if !repo || env_allowed(last.0) {
            assert(env_taken(repo, more) =~= taken.push(last));
            assert(taken.push(last).drop_last() =~= taken);
            law_lookup_after_put(put_all(env, taken), last.0, last.1, k);
        } else {
            assert(env_taken(repo, more) =~= taken);
        }
    }
}

/// A variable that a file sets has that value afterwards, unless the file is a
/// repository's and may not set it; all others keep theirs.
pub proof fn law_variables_are_merged(
    cfg: ConfigView,
    layer: LayerView,
    origin: Origin,
    k: Seq<char>,
)
    requires
        ordered(layer.env),
    ensures
        ({
            let repo = origin == Origin::Repo || origin == Origin::RepoLocal;
            let now = lookup(merged(cfg, layer, origin).env, k);
            &&& lookup(layer.env, k) is None ==> now == lookup(cfg.env, k)
            &&& lookup(layer.env, k) is Some && (!repo || env_allowed(k)) ==> now == lookup(
                layer.env,
                k,
            )
            &&& repo && !env_allowed(k) ==> now == lookup(cfg.env, k)
        }),
{
    lemma_taken(cfg.env, origin.repo(), layer.env, k);
}

/// Whether two characters are the same letter, be it small or capital, or the same
/// character.
pub open spec fn same_but_case(a: char, b: char) -> bool {
    ||| a == b
    ||| 'a' <= a <= 'z' && b as int == a as int - 32
    ||| 'a' <= b <= 'z' && a as int == b as int - 32
}

/// The case of its letters makes no difference to whether a repository may set a
/// variable.
pub proof fn law_case_makes_no_difference(a: Seq<char>, b: Seq<char>)
    requires
        a.len() == b.len(),
        forall|i: int| 0 <= i < a.len() ==> same_but_case(#[trigger] a[i], b[i]),
    ensures
        env_allowed(a) == env_allowed(b),
{
    assert forall|i: int| 0 <= i < a.len() implies capital(#[trigger] a[i]) == capital(b[i])
        && is_word(a[i]) == is_word(b[i]) && is_letter(a[i]) == is_letter(b[i]) && (a[i] == '_')
        == (b[i] == '_') by {
        assert(same_but_case(a[i], b[i]));
    }
    assert(capitals(a) =~= capitals(b)) by {
        assert forall|i: int| 0 <= i < a.len() implies capitals(a)[i] == capitals(b)[i] by {
            assert(capital(a[i]) == capital(b[i]));
        }
    }
    if variable_name(a) {
        assert forall|i: int| 0 <= i < b.len() implies is_word(#[trigger] b[i]) by {
            assert(is_word(a[i]));
            assert(capital(a[i]) == capital(b[i]));
        }
        assert(capital(a[0]) == capital(b[0]));
    }
    if variable_name(b) {
        assert forall|i: int| 0 <= i < a.len() implies is_word(#[trigger] a[i]) by {
            assert(is_word(b[i]));
            assert(capital(a[i]) == capital(b[i]));
        }
        assert(capital(a[0]) == capital(b[0]));
    }
}

/// A name in capitals, digits and underscores, as variables have.
pub open spec fn capital_name(name: Seq<char>) -> bool {
    &&& name.len() > 0
    &&& !('0' <= name[0] <= '9')
    &&& forall|i: int|
        0 <= i < name.len() ==> ('A' <= #[trigger] name[i] <= 'Z' || '0' <= name[i] <= '9'
            || name[i] == '_')
}

/// A repository may set any variable but those that decide which program runs or
/// put code into it.
pub proof fn law_only_harmful_variables_are_refused(name: Seq<char>)
    requires
        capital_name(name),
    ensures
        env_allowed(name) <==> !(name == "PATH"@ || name == "SHELL"@ || name == "IFS"@ || name
            == "HOME"@ || name == "ENV"@ || name == "BASH_ENV"@ || name == "NODE_OPTIONS"@ || name
            == "PYTHONPATH"@ || name == "PYTHONSTARTUP"@ || name == "PERL5OPT"@ || name
            == "PERL5LIB"@ || name == "RUBYOPT"@ || name == "RUBYLIB"@ || name == "GEM_HOME"@
            || name == "GEM_PATH"@ || name == "PAGER"@ || name == "EDITOR"@ || name == "VISUAL"@
            || "LD_"@.is_prefix_of(name) || "DYLD_"@.is_prefix_of(name) || "GIT_SSH"@.is_prefix_of(
            name,
        ) || "GIT_EXTERNAL_"@.is_prefix_of(name) || "GIT_PROXY"@.is_prefix_of(name)),
{
    assert(capitals(name) =~= name) by {
        assert forall|i: int| 0 <= i < name.len() implies capital(#[trigger] name[i]) == name[i] by {
        }
    }
    assert forall|i: int| 0 <= i < name.len() implies is_word(#[trigger] name[i]) by {
    }
    let d = denied_names();
    if d.contains(name) {
        let i = choose|i: int| 0 <= i < d.len() && d[i] == name;
        assert(d[i] == name);
    }
    assert(d[0] == "PATH"@ && d[1] == "SHELL"@ && d[2] == "IFS"@ && d[3] == "HOME"@ && d[4]
        == "ENV"@ && d[5] == "BASH_ENV"@ && d[6] == "NODE_OPTIONS"@ && d[7] == "PYTHONPATH"@ && d[8]
        == "PYTHONSTARTUP"@ && d[9] == "PERL5OPT"@ && d[10] == "PERL5LIB"@ && d[11] == "RUBYOPT"@
        && d[12] == "RUBYLIB"@ && d[13] == "GEM_HOME"@ && d[14] == "GEM_PATH"@ && d[15] == "PAGER"@
        && d[16] == "EDITOR"@ && d[17] == "VISUAL"@);
    lemma_starts(name, "LD_"@);
    lemma_starts(name, "DYLD_"@);
    lemma_starts(name, "GIT_SSH"@);
    lemma_starts(name, "GIT_EXTERNAL_"@);
    lemma_starts(name, "GIT_PROXY"@);
}

proof fn lemma_starts(s: Seq<char>, p: Seq<char>)
    ensures
        starts(s, p) == p.is_prefix_of(s),
{
    if p.len() <= s.len() {
        assert(s.take(p.len() as int) =~= s.subrange(0, p.len() as int));
    }
}

/// Nothing that is no name of a variable can be set by a repository.
pub proof fn law_odd_names_are_refused(name: Seq<char>, i: int)
    requires
        name.len() == 0 || '0' <= name[0] <= '9' || (0 <= i < name.len() && !('A' <= name[i] <= 'Z'
            || 'a' <= name[i] <= 'z' || '0' <= name[i] <= '9' || name[i] == '_')),
    ensures
        !env_allowed(name),
{
    if variable_name(name) && 0 <= i < name.len() {
        assert(is_word(name[i]));
    }
}

/// The steps of a file come behind those that there are, each as the file has it
/// and known to come from it.
pub proof fn law_steps_are_added(cfg: ConfigView, layer: LayerView, origin: Origin)
    ensures
        ({
            let m = merged(cfg, layer, origin).steps;
            &&& m.len() == cfg.steps.len() + layer.steps.len()
            &&& forall|i: int| 0 <= i < cfg.steps.len() ==> #[trigger] m[i] == cfg.steps[i]
            &&& forall|i: int|
                0 <= i < layer.steps.len() ==> {
                    let s = m[cfg.steps.len() + i];
                    &&& s.name == (#[trigger] layer.steps[i]).name
                    &&& s.run == layer.steps[i].run
                    &&& s.if_path == layer.steps[i].if_path
                    &&& s.continue_on_error == layer.steps[i].continue_on_error
                    &&& s.origin == origin
                }
        }),
{
}

/// A file that says nothing changes nothing.
pub proof fn law_silent_file_changes_nothing(cfg: ConfigView, origin: Origin)
    ensures
        merged(cfg, empty_layer(), origin) == cfg,
{
    reveal(noted);
    let m = merged(cfg, empty_layer(), origin);
    reveal(Seq::filter);
    assert(env_taken(origin.repo(), Seq::<Pair>::empty()) =~= Seq::<Pair>::empty());
    assert(refusals(cfg, empty_layer(), origin) =~= Seq::<Seq<char>>::empty());
    assert(m =~= cfg);
}

/// A file that was read is listed, and merged; one that is not there changes
/// nothing; one that cannot be read or parsed changes no setting, and a
/// repository's is reported by its path and the cause.
pub proof fn law_files_are_merged(cfg: ConfigView, origin: Origin, path: Seq<char>, read: LayerRead)
    ensures
        ({
            let m = file_merged(cfg, origin, path, read);
            let repo = origin == Origin::Repo || origin == Origin::RepoLocal;
            match read {
                LayerRead::Missing => m == cfg,
                LayerRead::Parsed(layer) => {
                    &&& m.layers == cfg.layers.push((origin, path))
                    &&& m == merged(
                        ConfigView { layers: cfg.layers.push((origin, path)), ..cfg },
                        layer@,
                        origin,
                    )
                },
                LayerRead::Unreadable(why) => if repo {
                    &&& m.warnings == cfg.warnings.push(
                        "ignored "@ + path + ": "@ + ("reading "@ + path + ": "@ + why@),
                    )
                    &&& ConfigView { warnings: cfg.warnings, ..m } == cfg
                } else {
                    m == cfg
                },
                LayerRead::Malformed(why) => if repo {
                    &&& m.warnings == cfg.warnings.push(
                        "ignored "@ + path + ": "@ + ("parsing "@ + path + ": "@ + why@),
                    )
                    &&& ConfigView { warnings: cfg.warnings, ..m } == cfg
                } else {
                    m == cfg
                },
            }
        }),
{
}

/// What a config file says of its excludes, if it was read.
pub open spec fn said(read: LayerRead) -> LayerView {
    match read {
        LayerRead::Parsed(layer) => layer@,
        _ => empty_layer(),
    }
}

/// Whether a file turns a switch off.
pub open spec fn off(said: Option<bool>) -> bool {
    said == Some(false)
}

proof fn lemma_file_counts(
    cfg: ConfigView,
    origin: Origin,
    path: Seq<char>,
    read: LayerRead,
    x: Seq<char>,
)
    requires
        origin == Origin::User || origin == Origin::Repo || origin == Origin::RepoLocal,
    ensures
        ({
            let m = file_merged(cfg, origin, path, read);
            let s = said(read);
            let user = origin == Origin::User;
            &&& m.copy.contains(x) <==> cfg.copy.contains(x) || s.copy.contains(x)
            &&& m.clone.contains(x) <==> cfg.clone.contains(x) || s.clone.contains(x)
            &&& m.exclude.contains(x) <==> cfg.exclude.contains(x) || s.exclude.contains(x)
            &&& m.symlink.contains(x) <==> cfg.symlink.contains(x) || (user && s.symlink.contains(
                x,
            ))
            &&& m.steps.len() == cfg.steps.len() + s.steps.len()
        }),
{
    match read {
        LayerRead::Parsed(layer) => {
            let c = ConfigView { layers: cfg.layers.push((origin, path)), ..cfg };
            law_lists_are_united(c, layer@, origin, x);
            law_steps_are_added(c, layer@, origin);
        },
        _ => {},
    }
}

proof fn lemma_file_switches(cfg: ConfigView, origin: Origin, path: Seq<char>, read: LayerRead)
    requires
        origin == Origin::User || origin == Origin::Repo || origin == Origin::RepoLocal,
    ensures
        ({
            let m = file_merged(cfg, origin, path, read);
            let s = said(read);
            let user = origin == Origin::User;
            &&& user && cfg.install || !user ==> m.install == (cfg.install && !off(s.install))
            &&& user && cfg.mise_trust || !user ==> m.mise_trust == (cfg.mise_trust && !off(
                s.mise_trust,
            ))
            &&& user && cfg.direnv_allow || !user ==> m.direnv_allow == (cfg.direnv_allow && !off(
                s.direnv_allow,
            ))
            &&& user && cfg.use_mise || !user ==> m.use_mise == (cfg.use_mise && !off(s.use_mise))
            &&& user && cfg.use_direnv || !user ==> m.use_direnv == (cfg.use_direnv && !off(
                s.use_direnv,
            ))
            &&& user && cfg.trust_repo_steps ==> m.trust_repo_steps == !off(s.trust_repo_steps)
            &&& user && cfg.color ==> m.color == !off(s.color)
            &&& user && cfg.focus ==> m.focus == !off(s.focus)
            &&& !user ==> m.trust_repo_steps == cfg.trust_repo_steps
            &&& !user ==> m.color == cfg.color
            &&& !user ==> m.focus == cfg.focus
        }),
{
    match read {
        LayerRead::Parsed(layer) => {
            let c = ConfigView { layers: cfg.layers.push((origin, path)), ..cfg };
            law_restrictions_take_effect(c, layer@, origin);
            if origin == Origin::User {
                law_user_sets_anything(c, layer@);
            } else {
                law_repo_only_restricts(c, layer@, origin);
            }
        },
        _ => {},
    }
}

/// All three files count, and the defaults do: a pattern is in a list of a run if
/// and only if one of them has it there, and every step of every file is a step of
/// the run.
#[verifier::rlimit(50)]
pub proof fn law_every_file_counts(
    config_dir: Seq<char>,
    source: Seq<char>,
    user: LayerRead,
    repo: LayerRead,
    local: LayerRead,
    a: BranchFile,
    b: BranchFile,
    x: Seq<char>,
)
    ensures
        ({
            let cfg = loaded(config_dir, source, user, repo, local, a, b);
            let d = default_config();
            let u = said(user);
            let r = said(repo);
            let l = said(local);
            &&& cfg.copy.contains(x) <==> d.copy.contains(x) || u.copy.contains(x)
                || r.copy.contains(x) || l.copy.contains(x)
            &&& cfg.clone.contains(x) <==> d.clone.contains(x) || u.clone.contains(x)
                || r.clone.contains(x) || l.clone.contains(x)
            &&& cfg.exclude.contains(x) <==> d.exclude.contains(x) || u.exclude.contains(x)
                || r.exclude.contains(x) || l.exclude.contains(x)
            &&& cfg.symlink.contains(x) <==> d.symlink.contains(x) || u.symlink.contains(x)
            &&& cfg.steps.len() == u.steps.len() + r.steps.len() + l.steps.len()
        }),
{
    let p = joined(config_dir, USER_FILE@);
    let q = joined(source, REPO_FILE@);
    let s = joined(source, REPO_LOCAL_FILE@);
    let m1 = file_merged(default_config(), Origin::User, p, user);
    let m2 = file_merged(m1, Origin::Repo, q, repo);
    lemma_file_counts(default_config(), Origin::User, p, user, x);
    lemma_file_counts(m1, Origin::Repo, q, repo, x);
    lemma_file_counts(m2, Origin::RepoLocal, s, local, x);
}

/// Anything is on unless a file turns it off: the user's or, for what a repository
/// may restrict, one of the repository's.
#[verifier::rlimit(50)]
pub proof fn law_any_file_turns_off(
    config_dir: Seq<char>,
    source: Seq<char>,
    user: LayerRead,
    repo: LayerRead,
    local: LayerRead,
    a: BranchFile,
    b: BranchFile,
)
    ensures
        ({
            let cfg = loaded(config_dir, source, user, repo, local, a, b);
            let u = said(user);
            let r = said(repo);
            let l = said(local);
            &&& cfg.install == !(off(u.install) || off(r.install) || off(l.install))
            &&& cfg.mise_trust == !(off(u.mise_trust) || off(r.mise_trust) || off(l.mise_trust))
            &&& cfg.direnv_allow == !(off(u.direnv_allow) || off(r.direnv_allow) || off(
                l.direnv_allow,
            ))
            &&& cfg.use_mise == !(off(u.use_mise) || off(r.use_mise) || off(l.use_mise))
            &&& cfg.use_direnv == !(off(u.use_direnv) || off(r.use_direnv) || off(l.use_direnv))
            &&& cfg.trust_repo_steps == !off(u.trust_repo_steps)
            &&& cfg.color == !off(u.color)
            &&& cfg.focus == !off(u.focus)
        }),
{
    let p = joined(config_dir, USER_FILE@);
    let q = joined(source, REPO_FILE@);
    let s = joined(source, REPO_LOCAL_FILE@);
    let m1 = file_merged(default_config(), Origin::User, p, user);
    let m2 = file_merged(m1, Origin::Repo, q, repo);
    lemma_file_switches(default_config(), Origin::User, p, user);
    lemma_file_switches(m1, Origin::Repo, q, repo);
    lemma_file_switches(m2, Origin::RepoLocal, s, local);
}

/// A config file of the branch is reported where it is there and is not known to
/// be the one of the source checkout, byte for byte; otherwise nothing is.
pub proof fn law_differing_branch_files_are_reported(source: Seq<char>, a: BranchFile, b: BranchFile)
    ensures
        ({
            let w = branch_warnings(source, a, b);
            let equal_a = a.branch is Some && a.source is Some && a.branch->0@ == a.source->0@;
            let equal_b = b.branch is Some && b.source is Some && b.branch->0@ == b.source->0@;
            let told_a = a.present && !equal_a;
            let told_b = b.present && !equal_b;
            &&& told_a ==> w.len() > 0 && w[0] == "ignored "@ + ".herdr-worktree.toml"@
                + " from the worktree: configuration is read from "@ + source
                + " (the branch does not get to configure its own setup)"@
            &&& told_b ==> w.len() > 0 && w.last() == "ignored "@ + ".herdr-worktree.local.toml"@
                + " from the worktree: configuration is read from "@ + source
                + " (the branch does not get to configure its own setup)"@
            &&& w.len() == (if told_a {
                1int
            } else {
                0
            }) + (if told_b {
                1int
            } else {
                0
            })
        }),
{
}

/// A megabyte is 1024 times 1024 bytes; a cap that cannot be counted is the
/// greatest number there is.
pub proof fn law_caps_count_megabytes(mb: u64)
    ensures
        mb * 1024 * 1024 <= u64::MAX ==> cap_bytes(mb) == mb * 1024 * 1024,
        mb * 1024 * 1024 > u64::MAX ==> cap_bytes(mb) == u64::MAX,
{
    assert(mb * 1024 * 1024 == mb * 1048576);
}

/// Without any file, a setup copies by reflink, installs, trusts and allows what the
/// worktree has, in a split below that takes the focus; it bounds what is really
/// copied and how long a step may take, and closes its pane soon after. Nothing is a
/// symlink, and nothing is set or added.
pub proof fn law_default_configuration()
    ensures
        ({
            let c = default_config();
            &&& c.auto_close_secs == 5 && c.step_timeout_secs == 1800
            &&& c.copy_size_cap_mb == 2048 && c.total_size_cap_mb == 8192
            &&& c.focus && c.placement == Placement::Split && c.direction == Direction::Down
            &&& c.install && c.mode == CloneMode::Reflink && c.color
            &&& c.mise_trust && c.direnv_allow && c.use_mise && c.use_direnv && c.trust_repo_steps
            &&& c.symlink.len() == 0 && c.env.len() == 0 && c.steps.len() == 0
            &&& c.layers.len() == 0 && c.warnings.len() == 0
        }),
{
}

/// What is copied without any file: local settings, secrets and editor state.
pub proof fn law_copied_by_default(p: Seq<char>)
    ensures
        default_config().copy.contains(p) <==> {
            ||| p == ".env"@
            ||| p == ".env.*"@
            ||| p == ".envrc"@
            ||| p == ".envrc.local"@
            ||| p == ".dev.vars"@
            ||| p == ".flaskenv"@
            ||| p == ".mise.local.toml"@
            ||| p == "mise.local.toml"@
            ||| p == ".tool-versions"@
            ||| p == ".npmrc"@
            ||| p == "*.local.json"@
            ||| p == "*.local.toml"@
            ||| p == "*.local.yaml"@
            ||| p == "*.local.yml"@
            ||| p == "docker-compose.override.yml"@
            ||| p == "docker-compose.override.yaml"@
            ||| p == ".vercel/"@
            ||| p == ".wrangler/"@
            ||| p == ".vscode/"@
            ||| p == ".idea/"@
            ||| p == "local.properties"@
            ||| p == ".herdr-worktree.local.toml"@
        },
{
    let all = default_copy();
    assert(all[0] == ".env"@);
    assert(all[1] == ".env.*"@);
    assert(all[2] == ".envrc"@);
    assert(all[3] == ".envrc.local"@);
    assert(all[4] == ".dev.vars"@);
    assert(all[5] == ".flaskenv"@);
    assert(all[6] == ".mise.local.toml"@);
    assert(all[7] == "mise.local.toml"@);
    assert(all[8] == ".tool-versions"@);
    assert(all[9] == ".npmrc"@);
    assert(all[10] == "*.local.json"@);
    assert(all[11] == "*.local.toml"@);
    assert(all[12] == "*.local.yaml"@);
    assert(all[13] == "*.local.yml"@);
    assert(all[14] == "docker-compose.override.yml"@);
    assert(all[15] == "docker-compose.override.yaml"@);
    assert(all[16] == ".vercel/"@);
    assert(all[17] == ".wrangler/"@);
    assert(all[18] == ".vscode/"@);
    assert(all[19] == ".idea/"@);
    assert(all[20] == "local.properties"@);
    assert(all[21] == ".herdr-worktree.local.toml"@);
}

/// What is cloned without any file: dependencies and build caches.
pub proof fn law_cloned_by_default(p: Seq<char>)
    ensures
        default_config().clone.contains(p) <==> {
            ||| p == "node_modules/"@
            ||| p == ".venv/"@
            ||| p == "venv/"@
            ||| p == "target/"@
            ||| p == ".next/cache/"@
            ||| p == ".turbo/"@
            ||| p == ".cache/"@
            ||| p == ".parcel-cache/"@
            ||| p == ".yarn/cache/"@
            ||| p == ".gradle/"@
            ||| p == "vendor/bundle/"@
            ||| p == "vendor/"@
            ||| p == "_build/"@
            ||| p == "deps/"@
            ||| p == ".dart_tool/"@
            ||| p == "Pods/"@
            ||| p == ".build/"@
            ||| p == ".zig-cache/"@
            ||| p == ".mypy_cache/"@
            ||| p == ".ruff_cache/"@
        },
{
    let all = default_clone();
    assert(all[0] == "node_modules/"@);
    assert(all[1] == ".venv/"@);
    assert(all[2] == "venv/"@);
    assert(all[3] == "target/"@);
    assert(all[4] == ".next/cache/"@);
    assert(all[5] == ".turbo/"@);
    assert(all[6] == ".cache/"@);
    assert(all[7] == ".parcel-cache/"@);
    assert(all[8] == ".yarn/cache/"@);
    assert(all[9] == ".gradle/"@);
    assert(all[10] == "vendor/bundle/"@);
    assert(all[11] == "vendor/"@);
    assert(all[12] == "_build/"@);
    assert(all[13] == "deps/"@);
    assert(all[14] == ".dart_tool/"@);
    assert(all[15] == "Pods/"@);
    assert(all[16] == ".build/"@);
    assert(all[17] == ".zig-cache/"@);
    assert(all[18] == ".mypy_cache/"@);
    assert(all[19] == ".ruff_cache/"@);
}

/// What is excluded without any file: repositories, outputs, templates and what
/// belongs to a running process.
pub proof fn law_excluded_by_default(p: Seq<char>)
    ensures
        default_config().exclude.contains(p) <==> {
            ||| p == ".git/"@
            ||| p == ".direnv/"@
            ||| p == ".turbo/daemon/"@
            ||| p == "dist/"@
            ||| p == "build/"@
            ||| p == "out/"@
            ||| p == "coverage/"@
            ||| p == "tmp/"@
            ||| p == ".next/"@
            ||| p == ".env.example"@
            ||| p == ".env.sample"@
            ||| p == ".env.template"@
            ||| p == ".env.dist"@
            ||| p == ".env.*.example"@
            ||| p == ".env.*.sample"@
            ||| p == "*.log"@
            ||| p == "*.pid"@
            ||| p == "*.sock"@
            ||| p == ".DS_Store"@
        },
{
    let all = default_exclude();
    assert(all[0] == ".git/"@);
    assert(all[1] == ".direnv/"@);
    assert(all[2] == ".turbo/daemon/"@);
    assert(all[3] == "dist/"@);
    assert(all[4] == "build/"@);
    assert(all[5] == "out/"@);
    assert(all[6] == "coverage/"@);
    assert(all[7] == "tmp/"@);
    assert(all[8] == ".next/"@);
    assert(all[9] == ".env.example"@);
    assert(all[10] == ".env.sample"@);
    assert(all[11] == ".env.template"@);
    assert(all[12] == ".env.dist"@);
    assert(all[13] == ".env.*.example"@);
    assert(all[14] == ".env.*.sample"@);
    assert(all[15] == "*.log"@);
    assert(all[16] == "*.pid"@);
    assert(all[17] == "*.sock"@);
    assert(all[18] == ".DS_Store"@);
}

/// A file that cannot be read or parsed is reported with its path and the reason,
/// and no other is. One of the repository only leaves a warning.
pub proof fn law_unreadable_files_are_reported(
    cfg: ConfigView,
    origin: Origin,
    path: Seq<char>,
    why: String,
    layer: ConfigLayer,
)
    ensures
        read_failure(path, LayerRead::Unreadable(why)) == Some("reading "@ + path + ": "@ + why@),
        read_failure(path, LayerRead::Malformed(why)) == Some("parsing "@ + path + ": "@ + why@),
        read_failure(path, LayerRead::Missing) is None,
        read_failure(path, LayerRead::Parsed(layer)) is None,
        file_merged(cfg, origin, path, LayerRead::Missing) == cfg,
        origin == Origin::Repo || origin == Origin::RepoLocal ==> file_merged(
            cfg,
            origin,
            path,
            LayerRead::Malformed(why),
        ) == (ConfigView {
            warnings: cfg.warnings.push(
                "ignored "@ + path + ": "@ + ("parsing "@ + path + ": "@ + why@),
            ),
            ..cfg
        }),
{
}

/// What a file does not say stays as it is, whatever else it says and whoever wrote
/// it.
pub proof fn law_unsaid_settings_stay(cfg: ConfigView, layer: LayerView, origin: Origin)
    ensures
        ({
            let m = merged(cfg, layer, origin);
            &&& layer.focus is None ==> m.focus == cfg.focus
            &&& layer.placement is None ==> m.placement == cfg.placement
            &&& layer.direction is None ==> m.direction == cfg.direction
            &&& layer.trust_repo_steps is None ==> m.trust_repo_steps == cfg.trust_repo_steps
            &&& layer.color is None ==> m.color == cfg.color
            &&& layer.mode is None ==> m.mode == cfg.mode
            &&& layer.auto_close_secs is None ==> m.auto_close_secs == cfg.auto_close_secs
            &&& layer.install is None ==> m.install == cfg.install
            &&& layer.mise_trust is None ==> m.mise_trust == cfg.mise_trust
            &&& layer.direnv_allow is None ==> m.direnv_allow == cfg.direnv_allow
            &&& layer.use_mise is None ==> m.use_mise == cfg.use_mise
            &&& layer.use_direnv is None ==> m.use_direnv == cfg.use_direnv
            &&& layer.copy_size_cap_mb is None ==> m.copy_size_cap_mb == cfg.copy_size_cap_mb
            &&& layer.total_size_cap_mb is None ==> m.total_size_cap_mb == cfg.total_size_cap_mb
            &&& layer.step_timeout_secs is None ==> m.step_timeout_secs == cfg.step_timeout_secs
            &&& m.layers == cfg.layers
        }),
{
}

/// A file of the repository that asks for nothing that it may not have leaves no
/// warning.
pub proof fn law_modest_files_leave_no_warning(cfg: ConfigView, layer: LayerView, origin: Origin)
    requires
        layer.focus is None,
        layer.placement is None,
        layer.direction is None,
        layer.trust_repo_steps is None,
        layer.color is None,
        layer.mode is None,
        layer.auto_close_secs is None,
        layer.install != Some(true),
        layer.mise_trust != Some(true),
        layer.direnv_allow != Some(true),
        layer.use_mise != Some(true),
        layer.use_direnv != Some(true),
        layer.copy_size_cap_mb matches Some(n) ==> n <= cfg.copy_size_cap_mb,
        layer.total_size_cap_mb matches Some(n) ==> n <= cfg.total_size_cap_mb,
        layer.step_timeout_secs matches Some(n) ==> cfg.step_timeout_secs == 0 || (0 < n
            <= cfg.step_timeout_secs),
        layer.symlink.len() == 0,
        layer.env.len() == 0,
    ensures
        merged(cfg, layer, origin).warnings == cfg.warnings,
{
    reveal(noted);
    assert(refusals(cfg, layer, origin) =~= Seq::<Seq<char>>::empty());
    assert(merged(cfg, layer, origin).warnings =~= cfg.warnings);
}

/// A setting that is refused is reported with the file that asked for it, its name
/// and the reason.
pub proof fn law_refusals_say_what_and_why(name: Seq<char>, why: Seq<char>)
    ensures
        refusal(Origin::Repo.text(), name, why) == ".herdr-worktree.toml"@ + ": `"@ + name + "` "@
            + why + "; ignored"@,
        refusal(Origin::RepoLocal.text(), name, why) == ".herdr-worktree.local.toml"@ + ": `"@ + name
            + "` "@ + why + "; ignored"@,
        why_host() == "can only be set in the user config"@,
        why_on() == "can only be disabled by a repo config"@,
        why_higher() == "can only be lowered by a repo config"@,
        why_env() == "selects or injects into the program that runs"@,
{
}

} // verus!
