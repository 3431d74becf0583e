//! gitignore-flavoured pattern sets and the classification order
//! exclude → symlink → clone → copy.
//!
//! A trailing `/` matches directories only; a leading `/` anchors at the
//! checkout root; otherwise a pattern matches at any depth. `*` never crosses
//! a `/`.

use vstd::prelude::*;
use vstd::string::*;
use crate::config::Config;
use crate::pieces::lemma_filtered;
use crate::text::{
    chars_of, ends_with_char, glue, has_char, is_space, law_trimmed, lemma_texts_push, only,
    starts, starts_with, string_of, texts, trim, trim_end, trim_end_char, trim_prefixes,
    trim_start, trim_start_char, trimmed, without_leading, without_prefixes, without_trailing,
};

verus! {

// --- globset -----------------------------------------------------------------

#[verifier::external_type_specification]
#[verifier::external_body]
pub struct ExGlobSetBuilder(globset::GlobSetBuilder);

#[verifier::external_type_specification]
#[verifier::external_body]
pub struct ExGlobSet(globset::GlobSet);

/// A glob as it is given to `globset`: its text, and whether `*` and `?` stop
/// at a `/`.
pub type GlobKey = (Seq<char>, bool);

/// What `globset` has against a glob, where it does not accept it.
pub uninterp spec fn glob_error(glob: Seq<char>, literal_separator: bool) -> Option<Seq<char>>;

/// Whether `globset` refuses to make a set of globs that it accepts one by one.
pub uninterp spec fn glob_set_refused(globs: Seq<GlobKey>) -> bool;

/// Whether a path matches a glob.
pub uninterp spec fn glob_matches(glob: Seq<char>, literal_separator: bool, path: Seq<char>) -> bool;

/// The globs that a builder holds, in the order in which they were added.
pub uninterp spec fn builder_globs(b: globset::GlobSetBuilder) -> Seq<GlobKey>;

/// The globs that a set holds, in the order in which they were added.
pub uninterp spec fn set_globs(s: globset::GlobSet) -> Seq<GlobKey>;

/// `globset::GlobSetBuilder::new` gives a builder that holds no glob.
#[verifier::external_body]
fn new_builder() -> (r: globset::GlobSetBuilder)
    ensures
        builder_globs(r) == Seq::<GlobKey>::empty(),
{
    globset::GlobSetBuilder::new()
}

/// `globset::GlobBuilder::build` either accepts a glob, which
/// `globset::GlobSetBuilder::add` then puts behind those of the builder, or says
/// what it has against it and the builder stays as it was.
#[verifier::external_body]
fn add_glob(
    builder: &mut globset::GlobSetBuilder,
    glob: &str,
    literal_separator: bool,
) -> (r: Result<(), String>)
    ensures
        match r {
            Ok(_) => glob_error(glob@, literal_separator) is None && builder_globs(*final(builder))
                == builder_globs(*old(builder)).push((glob@, literal_separator)),
            Err(e) => glob_error(glob@, literal_separator) == Some(e@) && builder_globs(
                *final(builder),
            ) == builder_globs(*old(builder)),
        },
{
    match globset::GlobBuilder::new(glob).literal_separator(literal_separator).build() {
        Ok(g) => {
            builder.add(g);
            Ok(())
        },
        Err(e) => Err(e.to_string()),
    }
}

/// `globset::GlobSetBuilder::build` makes a set of the globs of the builder, or
/// refuses to. Of no glob it always makes a set. What it says where it refuses is
/// left open: it is about one of the globs that it walks in no fixed order.
#[verifier::external_body]
fn build_set(builder: &globset::GlobSetBuilder) -> (r: Result<globset::GlobSet, String>)
    ensures
        match r {
            Ok(s) => !glob_set_refused(builder_globs(*builder)) && set_globs(s) == builder_globs(
                *builder,
            ),
            Err(_) => glob_set_refused(builder_globs(*builder)),
        },
        builder_globs(*builder).len() == 0 ==> r is Ok,
{
    builder.build().map_err(|e| e.to_string())
}

/// `globset::GlobSet::matches` gives the positions of all globs of the set that
/// match the path, in ascending order and each once.
#[verifier::external_body]
fn set_matches(set: &globset::GlobSet, path: &str) -> (r: Vec<usize>)
    ensures
        forall|k: int|
            0 <= k < r@.len() ==> (#[trigger] r@[k]) < set_globs(*set).len() && glob_matches(
                set_globs(*set)[r@[k] as int].0,
                set_globs(*set)[r@[k] as int].1,
                path@,
            ),
        forall|i: int|
            0 <= i < set_globs(*set).len() && glob_matches(
                (#[trigger] set_globs(*set)[i]).0,
                set_globs(*set)[i].1,
                path@,
            ) ==> exists|k: int| 0 <= k < r@.len() && #[trigger] r@[k] == i,
        forall|j: int, k: int| 0 <= j < k < r@.len() ==> r@[j] < r@[k],
{
    set.matches(path)
}

// --- patterns ----------------------------------------------------------------

/// What becomes of a path that a pattern matches.
#[derive(Debug, Clone, Copy, PartialEq, Eq, Structural)]
pub enum Action {
    Exclude,
    Symlink,
    Clone,
    Copy,
}

/// A pattern: its glob, and whether it matches directories only.
pub type Pattern = (Seq<char>, bool);

/// The pattern that a line stands for, if any: blank lines and comments stand
/// for none.
pub open spec fn pattern_of(line: Seq<char>) -> Option<Pattern> {
    let p = trimmed(line);
    let q = without_trailing(p, '/');
    if p.len() == 0 || p[0] == '#' || q.len() == 0 {
        None
    } else {
        let glob = if q[0] == '/' {
            q.skip(1)
        } else if starts(q, "**/"@) {
            q
        } else {
            "**/"@ + q
        };
        Some((glob, p.last() == '/'))
    }
}

/// The patterns that some lines stand for, in order.
pub open spec fn patterns_of(lines: Seq<Seq<char>>) -> Seq<Pattern>
    decreases lines.len(),
{
    if lines.len() == 0 {
        Seq::empty()
    } else {
        let r = patterns_of(lines.drop_last());
        match pattern_of(lines.last()) {
            Some(p) => r.push(p),
            None => r,
        }
    }
}

/// The globs of some patterns.
pub open spec fn globs_of(patterns: Seq<Pattern>) -> Seq<GlobKey> {
    Seq::new(patterns.len(), |i: int| (patterns[i].0, true))
}

/// How a glob that is not accepted is reported.
pub open spec fn invalid_pattern(glob: Seq<char>, err: Seq<char>) -> Seq<char> {
    "invalid pattern `"@ + glob + "`: "@ + err
}

/// The report on the first of some lines whose glob is not accepted.
pub open spec fn first_invalid(lines: Seq<Seq<char>>) -> Option<Seq<char>>
    decreases lines.len(),
{
    if lines.len() == 0 {
        None
    } else {
        match first_invalid(lines.drop_last()) {
            Some(e) => Some(e),
            None => match pattern_of(lines.last()) {
                Some(p) => match glob_error(p.0, true) {
                    Some(e) => Some(invalid_pattern(p.0, e)),
                    None => None,
                },
                None => None,
            },
        }
    }
}

/// Why some lines make no pattern set.
#[verifier::ext_equal]
pub enum Fault {
    /// The glob of a line is not accepted; this is the report on it.
    Line(Seq<char>),
    /// Each glob is accepted, but no set can be made of them. The report is in the
    /// words of `globset`, which are left open.
    Together,
}

/// Why some lines make no pattern set, where they make none.
pub open spec fn lines_fault(lines: Seq<Seq<char>>) -> Option<Fault> {
    match first_invalid(lines) {
        Some(e) => Some(Fault::Line(e)),
        None => if glob_set_refused(globs_of(patterns_of(lines))) {
            Some(Fault::Together)
        } else {
            None
        },
    }
}

/// Whether a text reports a fault.
pub open spec fn reports(text: Seq<char>, fault: Fault) -> bool {
    match fault {
        Fault::Line(e) => text == e,
        Fault::Together => true,
    }
}

/// Whether a text reports a fault behind some words.
pub open spec fn reports_behind(text: Seq<char>, words: Seq<char>, fault: Fault) -> bool {
    starts(text, words) && reports(text.skip(words.len() as int), fault)
}

/// Whether one of the patterns matches a path.
pub open spec fn any_match(patterns: Seq<Pattern>, path: Seq<char>, is_dir: bool) -> bool {
    exists|i: int|
        0 <= i < patterns.len() && glob_matches((#[trigger] patterns[i]).0, true, path) && (is_dir
            || !patterns[i].1)
}

/// `(glob, dir_only)` for a user pattern, or `None` for blank/comment lines.
pub fn normalize(pattern: &str) -> (r: Option<(String, bool)>)
    ensures
        match r {
            Some(p) => pattern_of(pattern@) == Some((p.0@, p.1)),
            None => pattern_of(pattern@) is None,
        },
{
    let p = trim(pattern);
    let pc = chars_of(p.as_str());
    if pc.len() == 0 || pc[0] == '#' {
        return None;
    }
    let dir_only = ends_with_char(p.as_str(), '/');
    let q = trim_end_char(p.as_str(), '/');
    let qc = chars_of(q.as_str());
    if qc.len() == 0 {
        return None;
    }
    let glob = if qc[0] == '/' {
        assert(qc@.subrange(1, qc@.len() as int) =~= q@.skip(1));
        string_of(&qc, 1, qc.len())
    } else if starts_with(q.as_str(), "**/") {
        q
    } else {
        glue("**/", q.as_str())
    };
    Some((glob, dir_only))
}

/// Patterns that can be held against a path.
#[derive(Debug)]
pub struct PatternSet {
    set: globset::GlobSet,
    dir_only: Vec<bool>,
}

impl View for PatternSet {
    type V = Seq<Pattern>;

    closed spec fn view(&self) -> Seq<Pattern> {
        Seq::new(self.dir_only@.len(), |i: int| (set_globs(self.set)[i].0, self.dir_only@[i]))
    }
}

/// Hand a glob to the builder, and report it where it is not accepted.
fn build_glob(builder: &mut globset::GlobSetBuilder, glob: &str) -> (r: Result<(), String>)
    ensures
        match r {
            Ok(_) => glob_error(glob@, true) is None && builder_globs(*final(builder))
                == builder_globs(*old(builder)).push((glob@, true)),
            Err(e) => glob_error(glob@, true) is Some && e@ == invalid_pattern(
                glob@,
                glob_error(glob@, true)->0,
            ),
        },
{
    match add_glob(builder, glob, true) {
        Ok(_) => Ok(()),
        Err(e) => {
            let mut out = glue("invalid pattern `", glob);
            out.append("`: ");
            out.append(e.as_str());
            Err(out)
        },
    }
}

impl PatternSet {
    #[verifier::type_invariant]
    spec fn aligned(self) -> bool {
        &&& set_globs(self.set).len() == self.dir_only@.len()
        &&& forall|i: int| 0 <= i < self.dir_only@.len() ==> (#[trigger] set_globs(self.set)[i]).1
    }

    /// The set of the patterns that some lines stand for.
    pub fn build(patterns: &[String]) -> (r: Result<PatternSet, String>)
        ensures
            match r {
                Ok(s) => lines_fault(texts(patterns@)) is None && s@ == patterns_of(
                    texts(patterns@),
                ),
                Err(e) => lines_fault(texts(patterns@)) matches Some(f) && reports(e@, f),
            },
            patterns_of(texts(patterns@)).len() == 0 ==> r is Ok,
    {
        let mut builder = new_builder();
        let mut dir_only: Vec<bool> = Vec::new();
        let ghost lines = texts(patterns@);
        let mut i: usize = 0;
        assert(lines.take(0) =~= Seq::empty());
        assert(builder_globs(builder) =~= globs_of(patterns_of(lines.take(0))));
        while i < patterns.len()
            invariant
                i <= patterns.len(),
                lines == texts(patterns@),
                builder_globs(builder) == globs_of(patterns_of(lines.take(i as int))),
                dir_only@.len() == patterns_of(lines.take(i as int)).len(),
                forall|k: int|
                    0 <= k < dir_only@.len() ==> (#[trigger] dir_only@[k]) == patterns_of(
                        lines.take(i as int),
                    )[k].1,
                first_invalid(lines.take(i as int)) is None,
            decreases patterns.len() - i,
        {
            let ghost now = lines.take(i + 1);
            proof {
                assert(now.drop_last() =~= lines.take(i as int));
                assert(now.last() == patterns@[i as int]@);
                lemma_first_invalid(lines, i + 1);
                lemma_patterns_grow(lines, i + 1);
            }
            match normalize(patterns[i].as_str()) {
                Some((glob, dir)) => {
                    match build_glob(&mut builder, glob.as_str()) {
                        Ok(_) => {},
                        Err(e) => {
                            return Err(e);
                        },
                    }
                    dir_only.push(dir);
                    assert(builder_globs(builder) =~= globs_of(patterns_of(now)));
                },
                None => {},
            }
            i += 1;
        }
        assert(lines.take(i as int) =~= lines);
        match build_set(&builder) {
            Ok(set) => {
                let r = PatternSet { set, dir_only };
                assert(r@ =~= patterns_of(lines));
                Ok(r)
            },
            Err(e) => Err(e),
        }
    }

    /// Whether a pattern of the set matches a path.
    pub fn matches(&self, rel: &str, is_dir: bool) -> (r: bool)
        ensures
            r == any_match(self@, rel@, is_dir),
    {
        proof {
            use_type_invariant(self);
        }
        let found = set_matches(&self.set, rel);
        let mut k: usize = 0;
        while k < found.len()
            invariant
                k <= found.len(),
                set_globs(self.set).len() == self.dir_only@.len(),
                forall|i: int|
                    0 <= i < self.dir_only@.len() ==> (#[trigger] set_globs(self.set)[i]).1,
                forall|j: int|
                    0 <= j < found@.len() ==> (#[trigger] found@[j]) < set_globs(self.set).len()
                        && glob_matches(
                        set_globs(self.set)[found@[j] as int].0,
                        set_globs(self.set)[found@[j] as int].1,
                        rel@,
                    ),
                forall|j: int| 0 <= j < k ==> !is_dir && self.dir_only@[(#[trigger] found@[j]) as int],
            decreases found.len() - k,
        {
            let i: usize = found[k];
            assert(set_globs(self.set)[i as int].1);
            if is_dir || !self.dir_only[i] {
                assert(self@[i as int].0 == set_globs(self.set)[i as int].0);
                return true;
            }
            k += 1;
        }
        assert forall|i: int|
            0 <= i < self@.len() && glob_matches((#[trigger] self@[i]).0, true, rel@) implies !(
        is_dir || !self@[i].1) by {
            assert(set_globs(self.set)[i].1);
            assert(glob_matches(set_globs(self.set)[i].0, set_globs(self.set)[i].1, rel@));
        }
        false
    }
}

proof fn lemma_first_invalid(lines: Seq<Seq<char>>, n: int)
    requires
        0 <= n <= lines.len(),
    ensures
        first_invalid(lines.take(n)) is Some ==> first_invalid(lines) == first_invalid(
            lines.take(n),
        ),
    decreases lines.len() - n,
{
    if n == lines.len() {
        assert(lines.take(n) =~= lines);
    } else {
        let longer = lines.take(n + 1);
        assert(longer.drop_last() =~= lines.take(n));
        lemma_first_invalid(lines, n + 1);
    }
}

proof fn lemma_patterns_grow(lines: Seq<Seq<char>>, n: int)
    requires
        0 <= n <= lines.len(),
    ensures
        patterns_of(lines.take(n)).len() <= patterns_of(lines).len(),
    decreases lines.len() - n,
{
    if n == lines.len() {
        assert(lines.take(n) =~= lines);
    } else {
        let longer = lines.take(n + 1);
        assert(longer.drop_last() =~= lines.take(n));
        lemma_patterns_grow(lines, n + 1);
    }
}

// --- rules -------------------------------------------------------------------

/// The patterns that decide what becomes of a path.
#[derive(Debug)]
pub struct Rules {
    exclude: PatternSet,
    symlink: PatternSet,
    clone: PatternSet,
    copy: PatternSet,
    /// Multi-component exclude patterns (`.turbo/daemon/`): the only ones
    /// applied inside a cloned directory, so `dist/` never prunes a package's
    /// own `dist` folder under `node_modules`.
    prune: PatternSet,
}

/// The patterns of some rules.
#[verifier::ext_equal]
pub struct RulesView {
    pub exclude: Seq<Pattern>,
    pub symlink: Seq<Pattern>,
    pub clone: Seq<Pattern>,
    pub copy: Seq<Pattern>,
    pub prune: Seq<Pattern>,
}

impl View for Rules {
    type V = RulesView;

    closed spec fn view(&self) -> RulesView {
        RulesView {
            exclude: self.exclude@,
            symlink: self.symlink@,
            clone: self.clone@,
            copy: self.copy@,
            prune: self.prune@,
        }
    }
}

/// Whether a line names more than one component.
pub open spec fn multi_component(line: Seq<char>) -> bool {
    without_trailing(without_leading(trimmed(line), '/'), '/').contains('/')
}

/// The lines that name more than one component.
pub open spec fn prune_lines(exclude: Seq<Seq<char>>) -> Seq<Seq<char>> {
    exclude.filter(|l: Seq<char>| multi_component(l))
}

/// The rules that four lists of lines make.
pub open spec fn rules_of(
    exclude: Seq<Seq<char>>,
    symlink: Seq<Seq<char>>,
    clone: Seq<Seq<char>>,
    copy: Seq<Seq<char>>,
) -> RulesView {
    RulesView {
        exclude: patterns_of(exclude),
        symlink: patterns_of(symlink),
        clone: patterns_of(clone),
        copy: patterns_of(copy),
        prune: patterns_of(prune_lines(exclude)),
    }
}

/// Why four lists of lines make no rules, where they make none: the first of the
/// faults in exclude, symlink, clone, copy and the excludes for pruning.
pub open spec fn rules_fault(
    exclude: Seq<Seq<char>>,
    symlink: Seq<Seq<char>>,
    clone: Seq<Seq<char>>,
    copy: Seq<Seq<char>>,
) -> Option<Fault> {
    if lines_fault(exclude) is Some {
        lines_fault(exclude)
    } else if lines_fault(symlink) is Some {
        lines_fault(symlink)
    } else if lines_fault(clone) is Some {
        lines_fault(clone)
    } else if lines_fault(copy) is Some {
        lines_fault(copy)
    } else {
        lines_fault(prune_lines(exclude))
    }
}

/// The path as patterns are held against it: no leading `./`, no trailing `/`.
pub open spec fn bare_path(rel: Seq<char>) -> Seq<char> {
    without_trailing(without_prefixes(rel, "./"@), '/')
}

/// What becomes of a path: the first of exclude, symlink, clone and copy that
/// has a pattern for it.
pub open spec fn classified(rules: RulesView, rel: Seq<char>, is_dir: bool) -> Option<Action> {
    let p = bare_path(rel);
    if any_match(rules.exclude, p, is_dir) {
        Some(Action::Exclude)
    } else if any_match(rules.symlink, p, is_dir) {
        Some(Action::Symlink)
    } else if any_match(rules.clone, p, is_dir) {
        Some(Action::Clone)
    } else if any_match(rules.copy, p, is_dir) {
        Some(Action::Copy)
    } else {
        None
    }
}

/// Whether a path inside a cloned tree is left out.
pub open spec fn pruned(rules: RulesView, rel: Seq<char>, is_dir: bool) -> bool {
    any_match(rules.prune, without_trailing(rel, '/'), is_dir)
}

fn prune_list(exclude: &[String]) -> (r: Vec<String>)
    ensures
        texts(r@) == prune_lines(texts(exclude@)),
{
    broadcast use lemma_texts_push;

    let mut out: Vec<String> = Vec::new();
    let mut i: usize = 0;
    let ghost lines = texts(exclude@);
    proof {
        reveal(Seq::filter);
        assert(texts(out@) =~= prune_lines(lines.take(0)));
    }
    while i < exclude.len()
        invariant
            i <= exclude.len(),
            lines == texts(exclude@),
            texts(out@) == prune_lines(lines.take(i as int)),
        decreases exclude.len() - i,
    {
        proof {
            reveal(Seq::filter);
            assert(lines.take(i + 1).drop_last() =~= lines.take(i as int));
            assert(lines.take(i + 1).last() == exclude@[i as int]@);
        }
        let t = trim(exclude[i].as_str());
        let a = trim_start_char(t.as_str(), '/');
        let core = trim_end_char(a.as_str(), '/');
        if has_char(core.as_str(), '/') {
            out.push(exclude[i].clone());
        }
        i += 1;
    }
    assert(lines.take(i as int) =~= lines);
    out
}

impl Rules {
    pub fn from_config(cfg: &Config) -> (r: Result<Rules, String>)
        ensures
            match r {
                Ok(rules) => rules_fault(cfg@.exclude, cfg@.symlink, cfg@.clone, cfg@.copy) is None
                    && rules@ == rules_of(cfg@.exclude, cfg@.symlink, cfg@.clone, cfg@.copy),
                Err(e) => rules_fault(
                    cfg@.exclude,
                    cfg@.symlink,
                    cfg@.clone,
                    cfg@.copy,
                ) matches Some(f) && reports(e@, f),
            },
    {
        Rules::new(
            cfg.exclude.as_slice(),
            cfg.symlink.as_slice(),
            cfg.clone.as_slice(),
            cfg.copy.as_slice(),
        )
    }

    pub fn new(
        exclude: &[String],
        symlink: &[String],
        clone: &[String],
        copy: &[String],
    ) -> (r: Result<Rules, String>)
        ensures
            match r {
                Ok(rules) => rules_fault(
                    texts(exclude@),
                    texts(symlink@),
                    texts(clone@),
                    texts(copy@),
                ) is None && rules@ == rules_of(
                    texts(exclude@),
                    texts(symlink@),
                    texts(clone@),
                    texts(copy@),
                ),
                Err(e) => rules_fault(
                    texts(exclude@),
                    texts(symlink@),
                    texts(clone@),
                    texts(copy@),
                ) matches Some(f) && reports(e@, f),
            },
    {
        let pruned = prune_list(exclude);
        let exclude = match PatternSet::build(exclude) {
            Ok(s) => s,
            Err(e) => {
                return Err(e);
            },
        };
        let symlink = match PatternSet::build(symlink) {
            Ok(s) => s,
            Err(e) => {
                return Err(e);
            },
        };
        let clone = match PatternSet::build(clone) {
            Ok(s) => s,
            Err(e) => {
                return Err(e);
            },
        };
        let copy = match PatternSet::build(copy) {
            Ok(s) => s,
            Err(e) => {
                return Err(e);
            },
        };
        let prune = match PatternSet::build(pruned.as_slice()) {
            Ok(s) => s,
            Err(e) => {
                return Err(e);
            },
        };
        Ok(Rules { exclude, symlink, clone, copy, prune })
    }

    /// Classify a checkout-relative path.
    pub fn classify(&self, rel: &str, is_dir: bool) -> (r: Option<Action>)
        ensures
            r == classified(self@, rel@, is_dir),
    {
        let start = trim_prefixes(rel, "./");
        let path = trim_end_char(start.as_str(), '/');
        let p = path.as_str();
        if self.exclude.matches(p, is_dir) {
            Some(Action::Exclude)
        } else if self.symlink.matches(p, is_dir) {
            Some(Action::Symlink)
        } else if self.clone.matches(p, is_dir) {
            Some(Action::Clone)
        } else if self.copy.matches(p, is_dir) {
            Some(Action::Copy)
        } else {
            None
        }
    }

    /// Should this path inside a cloned tree be left out?
    pub fn should_prune(&self, rel: &str, is_dir: bool) -> (r: bool)
        ensures
            r == pruned(self@, rel@, is_dir),
    {
        let path = trim_end_char(rel, '/');
        self.prune.matches(path.as_str(), is_dir)
    }
}

/// An excluded path is never brought over, whatever the other lists say.
pub proof fn law_exclude_wins(rules: RulesView, rel: Seq<char>, is_dir: bool)
    requires
        any_match(rules.exclude, bare_path(rel), is_dir),
    ensures
        classified(rules, rel, is_dir) == Some(Action::Exclude),
{
}

/// A pattern for directories only has no say in what becomes of a file.
pub proof fn law_directories_only(patterns: Seq<Pattern>, path: Seq<char>)
    ensures
        any_match(patterns, path, false) == any_match(
            patterns.filter(|p: Pattern| !p.1),
            path,
            false,
        ),
    decreases patterns.len(),
{
    let kept = patterns.filter(|p: Pattern| !p.1);
    reveal(Seq::filter);
    if patterns.len() > 0 {
        let front = patterns.drop_last();
        let kept_front = front.filter(|p: Pattern| !p.1);
        law_directories_only(front, path);
        if any_match(patterns, path, false) {
            let i = choose|i: int|
                0 <= i < patterns.len() && glob_matches((#[trigger] patterns[i]).0, true, path)
                    && !patterns[i].1;
            if i < front.len() {
                assert(front[i] == patterns[i]);
                let k = choose|k: int|
                    0 <= k < kept_front.len() && glob_matches(
                        (#[trigger] kept_front[k]).0,
                        true,
                        path,
                    ) && !kept_front[k].1;
                assert(kept[k] == kept_front[k]);
            } else {
                assert(kept[kept.len() - 1] == patterns[i]);
            }
        }
        if any_match(kept, path, false) {
            let k = choose|k: int|
                0 <= k < kept.len() && glob_matches((#[trigger] kept[k]).0, true, path)
                    && !kept[k].1;
            if k < kept_front.len() {
                assert(kept_front[k] == kept[k]);
                let i = choose|i: int|
                    0 <= i < front.len() && glob_matches((#[trigger] front[i]).0, true, path)
                        && !front[i].1;
                assert(patterns[i] == front[i]);
            } else {
                assert(patterns[patterns.len() - 1] == kept[k]);
            }
        }
    }
}

proof fn lemma_prune_patterns(exclude: Seq<Seq<char>>, i: int)
    requires
        0 <= i < patterns_of(prune_lines(exclude)).len(),
    ensures
        patterns_of(exclude).contains(patterns_of(prune_lines(exclude))[i]),
    decreases exclude.len(),
{
    reveal(Seq::filter);
    if exclude.len() > 0 {
        let front = exclude.drop_last();
        let a = patterns_of(front);
        let r = patterns_of(exclude);
        let pf = patterns_of(prune_lines(front));
        let p = patterns_of(prune_lines(exclude));
        if multi_component(exclude.last()) {
            assert(prune_lines(exclude) =~= prune_lines(front).push(exclude.last()));
            assert(prune_lines(exclude).drop_last() =~= prune_lines(front));
        }
        if i < pf.len() {
            lemma_prune_patterns(front, i);
            let k = choose|k: int| 0 <= k < a.len() && a[k] == pf[i];
            assert(r[k] == p[i]);
        } else {
            assert(r[r.len() - 1] == p[i]);
        }
    }
}

/// What is pruned inside of a cloned tree is excluded wherever it lies.
pub proof fn law_pruned_is_excluded(
    exclude: Seq<Seq<char>>,
    symlink: Seq<Seq<char>>,
    clone: Seq<Seq<char>>,
    copy: Seq<Seq<char>>,
    rel: Seq<char>,
    is_dir: bool,
)
    requires
        !starts(rel, "./"@),
        pruned(rules_of(exclude, symlink, clone, copy), rel, is_dir),
    ensures
        classified(rules_of(exclude, symlink, clone, copy), rel, is_dir) == Some(Action::Exclude),
{
    let rules = rules_of(exclude, symlink, clone, copy);
    let path = without_trailing(rel, '/');
    assert(bare_path(rel) == path);
    let i = choose|i: int|
        0 <= i < rules.prune.len() && glob_matches((#[trigger] rules.prune[i]).0, true, path) && (
        is_dir || !rules.prune[i].1);
    lemma_prune_patterns(exclude, i);
    let k = choose|k: int| 0 <= k < rules.exclude.len() && rules.exclude[k] == rules.prune[i];
    assert(glob_matches(rules.exclude[k].0, true, path));
}

/// Whether a text is the plain body of a line: no white space and no slash around
/// it, and no comment.
pub open spec fn plain_body(s: Seq<char>) -> bool {
    &&& s.len() > 0
    &&& !is_space(s[0]) && s[0] != '#' && s[0] != '/'
    &&& !is_space(s.last()) && s.last() != '/'
}

proof fn lemma_ends(s: Seq<char>)
    requires
        plain_body(s),
    ensures
        without_trailing(s, '/') == s,
        without_trailing(s.push('/'), '/') == s,
        without_leading(s, '/') == s,
        without_leading(seq!['/'] + s, '/') == s,
        without_leading(s.push('/'), '/') == s.push('/'),
        without_leading(seq!['/'] + s.push('/'), '/') == s.push('/'),
        without_trailing(seq!['/'] + s, '/') == seq!['/'] + s,
        without_trailing(seq!['/'] + s.push('/'), '/') == seq!['/'] + s,
        trimmed(s) == s,
        trimmed(s.push('/')) == s.push('/'),
        trimmed(seq!['/'] + s) == seq!['/'] + s,
        trimmed(seq!['/'] + s.push('/')) == seq!['/'] + s.push('/'),
{
    law_trimmed(s, ' ');
    law_trimmed(s.push('/'), ' ');
    law_trimmed(seq!['/'] + s, ' ');
    law_trimmed(seq!['/'] + s.push('/'), ' ');
    assert(s.push('/').drop_last() =~= s);
    assert((seq!['/'] + s).skip(1) =~= s);
    assert((seq!['/'] + s.push('/')).skip(1) =~= s.push('/'));
    assert((seq!['/'] + s.push('/')).drop_last() =~= seq!['/'] + s);
    assert(trim_end(s, only('/')) == s);
    assert(trim_end(s.push('/').drop_last(), only('/')) == s);
    assert(trim_end(seq!['/'] + s, only('/')) == seq!['/'] + s);
    assert(trim_end((seq!['/'] + s.push('/')).drop_last(), only('/')) == seq!['/'] + s);
    assert(trim_start(s, only('/')) == s);
    assert(trim_start((seq!['/'] + s).skip(1), only('/')) == s);
    assert(trim_start(s.push('/'), only('/')) == s.push('/'));
    assert(trim_start((seq!['/'] + s.push('/')).skip(1), only('/')) == s.push('/'));
}

/// A line stands for its own text at any depth, one that starts with a slash for
/// it at the top alone; one that ends with a slash stands for directories only. A
/// blank line or a comment stands for nothing, and white space around a line makes
/// no difference.
pub proof fn law_lines_are_patterns(s: Seq<char>, line: Seq<char>, c: char)
    requires
        plain_body(s),
    ensures
        !starts(s, seq!['*', '*', '/']) ==> pattern_of(s) == Some(
            (seq!['*', '*', '/'] + s, false),
        ) && pattern_of(s.push('/')) == Some((seq!['*', '*', '/'] + s, true)),
        starts(s, seq!['*', '*', '/']) ==> pattern_of(s) == Some((s, false)) && pattern_of(
            s.push('/'),
        ) == Some((s, true)),
        pattern_of(seq!['/'] + s) == Some((s, false)),
        pattern_of(seq!['/'] + s.push('/')) == Some((s, true)),
        pattern_of(Seq::empty()) is None,
        pattern_of(seq!['/']) is None,
        line.len() > 0 && line[0] == '#' ==> pattern_of(line) is None,
        is_space(c) ==> pattern_of(seq![c] + line) == pattern_of(line) && pattern_of(line.push(c))
            == pattern_of(line),
{
    lemma_ends(s);
    law_trimmed(line, c);
    reveal_strlit("**/");
    assert("**/"@ =~= seq!['*', '*', '/']);
    assert((seq!['/'] + s).skip(1) =~= s);
    let slash = seq!['/'];
    assert(slash.drop_last() =~= Seq::empty());
    assert(trim_end(slash.drop_last(), only('/')) =~= Seq::<char>::empty());
    assert(without_trailing(slash, '/') =~= Seq::<char>::empty());
    law_trimmed(slash, ' ');
    if line.len() > 0 && line[0] == '#' {
        lemma_trim_keeps_first(line);
    }
}

proof fn lemma_trim_keeps_first(s: Seq<char>)
    requires
        s.len() > 0,
        s[0] == '#',
    ensures
        trimmed(s).len() > 0,
        trimmed(s)[0] == '#',
    decreases s.len(),
{
    if is_space(s.last()) {
        assert(s.len() > 1);
        lemma_trim_keeps_first(s.drop_last());
    }
}

/// Every line counts: the patterns of some lines are those that the lines stand
/// for, and no others.
pub proof fn law_every_line_counts(lines: Seq<Seq<char>>, p: Pattern)
    ensures
        patterns_of(lines).contains(p) <==> exists|i: int|
            0 <= i < lines.len() && pattern_of(#[trigger] lines[i]) == Some(p),
    decreases lines.len(),
{
    let r = patterns_of(lines);
    if lines.len() > 0 {
        let front = lines.drop_last();
        let a = patterns_of(front);
        law_every_line_counts(front, p);
        if a.contains(p) {
            let k = choose|k: int| 0 <= k < a.len() && a[k] == p;
            assert(r[k] == p);
            let i = choose|i: int|
                0 <= i < front.len() && pattern_of(#[trigger] front[i]) == Some(p);
            assert(lines[i] == front[i]);
        }
        if pattern_of(lines.last()) is Some {
            assert(r[r.len() - 1] == pattern_of(lines.last())->0);
        }
        if r.contains(p) && !a.contains(p) {
            assert(pattern_of(lines[lines.len() - 1]) == Some(p));
        }
        if exists|i: int| 0 <= i < lines.len() && pattern_of(#[trigger] lines[i]) == Some(p) {
            let i = choose|i: int|
                0 <= i < lines.len() && pattern_of(#[trigger] lines[i]) == Some(p);
            if i < front.len() {
                assert(front[i] == lines[i]);
            }
        }
    }
}

/// Whether a line speaks of a path.
pub open spec fn speaks_of(line: Seq<char>, rel: Seq<char>, is_dir: bool) -> bool {
    pattern_of(line) matches Some(p) && glob_matches(p.0, true, rel) && (is_dir || !p.1)
}

/// Whether one of some lines speaks of a path.
pub open spec fn one_speaks_of(lines: Seq<Seq<char>>, rel: Seq<char>, is_dir: bool) -> bool {
    exists|i: int| 0 <= i < lines.len() && speaks_of(#[trigger] lines[i], rel, is_dir)
}

proof fn lemma_one_speaks(lines: Seq<Seq<char>>, rel: Seq<char>, is_dir: bool)
    ensures
        any_match(patterns_of(lines), rel, is_dir) <==> one_speaks_of(lines, rel, is_dir),
{
    let all = patterns_of(lines);
    if any_match(all, rel, is_dir) {
        let k = choose|k: int|
            0 <= k < all.len() && glob_matches((#[trigger] all[k]).0, true, rel) && (is_dir
                || !all[k].1);
        law_every_line_counts(lines, all[k]);
        assert(all.contains(all[k]));
        let i = choose|i: int|
            0 <= i < lines.len() && pattern_of(#[trigger] lines[i]) == Some(all[k]);
        assert(speaks_of(lines[i], rel, is_dir));
    }
    if one_speaks_of(lines, rel, is_dir) {
        let i = choose|i: int| 0 <= i < lines.len() && speaks_of(#[trigger] lines[i], rel, is_dir);
        let p = pattern_of(lines[i])->0;
        law_every_line_counts(lines, p);
        let k = choose|k: int| 0 <= k < all.len() && all[k] == p;
        assert(glob_matches(all[k].0, true, rel));
    }
}

/// What becomes of a path is decided by the lists in order, each asked only where
/// no list before it speaks of the path; where none does, nothing becomes of it. A
/// `./` in front of a path and a slash behind it make no difference.
pub proof fn law_lists_are_asked_in_order(
    exclude: Seq<Seq<char>>,
    symlink: Seq<Seq<char>>,
    clone: Seq<Seq<char>>,
    copy: Seq<Seq<char>>,
    rel: Seq<char>,
    is_dir: bool,
)
    requires
        rel.len() > 0,
        rel.last() != '/',
        !starts(rel, seq!['.', '/']),
    ensures
        ({
            let rules = rules_of(exclude, symlink, clone, copy);
            let r = classified(rules, rel, is_dir);
            let e = one_speaks_of(exclude, rel, is_dir);
            let s = one_speaks_of(symlink, rel, is_dir);
            let c = one_speaks_of(clone, rel, is_dir);
            let k = one_speaks_of(copy, rel, is_dir);
            &&& r == Some(Action::Exclude) <==> e
            &&& r == Some(Action::Symlink) <==> !e && s
            &&& r == Some(Action::Clone) <==> !e && !s && c
            &&& r == Some(Action::Copy) <==> !e && !s && !c && k
            &&& r is None <==> !e && !s && !c && !k
            &&& rel != seq!['.'] ==> classified(rules, rel.push('/'), is_dir) == r
            &&& classified(rules, seq!['.', '/'] + rel, is_dir) == r
        }),
{
    lemma_one_speaks(exclude, rel, is_dir);
    lemma_one_speaks(symlink, rel, is_dir);
    lemma_one_speaks(clone, rel, is_dir);
    lemma_one_speaks(copy, rel, is_dir);
    reveal_strlit("./");
    assert("./"@ =~= seq!['.', '/']);
    assert(bare_path(rel) == rel);
    let dir = rel.push('/');
    assert(dir.drop_last() =~= rel);
    if starts(dir, "./"@) {
        assert(dir.take(2)[0] == '.');
        if rel.len() >= 2 {
            assert(rel.take(2) =~= dir.take(2));
        } else {
            assert(rel =~= seq!['.']);
        }
    }
    if rel != seq!['.'] {
        assert(bare_path(dir) == rel);
    }
    let dotted = seq!['.', '/'] + rel;
    assert(dotted.take(2) =~= seq!['.', '/']);
    assert(dotted.skip(2) =~= rel);
    assert(bare_path(dotted) == rel);
}

/// Inside of a tree, only the excludes with more than one component are applied,
/// all of them.
pub proof fn law_deep_excludes_are_pruned(
    exclude: Seq<Seq<char>>,
    symlink: Seq<Seq<char>>,
    clone: Seq<Seq<char>>,
    copy: Seq<Seq<char>>,
    rel: Seq<char>,
    is_dir: bool,
)
    requires
        rel.len() > 0,
        rel.last() != '/',
    ensures
        pruned(rules_of(exclude, symlink, clone, copy), rel, is_dir) <==> exists|i: int|
            0 <= i < exclude.len() && multi_component(exclude[i]) && speaks_of(
                #[trigger] exclude[i],
                rel,
                is_dir,
            ),
{
    let lines = prune_lines(exclude);
    let f = |l: Seq<char>| multi_component(l);
    lemma_one_speaks(lines, rel, is_dir);
    assert(without_trailing(rel, '/') == rel);
    if one_speaks_of(lines, rel, is_dir) {
        let k = choose|k: int| 0 <= k < lines.len() && speaks_of(#[trigger] lines[k], rel, is_dir);
        lemma_filtered(exclude, f, lines[k]);
        assert(lines.contains(lines[k]));
        let i = choose|i: int| 0 <= i < exclude.len() && exclude[i] == lines[k];
        assert(speaks_of(exclude[i], rel, is_dir));
    }
    if exists|i: int|
        0 <= i < exclude.len() && multi_component(exclude[i]) && speaks_of(
            #[trigger] exclude[i],
            rel,
            is_dir,
        ) {
        let i = choose|i: int|
            0 <= i < exclude.len() && multi_component(exclude[i]) && speaks_of(
                #[trigger] exclude[i],
                rel,
                is_dir,
            );
        lemma_filtered(exclude, f, exclude[i]);
        assert(exclude.contains(exclude[i]));
        let k = choose|k: int| 0 <= k < lines.len() && lines[k] == exclude[i];
        assert(speaks_of(lines[k], rel, is_dir));
    }
}

/// A line has more than one component if there is a slash inside of it; one around
/// it does not count.
pub proof fn law_more_than_one_component(s: Seq<char>)
    requires
        plain_body(s),
    ensures
        multi_component(s) <==> s.contains('/'),
        multi_component(s.push('/')) <==> s.contains('/'),
        multi_component(seq!['/'] + s) <==> s.contains('/'),
        multi_component(seq!['/'] + s.push('/')) <==> s.contains('/'),
{
    lemma_ends(s);
}

/// Lines are refused if and only if a glob of one of them is not accepted, and the
/// first such line is reported, or no set can be made of their globs.
pub proof fn law_bad_lines_are_reported(lines: Seq<Seq<char>>, i: int)
    requires
        0 <= i < lines.len(),
        forall|j: int|
            0 <= j < i ==> (pattern_of(#[trigger] lines[j]) matches Some(p) ==> glob_error(
                p.0,
                true,
            ) is None),
    ensures
        pattern_of(lines[i]) matches Some(p) ==> glob_error(p.0, true) matches Some(e)
            ==> lines_fault(lines) == Some(
            Fault::Line("invalid pattern `"@ + p.0 + "`: "@ + e),
        ),
    decreases lines.len(),
{
    let front = lines.drop_last();
    if i < front.len() {
        assert forall|j: int| 0 <= j < i implies (pattern_of(#[trigger] front[j]) matches Some(p)
            ==> glob_error(p.0, true) is None) by {
            assert(front[j] == lines[j]);
        }
        law_bad_lines_are_reported(front, i);
        assert(front[i] == lines[i]);
    } else {
        assert forall|j: int| 0 <= j < front.len() implies (pattern_of(#[trigger] front[j])
            matches Some(p) ==> glob_error(p.0, true) is None) by {
            assert(front[j] == lines[j]);
        }
        lemma_all_accepted(front);
    }
}

proof fn lemma_all_accepted(lines: Seq<Seq<char>>)
    requires
        forall|j: int|
            0 <= j < lines.len() ==> (pattern_of(#[trigger] lines[j]) matches Some(p)
                ==> glob_error(p.0, true) is None),
    ensures
        first_invalid(lines) is None,
    decreases lines.len(),
{
    if lines.len() > 0 {
        let front = lines.drop_last();
        assert forall|j: int| 0 <= j < front.len() implies (pattern_of(#[trigger] front[j])
            matches Some(p) ==> glob_error(p.0, true) is None) by {
            assert(front[j] == lines[j]);
        }
        lemma_all_accepted(front);
        assert(lines[lines.len() - 1] == lines.last());
    }
}

/// Lines whose globs are all accepted make a pattern set unless the set itself is
/// refused.
pub proof fn law_good_lines_are_accepted(lines: Seq<Seq<char>>)
    requires
        forall|j: int|
            0 <= j < lines.len() ==> (pattern_of(#[trigger] lines[j]) matches Some(p)
                ==> glob_error(p.0, true) is None),
    ensures
        lines_fault(lines) is None <==> !glob_set_refused(globs_of(patterns_of(lines))),
{
    lemma_all_accepted(lines);
}

/// Rules can be made if and only if each of the lists is accepted.
pub proof fn law_all_lists_must_be_accepted(
    exclude: Seq<Seq<char>>,
    symlink: Seq<Seq<char>>,
    clone: Seq<Seq<char>>,
    copy: Seq<Seq<char>>,
)
    ensures
        rules_fault(exclude, symlink, clone, copy) is None <==> lines_fault(exclude) is None
            && lines_fault(symlink) is None && lines_fault(clone) is None && lines_fault(copy)
            is None && lines_fault(prune_lines(exclude)) is None,
        lines_fault(exclude) is Some ==> rules_fault(exclude, symlink, clone, copy) == lines_fault(
            exclude,
        ),
{
}

} // verus!
