//! Find what the source checkout has that git does not track: the ignored
//! files and (collapsed) ignored directories. Only these are ever copied.

use vstd::prelude::*;
use vstd::string::*;
use crate::bytes::{lossy, lossy_text, lossy_texts, records, split_nul};
use crate::pieces::{join, join_with, lemma_filtered};
use crate::text::{
    copy_list, ends_with_char, glue, glue3, lemma_texts_push, owned, same, slices, starts,
    starts_with, texts, trim, trim_end_char, trimmed, without_trailing,
};

verus! {

/// Something that git ignores.
#[derive(Debug, PartialEq, Eq)]
pub struct Candidate {
    /// Checkout-relative path, no trailing slash.
    pub rel: String,
    pub is_dir: bool,
    pub is_symlink: bool,
    /// The directory is itself a git repository (has `.git`); never copied.
    pub nested_repo: bool,
}

/// What a candidate says.
#[verifier::ext_equal]
pub struct CandidateView {
    pub rel: Seq<char>,
    pub is_dir: bool,
    pub is_symlink: bool,
    pub nested_repo: bool,
}

impl View for Candidate {
    type V = CandidateView;

    open spec fn view(&self) -> CandidateView {
        CandidateView {
            rel: self.rel@,
            is_dir: self.is_dir,
            is_symlink: self.is_symlink,
            nested_repo: self.nested_repo,
        }
    }
}

impl Clone for Candidate {
    fn clone(&self) -> (r: Self)
        ensures
            r@ == self@,
    {
        Candidate {
            rel: self.rel.clone(),
            is_dir: self.is_dir,
            is_symlink: self.is_symlink,
            nested_repo: self.nested_repo,
        }
    }
}

/// What some candidates say.
pub open spec fn candidates_view(v: Seq<Candidate>) -> Seq<CandidateView> {
    Seq::new(v.len(), |i: int| v[i]@)
}

// --- running git -------------------------------------------------------------

/// The arguments of a git call in `source`. Paths are taken literally.
pub open spec fn git_call(
    source: Seq<char>,
    args: Seq<Seq<char>>,
    paths: Seq<Seq<char>>,
) -> Seq<Seq<char>> {
    let call = seq!["-C"@, source, "--literal-pathspecs"@] + args;
    if paths.len() == 0 {
        call
    } else {
        call.push("--"@) + paths
    }
}

/// The arguments of a git call in `source`.
pub fn git_argv(source: &str, args: &Vec<String>, paths: &Vec<String>) -> (r: Vec<String>)
    ensures
        texts(r@) == git_call(source@, texts(args@), texts(paths@)),
{
    broadcast use lemma_texts_push;

    let mut out: Vec<String> = Vec::new();
    out.push("-C".to_owned());
    out.push(source.to_owned());
    out.push("--literal-pathspecs".to_owned());
    assert(texts(out@) =~= seq!["-C"@, source@, "--literal-pathspecs"@]);
    let ghost a = out@;
    let mut rest = copy_list(args);
    let ghost b = rest@;
    out.append(&mut rest);
    assert(texts(out@) =~= texts(a) + texts(b));
    if paths.len() > 0 {
        out.push("--".to_owned());
        let ghost c = out@;
        let mut more = copy_list(paths);
        let ghost d = more@;
        out.append(&mut more);
        assert(texts(out@) =~= texts(c) + texts(d));
    }
    out
}

/// What came of a git call that was started.
#[derive(Debug)]
pub struct GitOutput {
    pub success: bool,
    pub stdout: Vec<u8>,
    pub stderr: Vec<u8>,
}

/// How a git call that could not be started is reported.
pub open spec fn git_not_run(git: Seq<char>, source: Seq<char>, err: Seq<char>) -> Seq<char> {
    "running "@ + git + " in "@ + source + ": "@ + err
}

/// How a git call that failed is reported.
pub open spec fn git_failed(args: Seq<Seq<char>>, source: Seq<char>, stderr: Seq<u8>) -> Seq<char> {
    let said = trimmed(lossy_text(stderr));
    "git "@ + join(args, " "@) + " failed in "@ + source + ": "@ + if said.len() == 0 {
        "unknown error"@
    } else {
        said
    }
}

/// What a git call printed, or the report where it did not succeed.
pub fn git_result(
    git: &str,
    source: &str,
    args: &Vec<String>,
    out: Result<GitOutput, String>,
) -> (r: Result<Vec<u8>, String>)
    ensures
        match out {
            Err(e) => r matches Err(t) && t@ == git_not_run(git@, source@, e@),
            Ok(o) => if o.success {
                r matches Ok(b) && b@ == o.stdout@
            } else {
                r matches Err(t) && t@ == git_failed(texts(args@), source@, o.stderr@)
            },
        },
{
    match out {
        Err(e) => {
            let mut text = glue3("running ", git, " in ");
            text.append(source);
            text.append(": ");
            text.append(e.as_str());
            Err(text)
        },
        Ok(o) => {
            if o.success {
                return Ok(o.stdout);
            }
            let all = lossy(o.stderr.as_slice());
            let said = trim(all.as_str());
            let line = join_with(args, " ");
            let mut text = glue3("git ", line.as_str(), " failed in ");
            text.append(source);
            text.append(": ");
            if said.as_str().is_empty() {
                text.append("unknown error");
            } else {
                text.append(said.as_str());
            }
            Err(text)
        },
    }
}

/// What lists the ignored entries: ignored directories are collapsed to one.
pub open spec fn ignored_call() -> Seq<Seq<char>> {
    seq![
        "ls-files"@,
        "--others"@,
        "--ignored"@,
        "--exclude-standard"@,
        "--directory"@,
        "--full-name"@,
        "-z"@,
    ]
}

/// What lists the ignored entries.
pub fn ignored_args() -> (r: Vec<String>)
    ensures
        texts(r@) == ignored_call(),
{
    let v = [
        "ls-files",
        "--others",
        "--ignored",
        "--exclude-standard",
        "--directory",
        "--full-name",
        "-z",
    ];
    assert(slices(v@) =~= ignored_call());
    owned(&v)
}

/// What lists the tracked files.
pub open spec fn tracked_call() -> Seq<Seq<char>> {
    seq!["ls-files"@, "-z"@, "--full-name"@]
}

/// What lists the tracked files.
pub fn tracked_args() -> (r: Vec<String>)
    ensures
        texts(r@) == tracked_call(),
{
    let v = ["ls-files", "-z", "--full-name"];
    assert(slices(v@) =~= tracked_call());
    owned(&v)
}

// --- entries -----------------------------------------------------------------

/// An entry of the listing: its path, and whether it is listed as a directory.
#[derive(Debug, PartialEq, Eq)]
pub struct Entry {
    pub rel: String,
    pub is_dir_entry: bool,
}

/// The entry that a record stands for, if it is to be looked at: git's own
/// directory is not.
pub open spec fn entry_of(record: Seq<char>) -> Option<(Seq<char>, bool)> {
    let rel = without_trailing(record, '/');
    if rel.len() == 0 || rel == ".git"@ || starts(rel, ".git/"@) {
        None
    } else {
        Some((rel, record.len() > 0 && record.last() == '/'))
    }
}

/// The entries that some records stand for, in order.
pub open spec fn entries_of(recs: Seq<Seq<char>>) -> Seq<(Seq<char>, bool)>
    decreases recs.len(),
{
    if recs.len() == 0 {
        Seq::empty()
    } else {
        let r = entries_of(recs.drop_last());
        match entry_of(recs.last()) {
            Some(e) => r.push(e),
            None => r,
        }
    }
}

/// What some entries say.
pub open spec fn entries_view(v: Seq<Entry>) -> Seq<(Seq<char>, bool)> {
    Seq::new(v.len(), |i: int| (v[i].rel@, v[i].is_dir_entry))
}

/// The entries of a listing of ignored paths.
pub fn ignored_entries(raw: &[u8]) -> (r: Vec<Entry>)
    ensures
        entries_view(r@) == entries_of(lossy_texts(records(raw@))),
{
    let recs = split_nul(raw);
    let ghost all = lossy_texts(records(raw@));
    let mut out: Vec<Entry> = Vec::new();
    let mut i: usize = 0;
    assert(all.take(0) =~= Seq::empty());
    assert(entries_view(out@) =~= entries_of(all.take(0)));
    while i < recs.len()
        invariant
            i <= recs.len(),
            texts(recs@) == all,
            entries_view(out@) == entries_of(all.take(i as int)),
        decreases recs.len() - i,
    {
        assert(all.take(i + 1).drop_last() =~= all.take(i as int));
        assert(all.take(i + 1).last() == recs@[i as int]@);
        let is_dir_entry = ends_with_char(recs[i].as_str(), '/');
        let rel = trim_end_char(recs[i].as_str(), '/');
        if !(rel.as_str().is_empty() || same(rel.as_str(), ".git") || starts_with(rel.as_str(), ".git/")) {
            let ghost before = out@;
            out.push(Entry { rel, is_dir_entry });
            assert(entries_view(out@) =~= entries_view(before).push((rel@, is_dir_entry)));
        }
        i += 1;
    }
    assert(all.take(i as int) =~= all);
    out
}

/// What there is at the path of an entry.
#[derive(Debug, Clone, Copy, PartialEq, Eq, Structural)]
pub struct EntryStat {
    /// Whether there is anything: it may have vanished since it was listed.
    pub found: bool,
    pub is_symlink: bool,
    pub is_dir: bool,
    /// Whether the directory holds a `.git`, be it a dangling symlink.
    pub has_git: bool,
}

/// The candidate that an entry makes.
pub open spec fn candidate_of(entry: (Seq<char>, bool), stat: EntryStat) -> CandidateView {
    let is_dir = entry.1 || (!stat.is_symlink && stat.is_dir);
    CandidateView {
        rel: entry.0,
        is_dir,
        is_symlink: stat.is_symlink,
        nested_repo: is_dir && !stat.is_symlink && stat.has_git,
    }
}

/// The candidates that the first `n` entries make: those that are still there.
pub open spec fn candidates_of(
    entries: Seq<(Seq<char>, bool)>,
    stats: Seq<EntryStat>,
    n: nat,
) -> Seq<CandidateView>
    decreases n,
{
    if n == 0 {
        Seq::empty()
    } else {
        let r = candidates_of(entries, stats, (n - 1) as nat);
        if stats[n - 1].found {
            r.push(candidate_of(entries[n - 1], stats[n - 1]))
        } else {
            r
        }
    }
}

/// The candidates that some entries make.
pub fn candidates(entries: &Vec<Entry>, stats: &Vec<EntryStat>) -> (r: Vec<Candidate>)
    requires
        entries@.len() == stats@.len(),
    ensures
        candidates_view(r@) == candidates_of(
            entries_view(entries@),
            stats@,
            entries_view(entries@).len(),
        ),
{
    let ghost all = entries_view(entries@);
    let mut out: Vec<Candidate> = Vec::new();
    let mut i: usize = 0;
    assert(candidates_view(out@) =~= candidates_of(all, stats@, 0));
    while i < entries.len()
        invariant
            i <= entries.len(),
            all == entries_view(entries@),
            entries.len() == stats.len(),
            candidates_view(out@) == candidates_of(all, stats@, i as nat),
        decreases entries.len() - i,
    {
        let stat = stats[i];
        if stat.found {
            let is_dir = entries[i].is_dir_entry || (!stat.is_symlink && stat.is_dir);
            let cand = Candidate {
                rel: entries[i].rel.clone(),
                is_dir,
                is_symlink: stat.is_symlink,
                nested_repo: is_dir && !stat.is_symlink && stat.has_git,
            };
            let ghost before = out@;
            assert(cand@ == candidate_of(all[i as int], stats@[i as int]));
            out.push(cand);
            assert(candidates_view(out@) =~= candidates_view(before).push(
                candidate_of(all[i as int], stats@[i as int]),
            ));
        }
        i += 1;
    }
    out
}

/// Whether a candidate is a directory of its own.
pub open spec fn plain_dir(c: CandidateView) -> bool {
    c.is_dir && !c.is_symlink
}

/// The paths of the candidates that are directories of their own.
pub open spec fn dirs_of(cands: Seq<CandidateView>) -> Seq<Seq<char>>
    decreases cands.len(),
{
    if cands.len() == 0 {
        Seq::empty()
    } else if plain_dir(cands.last()) {
        dirs_of(cands.drop_last()).push(cands.last().rel)
    } else {
        dirs_of(cands.drop_last())
    }
}

/// The directories among the candidates, to be asked about.
pub fn collapsed_dirs(cands: &Vec<Candidate>) -> (r: Vec<String>)
    ensures
        texts(r@) == dirs_of(candidates_view(cands@)),
{
    broadcast use lemma_texts_push;

    let ghost all = candidates_view(cands@);
    let mut out: Vec<String> = Vec::new();
    let mut i: usize = 0;
    assert(all.take(0) =~= Seq::empty());
    assert(texts(out@) =~= dirs_of(all.take(0)));
    while i < cands.len()
        invariant
            i <= cands.len(),
            all == candidates_view(cands@),
            texts(out@) == dirs_of(all.take(i as int)),
        decreases cands.len() - i,
    {
        assert(all.take(i + 1).drop_last() =~= all.take(i as int));
        assert(all.take(i + 1).last() == cands@[i as int]@);
        if cands[i].is_dir && !cands[i].is_symlink {
            out.push(cands[i].rel.clone());
        }
        i += 1;
    }
    assert(all.take(i as int) =~= all);
    out
}

/// Whether git tracks a file under the directory `dir`.
pub open spec fn holds_tracked(dir: Seq<char>, files: Seq<Seq<char>>) -> bool {
    exists|k: int| 0 <= k < files.len() && starts(#[trigger] files[k], dir + "/"@)
}

fn has_tracked(dir: &str, files: &Vec<String>) -> (r: bool)
    ensures
        r == holds_tracked(dir@, texts(files@)),
{
    let start = glue(dir, "/");
    let mut k: usize = 0;
    while k < files.len()
        invariant
            k <= files.len(),
            start@ == dir@ + "/"@,
            forall|j: int| 0 <= j < k ==> !starts(#[trigger] texts(files@)[j], dir@ + "/"@),
        decreases files.len() - k,
    {
        if starts_with(files[k].as_str(), start.as_str()) {
            assert(starts(texts(files@)[k as int], dir@ + "/"@));
            return true;
        }
        k += 1;
    }
    false
}

/// Whether a candidate stays: not where it is a directory that holds a tracked
/// file.
pub open spec fn stays(c: CandidateView, dirs: Seq<Seq<char>>, files: Seq<Seq<char>>) -> bool {
    !(c.is_dir && dirs.contains(c.rel) && holds_tracked(c.rel, files))
}

/// The candidates that stay, given the files that git tracks.
pub open spec fn untracked(
    cands: Seq<CandidateView>,
    dirs: Seq<Seq<char>>,
    files: Seq<Seq<char>>,
) -> Seq<CandidateView> {
    cands.filter(|c: CandidateView| stays(c, dirs, files))
}

/// Leave out the directories with tracked content. The listing gives a
/// directory only where nothing under it is tracked; this makes sure of it.
pub fn drop_tracked(cands: Vec<Candidate>, in_git: &[u8]) -> (r: Vec<Candidate>)
    ensures
        candidates_view(r@) == untracked(
            candidates_view(cands@),
            dirs_of(candidates_view(cands@)),
            lossy_texts(records(in_git@)),
        ),
{
    let dirs = collapsed_dirs(&cands);
    let files = split_nul(in_git);
    let ghost all = candidates_view(cands@);
    let ghost d = dirs_of(all);
    let ghost f = lossy_texts(records(in_git@));
    let mut out: Vec<Candidate> = Vec::new();
    let mut i: usize = 0;
    proof {
        reveal(Seq::filter);
        assert(candidates_view(out@) =~= untracked(all.take(0), d, f));
    }
    while i < cands.len()
        invariant
            i <= cands.len(),
            all == candidates_view(cands@),
            texts(dirs@) == d,
            texts(files@) == f,
            candidates_view(out@) == untracked(all.take(i as int), d, f),
        decreases cands.len() - i,
    {
        proof {
            reveal(Seq::filter);
            assert(all.take(i + 1).drop_last() =~= all.take(i as int));
            assert(all.take(i + 1).last() == cands@[i as int]@);
        }
        let rel = cands[i].rel.as_str();
        if !(cands[i].is_dir && crate::text::holds(&dirs, rel) && has_tracked(rel, &files)) {
            let ghost before = out@;
            out.push(cands[i].clone());
            assert(candidates_view(out@) =~= candidates_view(before).push(all[i as int]));
        }
        i += 1;
    }
    assert(all.take(i as int) =~= all);
    out
}

/// The candidates of a checkout: from git's listing of ignored paths, what there
/// is at each of its entries, and git's listing of the files tracked under the
/// directories among them.
pub open spec fn ignored(raw: Seq<u8>, stats: Seq<EntryStat>, in_git: Seq<u8>) -> Seq<
    CandidateView,
> {
    let entries = entries_of(lossy_texts(records(raw)));
    let cands = candidates_of(entries, stats, entries.len());
    untracked(cands, dirs_of(cands), lossy_texts(records(in_git)))
}

/// Ignored, untracked entries of a checkout. There are none to tell of where the
/// stats are not those of the listed entries, one for each.
pub fn list_ignored(raw: &[u8], stats: &Vec<EntryStat>, in_git: &[u8]) -> (r: Option<
    Vec<Candidate>,
>)
    ensures
        match r {
            Some(found) => stats@.len() == entries_of(lossy_texts(records(raw@))).len()
                && candidates_view(found@) == ignored(raw@, stats@, in_git@),
            None => stats@.len() != entries_of(lossy_texts(records(raw@))).len(),
        },
{
    let entries = ignored_entries(raw);
    assert(entries_view(entries@).len() == entries@.len());
    if stats.len() != entries.len() {
        return None;
    }
    let cands = candidates(&entries, stats);
    Some(drop_tracked(cands, in_git))
}

// --- what holds of every listing ---------------------------------------------

proof fn lemma_kept(
    cands: Seq<CandidateView>,
    dirs: Seq<Seq<char>>,
    files: Seq<Seq<char>>,
    i: int,
)
    requires
        0 <= i < untracked(cands, dirs, files).len(),
    ensures
        stays(untracked(cands, dirs, files)[i], dirs, files),
        cands.contains(untracked(cands, dirs, files)[i]),
    decreases cands.len(),
{
    reveal(Seq::filter);
    if cands.len() > 0 {
        let front = cands.drop_last();
        if i < untracked(front, dirs, files).len() {
            lemma_kept(front, dirs, files, i);
            let x = untracked(front, dirs, files)[i];
            let k = choose|k: int| 0 <= k < front.len() && front[k] == x;
            assert(cands[k] == x);
        } else {
            assert(cands[cands.len() - 1] == untracked(cands, dirs, files)[i]);
        }
    }
}

proof fn lemma_dir_listed(cands: Seq<CandidateView>, i: int)
    requires
        0 <= i < cands.len(),
        plain_dir(cands[i]),
    ensures
        dirs_of(cands).contains(cands[i].rel),
    decreases cands.len(),
{
    let d = dirs_of(cands);
    if i == cands.len() - 1 {
        assert(d[d.len() - 1] == cands[i].rel);
    } else {
        let front = cands.drop_last();
        assert(front[i] == cands[i]);
        lemma_dir_listed(front, i);
        let k = choose|k: int| 0 <= k < dirs_of(front).len() && dirs_of(front)[k] == cands[i].rel;
        assert(d[k] == cands[i].rel);
    }
}

/// No directory with tracked content is ever a candidate.
pub proof fn law_no_tracked_content(raw: Seq<u8>, stats: Seq<EntryStat>, in_git: Seq<u8>, i: int)
    requires
        0 <= i < ignored(raw, stats, in_git).len(),
        plain_dir(ignored(raw, stats, in_git)[i]),
    ensures
        !holds_tracked(ignored(raw, stats, in_git)[i].rel, lossy_texts(records(in_git))),
{
    let entries = entries_of(lossy_texts(records(raw)));
    let cands = candidates_of(entries, stats, entries.len());
    let files = lossy_texts(records(in_git));
    lemma_kept(cands, dirs_of(cands), files, i);
    let c = ignored(raw, stats, in_git)[i];
    let k = choose|k: int| 0 <= k < cands.len() && cands[k] == c;
    lemma_dir_listed(cands, k);
}

proof fn lemma_entry(recs: Seq<Seq<char>>, i: int)
    requires
        0 <= i < entries_of(recs).len(),
    ensures
        exists|k: int| 0 <= k < recs.len() && entry_of(#[trigger] recs[k]) == Some(
            entries_of(recs)[i],
        ),
    decreases recs.len(),
{
    if recs.len() > 0 {
        let front = recs.drop_last();
        if i < entries_of(front).len() {
            lemma_entry(front, i);
            let k = choose|k: int|
                0 <= k < front.len() && entry_of(#[trigger] front[k]) == Some(entries_of(front)[i]);
            assert(recs[k] == front[k]);
        } else {
            assert(entry_of(recs[recs.len() - 1]) == Some(entries_of(recs)[i]));
        }
    }
}

proof fn lemma_candidate(
    entries: Seq<(Seq<char>, bool)>,
    stats: Seq<EntryStat>,
    n: nat,
    i: int,
)
    requires
        0 <= i < candidates_of(entries, stats, n).len(),
    ensures
        exists|k: int|
            0 <= k < n && candidates_of(entries, stats, n)[i] == #[trigger] candidate_of(
                entries[k],
                stats[k],
            ),
    decreases n,
{
    if n > 0 {
        let m = (n - 1) as nat;
        if i < candidates_of(entries, stats, m).len() {
            lemma_candidate(entries, stats, m, i);
        } else {
            assert(candidates_of(entries, stats, n)[i] == candidate_of(
                entries[n - 1],
                stats[n - 1],
            ));
        }
    }
}

/// Every candidate is an entry of git's listing of ignored paths, and neither
/// git's own directory nor anything in it is one.
pub proof fn law_only_listed(raw: Seq<u8>, stats: Seq<EntryStat>, in_git: Seq<u8>, i: int)
    requires
        0 <= i < ignored(raw, stats, in_git).len(),
    ensures
        ({
            let rel = ignored(raw, stats, in_git)[i].rel;
            let recs = lossy_texts(records(raw));
            &&& rel.len() > 0
            &&& rel != ".git"@
            &&& !starts(rel, ".git/"@)
            &&& exists|k: int|
                0 <= k < recs.len() && without_trailing(#[trigger] recs[k], '/') == rel
        }),
{
    let recs = lossy_texts(records(raw));
    let entries = entries_of(recs);
    let cands = candidates_of(entries, stats, entries.len());
    lemma_kept(cands, dirs_of(cands), lossy_texts(records(in_git)), i);
    let c = ignored(raw, stats, in_git)[i];
    let j = choose|j: int| 0 <= j < cands.len() && cands[j] == c;
    lemma_candidate(entries, stats, entries.len(), j);
    let k = choose|k: int|
        0 <= k < entries.len() && cands[j] == #[trigger] candidate_of(entries[k], stats[k]);
    lemma_entry(recs, k);
}

/// A record of the listing stands for its path; a slash behind it says that it is
/// a directory. The repository itself is no entry.
pub proof fn law_records_are_entries(rel: Seq<char>)
    requires
        rel.len() > 0,
        rel.last() != '/',
    ensures
        rel != ".git"@ && !starts(rel, ".git/"@) ==> entry_of(rel) == Some((rel, false))
            && entry_of(rel.push('/')) == Some((rel, true)),
        rel == ".git"@ || starts(rel, ".git/"@) ==> entry_of(rel) is None && entry_of(
            rel.push('/'),
        ) is None,
{
    let dir = rel.push('/');
    assert(dir.drop_last() =~= rel);
    assert(without_trailing(rel, '/') == rel);
    assert(without_trailing(dir, '/') == rel);
}

/// Every record counts: the entries are those that the records stand for.
pub proof fn law_every_record_counts(recs: Seq<Seq<char>>, e: (Seq<char>, bool))
    ensures
        entries_of(recs).contains(e) <==> exists|i: int|
            0 <= i < recs.len() && entry_of(#[trigger] recs[i]) == Some(e),
    decreases recs.len(),
{
    let r = entries_of(recs);
    if recs.len() > 0 {
        let front = recs.drop_last();
        let a = entries_of(front);
        law_every_record_counts(front, e);
        if a.contains(e) {
            let k = choose|k: int| 0 <= k < a.len() && a[k] == e;
            assert(r[k] == e);
            let i = choose|i: int| 0 <= i < front.len() && entry_of(#[trigger] front[i]) == Some(e);
            assert(recs[i] == front[i]);
        }
        if entry_of(recs.last()) is Some {
            assert(r[r.len() - 1] == entry_of(recs.last())->0);
        }
        if r.contains(e) && !a.contains(e) {
            assert(entry_of(recs[recs.len() - 1]) == Some(e));
        }
        if exists|i: int| 0 <= i < recs.len() && entry_of(#[trigger] recs[i]) == Some(e) {
            let i = choose|i: int| 0 <= i < recs.len() && entry_of(#[trigger] recs[i]) == Some(e);
            if i < front.len() {
                assert(front[i] == recs[i]);
            }
        }
    }
}

/// Whether a candidate is what was found at an entry: a directory if it is listed
/// as one or is one without being a symlink, and a repository of its own if it is
/// such a directory with a `.git` in it.
pub open spec fn found_at(c: CandidateView, entry: (Seq<char>, bool), stat: EntryStat) -> bool {
    &&& stat.found
    &&& c.rel == entry.0
    &&& c.is_symlink == stat.is_symlink
    &&& c.is_dir <==> entry.1 || stat.is_dir && !stat.is_symlink
    &&& c.nested_repo <==> c.is_dir && !c.is_symlink && stat.has_git
}

proof fn lemma_candidates(
    entries: Seq<(Seq<char>, bool)>,
    stats: Seq<EntryStat>,
    n: nat,
    c: CandidateView,
)
    ensures
        candidates_of(entries, stats, n).contains(c) <==> exists|i: int|
            0 <= i < n && #[trigger] found_at(c, entries[i], stats[i]),
    decreases n,
{
    let r = candidates_of(entries, stats, n);
    if n > 0 {
        let m = (n - 1) as nat;
        let a = candidates_of(entries, stats, m);
        lemma_candidates(entries, stats, m, c);
        let last = candidate_of(entries[m as int], stats[m as int]);
        if a.contains(c) {
            let k = choose|k: int| 0 <= k < a.len() && a[k] == c;
            assert(r[k] == c);
        }
        if stats[m as int].found {
            assert(r[r.len() - 1] == last);
        }
        if found_at(c, entries[m as int], stats[m as int]) {
            assert(c == last);
        }
        if r.contains(c) && !a.contains(c) {
            assert(c == last);
            assert(found_at(c, entries[m as int], stats[m as int]));
        }
    }
}

proof fn lemma_dirs(cands: Seq<CandidateView>, rel: Seq<char>)
    ensures
        dirs_of(cands).contains(rel) <==> exists|i: int|
            0 <= i < cands.len() && (#[trigger] cands[i]).rel == rel && cands[i].is_dir
                && !cands[i].is_symlink,
    decreases cands.len(),
{
    let r = dirs_of(cands);
    if cands.len() > 0 {
        let front = cands.drop_last();
        let a = dirs_of(front);
        lemma_dirs(front, rel);
        if a.contains(rel) {
            let k = choose|k: int| 0 <= k < a.len() && a[k] == rel;
            assert(r[k] == rel);
            let i = choose|i: int|
                0 <= i < front.len() && (#[trigger] front[i]).rel == rel && front[i].is_dir
                    && !front[i].is_symlink;
            assert(cands[i] == front[i]);
        }
        if plain_dir(cands.last()) {
            assert(r[r.len() - 1] == cands.last().rel);
        }
        if r.contains(rel) && !a.contains(rel) {
            assert(cands[cands.len() - 1].rel == rel);
        }
        if exists|i: int|
            0 <= i < cands.len() && (#[trigger] cands[i]).rel == rel && cands[i].is_dir
                && !cands[i].is_symlink {
            let i = choose|i: int|
                0 <= i < cands.len() && (#[trigger] cands[i]).rel == rel && cands[i].is_dir
                    && !cands[i].is_symlink;
            if i < front.len() {
                assert(front[i] == cands[i]);
            }
        }
    }
}

/// Everything that is listed and still there is a candidate, as it was found,
/// unless it is a directory with a file in it that git tracks; nothing else is.
pub proof fn law_every_entry_is_a_candidate(
    raw: Seq<u8>,
    stats: Seq<EntryStat>,
    in_git: Seq<u8>,
    c: CandidateView,
)
    ensures
        ({
            let entries = entries_of(lossy_texts(records(raw)));
            let files = lossy_texts(records(in_git));
            let found = ignored(raw, stats, in_git);
            let there = exists|i: int|
                0 <= i < entries.len() && #[trigger] found_at(c, entries[i], stats[i]);
            let in_index = exists|k: int|
                0 <= k < files.len() && starts(#[trigger] files[k], c.rel + seq!['/']);
            &&& found.contains(c) ==> there
            &&& there && !(c.is_dir && in_index) ==> found.contains(c)
            &&& c.is_dir && !c.is_symlink && in_index ==> !found.contains(c)
        }),
{
    let entries = entries_of(lossy_texts(records(raw)));
    let files = lossy_texts(records(in_git));
    let cands = candidates_of(entries, stats, entries.len());
    let dirs = dirs_of(cands);
    reveal_strlit("/");
    assert("/"@ =~= seq!['/']);
    lemma_candidates(entries, stats, entries.len(), c);
    lemma_filtered(cands, |c: CandidateView| stays(c, dirs, files), c);
    lemma_dirs(cands, c.rel);
    if cands.contains(c) && c.is_dir && !c.is_symlink {
        let i = choose|i: int| 0 <= i < cands.len() && cands[i] == c;
        assert(cands[i].rel == c.rel);
    }
    if exists|k: int| 0 <= k < files.len() && starts(#[trigger] files[k], c.rel + seq!['/']) {
        let k = choose|k: int|
            0 <= k < files.len() && starts(#[trigger] files[k], c.rel + seq!['/']);
        assert(holds_tracked(c.rel, files));
    }
}

/// Git is asked in the source checkout and takes paths literally; the paths stand
/// behind `--`, which only stands there if there are some.
pub proof fn law_git_is_asked_in_the_source(
    source: Seq<char>,
    args: Seq<Seq<char>>,
    paths: Seq<Seq<char>>,
)
    ensures
        git_call(source, args, Seq::empty()) == seq!["-C"@, source, "--literal-pathspecs"@] + args,
        paths.len() > 0 ==> git_call(source, args, paths) == seq![
            "-C"@,
            source,
            "--literal-pathspecs"@,
        ] + args + seq!["--"@] + paths,
{
    let call = seq!["-C"@, source, "--literal-pathspecs"@] + args;
    assert(call.push("--"@) + paths =~= call + seq!["--"@] + paths);
}

/// Git is asked for what it does not track and ignores by its own rules, whole
/// directories as one, and for what it tracks; either way by full paths between
/// NULs.
pub proof fn law_git_is_asked_for_ignored_paths()
    ensures
        ignored_call()[0] == "ls-files"@,
        ignored_call().contains("--others"@),
        ignored_call().contains("--ignored"@),
        ignored_call().contains("--exclude-standard"@),
        ignored_call().contains("--directory"@),
        ignored_call().contains("--full-name"@),
        ignored_call().contains("-z"@),
        ignored_call().len() == 7,
        tracked_call()[0] == "ls-files"@,
        tracked_call().contains("-z"@),
        tracked_call().contains("--full-name"@),
        tracked_call().len() == 3,
{
    let a = ignored_call();
    assert(a[1] == "--others"@);
    assert(a[2] == "--ignored"@);
    assert(a[3] == "--exclude-standard"@);
    assert(a[4] == "--directory"@);
    assert(a[5] == "--full-name"@);
    assert(a[6] == "-z"@);
    let b = tracked_call();
    assert(b[1] == "-z"@);
    assert(b[2] == "--full-name"@);
}

/// A call of git that did not succeed is reported with its words, where it was made
/// and what git said.
pub proof fn law_failed_calls_are_reported(
    git: Seq<char>,
    args: Seq<Seq<char>>,
    source: Seq<char>,
    stderr: Seq<u8>,
    err: Seq<char>,
)
    ensures
        git_not_run(git, source, err) == "running "@ + git + " in "@ + source + ": "@ + err,
        trimmed(lossy_text(stderr)).len() > 0 ==> git_failed(args, source, stderr) == "git "@ + join(
            args,
            " "@,
        ) + " failed in "@ + source + ": "@ + trimmed(lossy_text(stderr)),
        trimmed(lossy_text(stderr)).len() == 0 ==> git_failed(args, source, stderr) == "git "@
            + join(args, " "@) + " failed in "@ + source + ": "@ + "unknown error"@,
{
}

} // verus!
