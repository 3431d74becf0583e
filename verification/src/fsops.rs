//! Bringing files across: copy-on-write wherever the filesystem allows it.
//!
//! Ladder for a directory: a whole-tree clone → per-file reflink walk →
//! size-capped byte copy. Symlinks are recreated as symlinks; absolute links
//! into the source checkout are rewritten to point into the target. Nothing
//! that already exists in the target is touched.

use vstd::prelude::*;
use vstd::string::*;
use vstd::utf8::encode_utf8;
use crate::config::{cap_bytes, CloneMode, Config, ConfigView};
use crate::digits::{decimal, decimal_text, digit, hex, hex_text};
use crate::ostext::{
    law_bytes_come_back, law_no_slash_first, law_ordinary_text_is_itself, legible, legible_text,
    os_bytes, os_text,
};
use crate::paths::{
    absolute, components, from_root, is_under, join_path, joined, law_joined,
    law_under_by_names, lemma_root_split, names, names_of, paths_equal, plain_names, rest_after,
    rest_of, same_components, significant, trim_tail, under,
};
use crate::pieces::{
    fields, fields_at_char, join, join_with, law_split_undoes_join, lemma_split_append,
    lemma_split_len, lemma_split_pieces, nonempty, split,
    split_at_char,
};
use crate::planner::{EntryKind, PlanAction, PlanItem, PlanItemView};
use crate::rules::{pruned, Rules, RulesView};
use crate::text::{
    chars_of, glue, glue3, holds, lemma_texts_push, option_text, same, texts, without_trailing,
};

verus! {

// --- sizes -------------------------------------------------------------------

/// `n / d` to the nearest whole number, and to the even one of two that are
/// equally near.
pub open spec fn half_even(n: nat, d: nat) -> nat {
    let q = n / d;
    let r = n % d;
    if 2 * r < d || (2 * r == d && q % 2 == 0) {
        q
    } else {
        (q + 1) as nat
    }
}

/// The distance between the numbers near `n` that have 53 binary digits: a
/// power of two from `step` on.
pub open spec fn grain(n: nat, step: nat) -> nat
    decreases n / step,
    when step > 0
{
    if n / step < 0x20_0000_0000_0000 {
        step
    } else {
        proof {
            lemma_grain(n, step);
        }
        grain(n, 2 * step)
    }
}

/// Doubling the step brings the quotient down.
pub proof fn lemma_grain(n: nat, step: nat)
    requires
        step > 0,
        n / step >= 0x20_0000_0000_0000,
    ensures
        n / (2 * step) < n / step,
{
    vstd::arithmetic::div_mod::lemma_div_denominator(n as int, step as int, 2);
    assert((n / step) / 2 < n / step);
    assert(step * 2 == 2 * step);
}

/// `n` to the nearest number with 53 significant binary digits.
pub open spec fn to_53_bits(n: nat) -> nat {
    half_even(n, grain(n, 1)) * grain(n, 1)
}

/// How often a size can be divided by 1024 before it is below that, four times
/// at most.
pub open spec fn unit_of(n: nat) -> nat {
    if n < 1024 {
        0
    } else if n < 1048576 {
        1
    } else if n < 1073741824 {
        2
    } else if n < 1099511627776 {
        3
    } else {
        4
    }
}

/// How many bytes there are to a unit.
pub open spec fn unit_size(u: nat) -> nat {
    if u == 0 {
        1
    } else if u == 1 {
        1024
    } else if u == 2 {
        1048576
    } else if u == 3 {
        1073741824
    } else {
        1099511627776
    }
}

/// What a unit is called.
pub open spec fn unit_name(u: nat) -> Seq<char> {
    if u == 0 {
        "B"@
    } else if u == 1 {
        "KB"@
    } else if u == 2 {
        "MB"@
    } else if u == 3 {
        "GB"@
    } else {
        "TB"@
    }
}

/// A size for people: whole bytes below 1024, else one decimal in the largest
/// unit that leaves at least one, of the size to 53 binary digits.
pub open spec fn size_text(bytes: nat) -> Seq<char> {
    let n = to_53_bits(bytes);
    let u = unit_of(n);
    if u == 0 {
        decimal(bytes) + " B"@
    } else {
        let tenths = half_even(10 * n, unit_size(u));
        decimal(tenths / 10) + "."@ + seq![digit(tenths % 10)] + " "@ + unit_name(u)
    }
}

fn round_half_even(n: u128, d: u128) -> (r: u128)
    requires
        0 < d <= 0x1_0000_0000_0000_0000,
        n <= 0x10_0000_0000_0000_0000,
    ensures
        r == half_even(n as nat, d as nat),
        r <= n + 1,
{
    let q: u128 = n / d;
    let rest: u128 = n % d;
    assert(q <= n) by (nonlinear_arith)
        requires
            q == n / d,
            d > 0,
    ;
    if 2 * rest < d || (2 * rest == d && q % 2 == 0) {
        q
    } else {
        q + 1
    }
}

fn nearest_53_bits(bytes: u64) -> (r: u128)
    ensures
        r == to_53_bits(bytes as nat),
        r <= 0x1_0000_0000_0000_0000,
{
    let n: u128 = bytes as u128;
    let mut step: u128 = 1;
    while n / step >= 0x20_0000_0000_0000
        invariant
            n == bytes,
            0 < step <= 4096,
            grain(n as nat, 1) == grain(n as nat, step as nat),
            step == 1 || step == 2 || step == 4 || step == 8 || step == 16 || step == 32 || step
                == 64 || step == 128 || step == 256 || step == 512 || step == 1024 || step == 2048,
        decreases n / step,
    {
        proof {
            lemma_grain(n as nat, step as nat);
            assert(step < 2048);
        }
        step = 2 * step;
    }
    let q: u128 = round_half_even(n, step);
    proof {
        assert(q * step <= 0x1_0000_0000_0000_0000 && q <= 0x20_0000_0000_0000) by {
            let k = n / step;
            assert(k < 0x20_0000_0000_0000);
            assert(q <= 0x20_0000_0000_0000);
            assert(q * step <= 0x20_0000_0000_0000 * 2048) by (nonlinear_arith)
                requires
                    q <= 0x20_0000_0000_0000,
                    step <= 2048,
            ;
        }
    }
    q * step
}

/// A size for people.
pub fn human_bytes(bytes: u64) -> (r: String)
    ensures
        r@ == size_text(bytes as nat),
{
    let n: u128 = nearest_53_bits(bytes);
    if n < 1024 {
        return glue(decimal_text(bytes as u128).as_str(), " B");
    }
    let (size, name): (u128, &str) = if n < 1048576 {
        (1024, "KB")
    } else if n < 1073741824 {
        (1048576, "MB")
    } else if n < 1099511627776 {
        (1073741824, "GB")
    } else {
        (1099511627776, "TB")
    };
    let tenths: u128 = round_half_even(10 * n, size);
    let mut out = decimal_text(tenths / 10);
    out.append(".");
    let ghost so_far = out@;
    let last = decimal_text(tenths % 10);
    out.append(last.as_str());
    assert(last@ =~= seq![digit((tenths % 10) as nat)]);
    out.append(" ");
    out.append(name);
    out
}

// --- destinations ------------------------------------------------------------

/// What is known of the paths in the worktree.
#[derive(Debug)]
pub struct TargetView {
    /// The paths at which there is something, be it a dangling symlink.
    pub present: Vec<String>,
    /// Those of them that are symlinks.
    pub symlinks: Vec<String>,
}

/// The path that is reached from `target` through the first `n` parts.
pub open spec fn descent(target: Seq<char>, parts: Seq<Seq<char>>, n: nat) -> Seq<char>
    decreases n,
{
    if n == 0 {
        target
    } else {
        joined(descent(target, parts, (n - 1) as nat), parts[n - 1])
    }
}

/// A part that names no child: `.` or `..`.
pub open spec fn dotted(part: Seq<char>) -> bool {
    part == "."@ || part == ".."@
}

/// What stands in the way of writing to `rel`, from its part `i` on: a part
/// that names no child, or a symlink that is not the last part.
pub open spec fn obstacle(
    target: Seq<char>,
    rel: Seq<char>,
    links: Seq<Seq<char>>,
    i: nat,
) -> Option<Seq<char>>
    decreases fields(rel, '/').len() - i,
{
    let parts = fields(rel, '/');
    let here = descent(target, parts, i + 1);
    if i >= parts.len() {
        None
    } else if dotted(parts[i as int]) {
        Some("`"@ + rel + "` contains a `"@ + parts[i as int] + "` component"@)
    } else if i + 1 < parts.len() && links.contains(here) {
        Some(here + " is a symlink; refusing to write through it"@)
    } else {
        obstacle(target, rel, links, i + 1)
    }
}

/// The path of `rel` under `target` where it can be reached without passing a
/// symlink, given which paths are symlinks; otherwise the reason.
pub open spec fn contained(target: Seq<char>, rel: Seq<char>, links: Seq<Seq<char>>) -> Result<
    Seq<char>,
    Seq<char>,
> {
    let parts = fields(rel, '/');
    if parts.len() == 0 {
        Err("empty relative path"@)
    } else {
        match obstacle(target, rel, links, 0) {
            Some(reason) => Err(reason),
            None => Ok(descent(target, parts, parts.len())),
        }
    }
}

/// The paths that are passed on the way from `target` to `rel`, its own last.
pub open spec fn passed(target: Seq<char>, rel: Seq<char>) -> Seq<Seq<char>> {
    let parts = fields(rel, '/');
    Seq::new(parts.len(), |i: int| descent(target, parts, (i + 1) as nat))
}

/// The text of a result, be it a path or a reason.
pub open spec fn result_text(r: Result<String, String>) -> Result<Seq<char>, Seq<char>> {
    match r {
        Ok(s) => Ok(s@),
        Err(s) => Err(s@),
    }
}

/// Join `rel` under `target` without ever passing a symlink.
///
/// The target is a freshly checked-out branch, and git stores a symlink as an
/// ordinary tracked file: a committed `packages -> /elsewhere` would lead a
/// copy out of the worktree. So each component is looked at on its own. The
/// last one may be a symlink: the item then counts as already present.
pub fn contained_dst(target: &str, rel: &str, symlinks: &Vec<String>) -> (r: Result<
    String,
    String,
>)
    ensures
        result_text(r) == contained(target@, rel@, texts(symlinks@)),
{
    let parts = fields_at_char(rel, '/');
    let ghost p = fields(rel@, '/');
    let ghost links = texts(symlinks@);
    assert(texts(parts@).len() == parts@.len());
    if parts.len() == 0 {
        return Err("empty relative path".to_owned());
    }
    let mut cur = target.to_owned();
    let mut i: usize = 0;
    while i < parts.len()
        invariant
            i <= parts.len(),
            p == fields(rel@, '/'),
            texts(parts@) == p,
            p.len() == parts@.len(),
            links == texts(symlinks@),
            cur@ == descent(target@, p, i as nat),
            obstacle(target@, rel@, links, 0) == obstacle(target@, rel@, links, i as nat),
        decreases parts.len() - i,
    {
        assert(p[i as int] == parts@[i as int]@);
        let part = parts[i].as_str();
        if same(part, ".") || same(part, "..") {
            let mut out = glue3("`", rel, "` contains a `");
            out.append(part);
            out.append("` component");
            return Err(out);
        }
        cur = join_path(cur.as_str(), part);
        if i + 1 < parts.len() && holds(symlinks, cur.as_str()) {
            return Err(glue(cur.as_str(), " is a symlink; refusing to write through it"));
        }
        i += 1;
    }
    Ok(cur)
}

/// The paths to look at before `rel` under `target` is written.
pub fn component_paths(target: &str, rel: &str) -> (r: Vec<String>)
    ensures
        texts(r@) == passed(target@, rel@),
{
    broadcast use lemma_texts_push;

    let parts = fields_at_char(rel, '/');
    let ghost p = fields(rel@, '/');
    assert(texts(parts@).len() == parts@.len());
    let mut cur = target.to_owned();
    let mut out: Vec<String> = Vec::new();
    let mut i: usize = 0;
    while i < parts.len()
        invariant
            i <= parts.len(),
            p == fields(rel@, '/'),
            texts(parts@) == p,
            p.len() == parts@.len(),
            cur@ == descent(target@, p, i as nat),
            texts(out@) =~= passed(target@, rel@).take(i as int),
        decreases parts.len() - i,
    {
        assert(p[i as int] == parts@[i as int]@);
        cur = join_path(cur.as_str(), parts[i].as_str());
        out.push(cur.clone());
        assert(passed(target@, rel@).take(i as int).push(cur@) =~= passed(target@, rel@).take(
            i + 1,
        ));
        i += 1;
    }
    assert(passed(target@, rel@).take(i as int) =~= passed(target@, rel@));
    out
}

/// A path gets longer by one component where a name is joined to it.
proof fn lemma_components_joined(base: Seq<char>, part: Seq<char>)
    requires
        base.len() > 0,
        significant(part),
        !part.contains('/'),
    ensures
        components(joined(base, part)) == components(base).push(part),
        joined(base, part).len() > 0,
{
    let j = joined(base, part);
    assert(part.contains(part[0]));
    assert(!absolute(part));
    reveal(Seq::filter);
    if base.last() == '/' {
        let front = base.drop_last();
        assert(front.push('/') =~= base);
        assert(j =~= front.push('/') + part);
        lemma_split_append(front, part, '/');
        lemma_split_append(front, Seq::empty(), '/');
        assert(front.push('/') + Seq::<char>::empty() =~= base);
        let f = split(front, '/');
        lemma_split_len(front, '/');
        assert(split(base, '/') == f.push(Seq::empty()));
        assert(f.push(part).drop_last() =~= f);
        assert(f.push(Seq::<char>::empty()).drop_last() =~= f);
        assert(names(split(base, '/')) == names(f));
        assert(names(split(j, '/')) == names(f).push(part));
        assert(j[0] == base[0]);
        assert(split(j, '/')[0] == f[0]);
        assert(split(base, '/')[0] == f[0]);
        assert(components(j) =~= components(base).push(part));
    } else {
        lemma_split_append(base, part, '/');
        let b = split(base, '/');
        lemma_split_len(base, '/');
        assert(b.push(part).drop_last() =~= b);
        assert(names(split(j, '/')) == names(b).push(part));
        assert(j[0] == base[0]);
        assert(split(j, '/')[0] == b[0]);
        assert(components(j) =~= components(base).push(part));
    }
}

/// The parts of a path hold something, and no `/`.
proof fn lemma_fields(s: Seq<char>, i: int)
    requires
        0 <= i < fields(s, '/').len(),
    ensures
        fields(s, '/')[i].len() > 0,
        !fields(s, '/')[i].contains('/'),
{
    lemma_split_pieces(s, '/');
    lemma_filtered(split(s, '/'), i);
}

proof fn lemma_filtered(all: Seq<Seq<char>>, i: int)
    requires
        0 <= i < all.filter(nonempty()).len(),
        forall|k: int| 0 <= k < all.len() ==> !(#[trigger] all[k]).contains('/'),
    ensures
        all.filter(nonempty())[i].len() > 0,
        !all.filter(nonempty())[i].contains('/'),
    decreases all.len(),
{
    reveal(Seq::filter);
    if all.len() > 0 {
        let front = all.drop_last();
        assert forall|k: int| 0 <= k < front.len() implies !(#[trigger] front[k]).contains('/') by {
            assert(front[k] == all[k]);
        }
        if i < front.filter(nonempty()).len() {
            lemma_filtered(front, i);
        } else {
            assert(all.filter(nonempty())[i] == all[all.len() - 1]);
        }
    }
}

proof fn lemma_no_obstacle(target: Seq<char>, rel: Seq<char>, links: Seq<Seq<char>>, i: nat, k: int)
    requires
        obstacle(target, rel, links, i) is None,
        i <= k < fields(rel, '/').len(),
    ensures
        !dotted(fields(rel, '/')[k]),
        k + 1 < fields(rel, '/').len() ==> !links.contains(
            descent(target, fields(rel, '/'), (k + 1) as nat),
        ),
    decreases fields(rel, '/').len() - i,
{
    if i < k {
        lemma_no_obstacle(target, rel, links, i + 1, k);
    }
}

proof fn lemma_descent(target: Seq<char>, parts: Seq<Seq<char>>, n: nat)
    requires
        target.len() > 0,
        n <= parts.len(),
        forall|k: int|
            0 <= k < parts.len() ==> significant(#[trigger] parts[k]) && !parts[k].contains('/'),
    ensures
        components(descent(target, parts, n)) == components(target) + parts.take(n as int),
        descent(target, parts, n).len() > 0,
    decreases n,
{
    if n == 0 {
        assert(components(target) + parts.take(0) =~= components(target));
    } else {
        let m = (n - 1) as nat;
        lemma_descent(target, parts, m);
        assert(significant(parts[n - 1]));
        lemma_components_joined(descent(target, parts, m), parts[n - 1]);
        assert((components(target) + parts.take(m as int)).push(parts[n - 1]) =~= components(target)
            + parts.take(n as int));
    }
}

/// Writes are confined to the worktree: a destination that is granted has the
/// components of the worktree followed by those of the relative path, none of
/// which climbs out, and no symlink is passed on the way.
pub proof fn law_destination_is_contained(target: Seq<char>, rel: Seq<char>, links: Seq<Seq<char>>)
    requires
        target.len() > 0,
        contained(target, rel, links) is Ok,
    ensures
        components(contained(target, rel, links)->Ok_0) == components(target) + fields(rel, '/'),
        forall|i: int|
            0 <= i < fields(rel, '/').len() ==> (#[trigger] fields(rel, '/')[i]) != ".."@,
        forall|i: int|
            0 <= i < passed(target, rel).len() - 1 ==> !links.contains(
                #[trigger] passed(target, rel)[i],
            ),
        passed(target, rel).last() == contained(target, rel, links)->Ok_0,
{
    let parts = fields(rel, '/');
    assert forall|k: int| 0 <= k < parts.len() implies significant(#[trigger] parts[k])
        && !parts[k].contains('/') && parts[k] != ".."@ by {
        lemma_fields(rel, k);
        lemma_no_obstacle(target, rel, links, 0, k);
        reveal_strlit(".");
        assert("."@ =~= seq!['.']);
    }
    lemma_descent(target, parts, parts.len());
    assert(parts.take(parts.len() as int) =~= parts);
    assert forall|i: int| 0 <= i < passed(target, rel).len() - 1 implies !links.contains(
        #[trigger] passed(target, rel)[i],
    ) by {
        lemma_no_obstacle(target, rel, links, 0, i);
    }
}

// --- outcomes ----------------------------------------------------------------

/// How something was brought over.
#[derive(Debug, Clone, Copy, PartialEq, Eq, Structural)]
pub enum Method {
    ApfsClone,
    Reflink,
    Copy,
    Symlink,
}

impl Method {
    pub open spec fn text(self) -> Seq<char> {
        match self {
            Method::ApfsClone => "APFS clone"@,
            Method::Reflink => "reflink"@,
            Method::Copy => "copy"@,
            Method::Symlink => "symlink"@,
        }
    }

    /// The name of the method for people.
    pub fn label(self) -> (r: &'static str)
        ensures
            r@ == self.text(),
    {
        match self {
            Method::ApfsClone => "APFS clone",
            Method::Reflink => "reflink",
            Method::Copy => "copy",
            Method::Symlink => "symlink",
        }
    }
}

/// What came of bringing an item over.
#[derive(Debug, PartialEq, Eq)]
pub enum Outcome {
    Done { method: Method, files: u64, bytes: u64 },
    Exists,
    TooLarge { bytes: u64 },
    /// Refused for safety — e.g. the destination path crosses a symlink, or the
    /// source is not a regular file. Never a transient error.
    Refused(String),
    Failed(String),
}

/// What an outcome says.
#[verifier::ext_equal]
pub enum OutcomeView {
    Done { method: Method, files: u64, bytes: u64 },
    Exists,
    TooLarge { bytes: u64 },
    Refused(Seq<char>),
    Failed(Seq<char>),
}

impl View for Outcome {
    type V = OutcomeView;

    open spec fn view(&self) -> OutcomeView {
        match *self {
            Outcome::Done { method, files, bytes } => OutcomeView::Done { method, files, bytes },
            Outcome::Exists => OutcomeView::Exists,
            Outcome::TooLarge { bytes } => OutcomeView::TooLarge { bytes },
            Outcome::Refused(reason) => OutcomeView::Refused(reason@),
            Outcome::Failed(err) => OutcomeView::Failed(err@),
        }
    }
}

// --- the copier --------------------------------------------------------------

/// Brings items from the source checkout into the worktree.
#[derive(Debug)]
pub struct Copier {
    source: String,
    target: String,
    source_prefixes: Vec<String>,
    mode: CloneMode,
    /// How many bytes of one directory may be really copied.
    pub per_dir_cap: u64,
    total_cap: u64,
    plain_copied: u64,
    rules: Rules,
}

/// What a copier goes by.
#[verifier::ext_equal]
pub struct CopierView {
    pub source: Seq<char>,
    pub target: Seq<char>,
    /// The paths that stand for the source checkout in a link.
    pub prefixes: Seq<Seq<char>>,
    pub mode: CloneMode,
    pub per_dir_cap: u64,
    pub total_cap: u64,
    /// How many bytes were really copied so far.
    pub plain_copied: u64,
    pub rules: RulesView,
}

impl View for Copier {
    type V = CopierView;

    closed spec fn view(&self) -> CopierView {
        CopierView {
            source: self.source@,
            target: self.target@,
            prefixes: texts(self.source_prefixes@),
            mode: self.mode,
            per_dir_cap: self.per_dir_cap,
            total_cap: self.total_cap,
            plain_copied: self.plain_copied,
            rules: self.rules@,
        }
    }
}

/// The paths that stand for the source checkout: its own, and its canonical one
/// where that is another.
pub open spec fn source_paths(source: Seq<char>, canonical: Option<Seq<char>>) -> Seq<Seq<char>> {
    match canonical {
        Some(c) => if same_components(c, source) {
            seq![source]
        } else {
            seq![source, c]
        },
        None => seq![source],
    }
}

/// A copier that has not copied anything yet.
pub open spec fn copier_for(
    source: Seq<char>,
    target: Seq<char>,
    canonical: Option<Seq<char>>,
    cfg: ConfigView,
    rules: RulesView,
) -> CopierView {
    CopierView {
        source,
        target,
        prefixes: source_paths(source, canonical),
        mode: cfg.mode,
        per_dir_cap: cap_bytes(cfg.copy_size_cap_mb),
        total_cap: cap_bytes(cfg.total_size_cap_mb),
        plain_copied: 0,
        rules,
    }
}

/// The first of the paths from `i` on that `link` lies under.
pub open spec fn first_under(link: Seq<char>, prefixes: Seq<Seq<char>>, i: nat) -> Option<nat>
    decreases prefixes.len() - i,
{
    if i >= prefixes.len() {
        None
    } else if under(link, prefixes[i as int]) {
        Some(i)
    } else {
        first_under(link, prefixes, i + 1)
    }
}

/// Where a link is to point in the worktree: an absolute link into the source
/// checkout points to the same place in the worktree, unless what follows climbs;
/// any other link stays as it is.
pub open spec fn relinked(c: CopierView, link: Seq<char>) -> Seq<char> {
    if !absolute(link) {
        link
    } else {
        match first_under(link, c.prefixes, 0) {
            None => link,
            Some(k) => {
                let rest = rest_after(
                    split(link, '/'),
                    names(split(c.prefixes[k as int], '/')).len(),
                );
                if rest.contains(".."@) {
                    link
                } else {
                    joined(c.target, join(rest, "/"@))
                }
            },
        }
    }
}

/// Whether really copying `bytes` would breach a cap. Cloned bytes cost no disk
/// and are never charged.
pub open spec fn over_cap(c: CopierView, bytes: u64) -> bool {
    bytes > c.per_dir_cap || charged_total(c, bytes) > c.total_cap
}

/// How many bytes will really have been copied after `bytes` more, or the
/// greatest number there is room for.
pub open spec fn charged_total(c: CopierView, bytes: u64) -> int {
    if c.plain_copied + bytes > u64::MAX {
        u64::MAX as int
    } else {
        c.plain_copied + bytes
    }
}

/// What is to be done for an item.
#[derive(Debug)]
pub enum ItemStep {
    /// Nothing: this is the outcome.
    Over(Outcome),
    /// Make the parent directories, then a symlink at `dst` that points to `src`.
    Link { src: String, dst: String },
    /// Make the parent directories, then at `dst` the symlink that is at `src`.
    Relink { src: String, dst: String },
    /// Make the parent directories, then copy the file at `src` to `dst`.
    File { src: String, dst: String },
    /// Make the parent directories, then copy the tree at `src` to `dst`.
    Tree { src: String, dst: String },
}

/// What a step says.
#[verifier::ext_equal]
pub enum ItemStepView {
    Over(OutcomeView),
    Link { src: Seq<char>, dst: Seq<char> },
    Relink { src: Seq<char>, dst: Seq<char> },
    File { src: Seq<char>, dst: Seq<char> },
    Tree { src: Seq<char>, dst: Seq<char> },
}

impl View for ItemStep {
    type V = ItemStepView;

    open spec fn view(&self) -> ItemStepView {
        match *self {
            ItemStep::Over(outcome) => ItemStepView::Over(outcome@),
            ItemStep::Link { src, dst } => ItemStepView::Link { src: src@, dst: dst@ },
            ItemStep::Relink { src, dst } => ItemStepView::Relink { src: src@, dst: dst@ },
            ItemStep::File { src, dst } => ItemStepView::File { src: src@, dst: dst@ },
            ItemStep::Tree { src, dst } => ItemStepView::Tree { src: src@, dst: dst@ },
        }
    }
}

/// What is to be done for an item, given what there is in the worktree.
pub open spec fn item_step(
    c: CopierView,
    item: PlanItemView,
    present: Seq<Seq<char>>,
    links: Seq<Seq<char>>,
) -> ItemStepView {
    match item.action {
        None => ItemStepView::Over(OutcomeView::Failed("no action"@)),
        Some(action) => match contained(c.target, item.rel, links) {
            Err(reason) => ItemStepView::Over(OutcomeView::Refused(reason)),
            Ok(dst) => {
                let src = joined(c.source, item.rel);
                if present.contains(dst) {
                    ItemStepView::Over(OutcomeView::Exists)
                } else if action == PlanAction::Symlink {
                    ItemStepView::Link { src, dst }
                } else if item.is_symlink {
                    ItemStepView::Relink { src, dst }
                } else if action == PlanAction::Copy && !item.is_dir {
                    ItemStepView::File { src, dst }
                } else {
                    ItemStepView::Tree { src, dst }
                }
            },
        },
    }
}

/// The directories that have to be there before `rel` is written: each in the
/// worktree, with the one in the source checkout whose mode it takes.
pub open spec fn parents(source: Seq<char>, target: Seq<char>, rel: Seq<char>) -> Seq<
    (Seq<char>, Seq<char>),
> {
    let parts = fields(rel, '/');
    let n = if parts.len() > 0 {
        (parts.len() - 1) as nat
    } else {
        0
    };
    Seq::new(
        n,
        |i: int|
            (descent(target, parts, (i + 1) as nat), descent(source, parts, (i + 1) as nat)),
    )
}

/// What came of a symlink.
pub open spec fn linked(r: Result<(), String>) -> OutcomeView {
    match r {
        Ok(_) => OutcomeView::Done { method: Method::Symlink, files: 1, bytes: 0 },
        Err(e) => OutcomeView::Failed("symlink: "@ + e@),
    }
}

/// What is to be done for a file.
#[derive(Debug)]
pub enum FileStep {
    /// Nothing more: this is the outcome.
    Over(Outcome),
    /// Try a reflink.
    Reflink { bytes: u64 },
    /// Copy the bytes.
    Copy,
}

/// What a step for a file says.
#[verifier::ext_equal]
pub enum FileStepView {
    Over(OutcomeView),
    Reflink { bytes: u64 },
    Copy,
}

impl View for FileStep {
    type V = FileStepView;

    open spec fn view(&self) -> FileStepView {
        match *self {
            FileStep::Over(outcome) => FileStepView::Over(outcome@),
            FileStep::Reflink { bytes } => FileStepView::Reflink { bytes },
            FileStep::Copy => FileStepView::Copy,
        }
    }
}

/// What came of a reflink.
#[derive(Debug)]
pub enum Reflinked {
    Made,
    /// The filesystem cannot do it.
    Unsupported,
    Failed(String),
}

/// A file of so many bytes is really copied, unless that would breach a cap.
pub open spec fn plain_step(c: CopierView, bytes: u64) -> FileStepView {
    if over_cap(c, bytes) {
        FileStepView::Over(OutcomeView::TooLarge { bytes })
    } else {
        FileStepView::Copy
    }
}

/// What is to be done for a file of which `meta` says whether it is a regular
/// one and how many bytes it has.
pub open spec fn file_step(c: CopierView, meta: Result<(bool, u64), String>) -> FileStepView {
    match meta {
        Err(e) => FileStepView::Over(OutcomeView::Failed("stat: "@ + e@)),
        Ok(m) => if !m.0 {
            FileStepView::Over(OutcomeView::Refused("not a regular file"@))
        } else if c.mode == CloneMode::Reflink {
            FileStepView::Reflink { bytes: m.1 }
        } else {
            plain_step(c, m.1)
        },
    }
}

/// What is to be done after a reflink was tried.
pub open spec fn reflink_step(c: CopierView, bytes: u64, r: Reflinked) -> FileStepView {
    match r {
        Reflinked::Made => FileStepView::Over(
            OutcomeView::Done { method: Method::Reflink, files: 1, bytes },
        ),
        Reflinked::Failed(e) => FileStepView::Over(OutcomeView::Failed("copy: "@ + e@)),
        Reflinked::Unsupported => plain_step(c, bytes),
    }
}

/// What came of copying a file byte by byte.
pub open spec fn copied(r: Result<u64, String>) -> OutcomeView {
    match r {
        Ok(n) => OutcomeView::Done { method: Method::Copy, files: 1, bytes: n },
        Err(e) => OutcomeView::Failed("copy: "@ + e@),
    }
}

/// The bytes that were really copied after one more copy.
pub open spec fn charged(c: CopierView, r: Result<u64, String>) -> CopierView {
    match r {
        Ok(n) => CopierView { plain_copied: (c.plain_copied + n) as u64, ..c },
        Err(_) => c,
    }
}

/// Whether an error of a reflink says that the filesystem cannot do it: by its
/// kind, or by one of the operating system's codes for that.
#[derive(Debug, Clone, Copy, PartialEq, Eq, Structural)]
pub enum ErrorKind {
    Unsupported,
    CrossesDevices,
    InvalidInput,
    Other,
}

/// Whether an error of a reflink says that the filesystem cannot do it. `codes`
/// are the operating system's codes for that.
pub fn is_unsupported(kind: ErrorKind, code: Option<i32>, codes: &Vec<i32>) -> (r: bool)
    ensures
        r == (kind != ErrorKind::Other || (code is Some && codes@.contains(code->0))),
{
    if !matches!(kind, ErrorKind::Other) {
        return true;
    }
    match code {
        None => false,
        Some(c) => {
            let mut i: usize = 0;
            while i < codes.len()
                invariant
                    i <= codes.len(),
                    code == Some(c),
                    forall|j: int| 0 <= j < i ==> codes@[j] != c,
                decreases codes.len() - i,
            {
                if codes[i] == c {
                    return true;
                }
                i += 1;
            }
            false
        },
    }
}

/// The name of the file with which it is tried out whether reflinks work.
pub open spec fn probe_file(pid: u32, nonce: u32) -> Seq<char> {
    ".hws-probe-"@ + decimal(pid as nat) + "-"@ + hex(nonce as nat, 8)
}

/// The name of the file with which it is tried out whether reflinks work.
pub fn probe_name(pid: u32, nonce: u32) -> (r: String)
    ensures
        r@ == probe_file(pid, nonce),
{
    let mut out = glue(".hws-probe-", decimal_text(pid as u128).as_str());
    out.append("-");
    out.append(hex_text(nonce as u64, 8).as_str());
    out
}

impl Copier {
    /// A copier from `source` to `target`. `canonical` is the canonical path of
    /// the source, if it has one.
    pub fn new(
        source: &str,
        target: &str,
        canonical: Option<String>,
        cfg: &Config,
        rules: Rules,
    ) -> (r: Copier)
        ensures
            r@ == copier_for(source@, target@, option_text(canonical), cfg@, rules@),
    {
        broadcast use lemma_texts_push;

        let mut source_prefixes: Vec<String> = Vec::new();
        source_prefixes.push(source.to_owned());
        assert(texts(source_prefixes@) =~= seq![source@]);
        let ghost canon = option_text(canonical);
        match canonical {
            Some(c) => {
                if !paths_equal(c.as_str(), source) {
                    source_prefixes.push(c);
                    assert(texts(source_prefixes@) =~= seq![source@, c@]);
                }
            },
            None => {},
        }
        Copier {
            source: source.to_owned(),
            target: target.to_owned(),
            source_prefixes,
            mode: cfg.mode,
            per_dir_cap: cfg.copy_size_cap_bytes(),
            total_cap: cfg.total_size_cap_bytes(),
            plain_copied: 0,
            rules,
        }
    }

    /// What is to be done for an item, given what there is in the worktree.
    pub fn apply(&self, item: &PlanItem, view: &TargetView) -> (r: ItemStep)
        ensures
            r@ == item_step(self@, item@, texts(view.present@), texts(view.symlinks@)),
    {
        let action = match item.action {
            Some(a) => a,
            None => {
                return ItemStep::Over(Outcome::Failed("no action".to_owned()));
            },
        };
        let src = join_path(self.source.as_str(), item.rel.as_str());
        let dst = match contained_dst(self.target.as_str(), item.rel.as_str(), &view.symlinks) {
            Ok(dst) => dst,
            Err(err) => {
                return ItemStep::Over(Outcome::Refused(err));
            },
        };
        if holds(&view.present, dst.as_str()) {
            return ItemStep::Over(Outcome::Exists);
        }
        match action {
            PlanAction::Symlink => ItemStep::Link { src, dst },
            _ if item.is_symlink => ItemStep::Relink { src, dst },
            PlanAction::Copy if !item.is_dir => ItemStep::File { src, dst },
            _ => ItemStep::Tree { src, dst },
        }
    }

    /// The directories that have to be there before `rel` is written, each with
    /// the one whose mode it takes: without that, a directory that only its
    /// owner may read would become one that all may.
    pub fn ensure_parent(&self, rel: &str) -> (r: Vec<(String, String)>)
        ensures
            crate::envmap::pair_texts(r@) == parents(self@.source, self@.target, rel@),
    {
        let parts = fields_at_char(rel, '/');
        let ghost p = fields(rel@, '/');
        let ghost all = parents(self@.source, self@.target, rel@);
        assert(texts(parts@).len() == parts@.len());
        let mut out: Vec<(String, String)> = Vec::new();
        let mut dir = self.target.clone();
        let mut src_dir = self.source.clone();
        let mut i: usize = 0;
        while parts.len() > 0 && i < parts.len() - 1
            invariant
                i <= parts.len(),
                parts.len() > 0 ==> i <= parts.len() - 1,
                p == fields(rel@, '/'),
                texts(parts@) == p,
                p.len() == parts@.len(),
                all == parents(self@.source, self@.target, rel@),
                dir@ == descent(self@.target, p, i as nat),
                src_dir@ == descent(self@.source, p, i as nat),
                crate::envmap::pair_texts(out@) =~= all.take(i as int),
            decreases parts.len() - i,
        {
            assert(p[i as int] == parts@[i as int]@);
            dir = join_path(dir.as_str(), parts[i].as_str());
            src_dir = join_path(src_dir.as_str(), parts[i].as_str());
            let ghost before = out@;
            out.push((dir.clone(), src_dir.clone()));
            assert(crate::envmap::pair_texts(out@) =~= crate::envmap::pair_texts(before).push(
                (dir@, src_dir@),
            ));
            i += 1;
        }
        assert(all.take(i as int) =~= all);
        out
    }

    /// What came of making a symlink.
    pub fn make_symlink(&self, made: Result<(), String>) -> (r: Outcome)
        ensures
            r@ == linked(made),
    {
        match made {
            Ok(_) => Outcome::Done { method: Method::Symlink, files: 1, bytes: 0 },
            Err(e) => Outcome::Failed(glue("symlink: ", e.as_str())),
        }
    }

    /// Where a link is to point in the worktree.
    pub fn rewrite_link_target(&self, link_target: &str) -> (r: String)
        ensures
            r@ == relinked(self@, link_target@),
    {
        proof {
            reveal_strlit("/");
            assert("/"@ =~= seq!['/']);
        }
        let chars = chars_of(link_target);
        if chars.len() == 0 || chars[0] != '/' {
            return link_target.to_owned();
        }
        let ghost prefixes = texts(self.source_prefixes@);
        let mut i: usize = 0;
        while i < self.source_prefixes.len()
            invariant
                i <= self.source_prefixes.len(),
                prefixes == texts(self.source_prefixes@),
                prefixes == self@.prefixes,
                absolute(link_target@),
                "/"@ == seq!['/'],
                first_under(link_target@, prefixes, 0) == first_under(
                    link_target@,
                    prefixes,
                    i as nat,
                ),
            decreases self.source_prefixes.len() - i,
        {
            let prefix = self.source_prefixes[i].as_str();
            assert(prefixes[i as int] == prefix@);
            if is_under(link_target, prefix) {
                let n: usize = names_of(&split_at_char(prefix, '/')).len();
                assert(n == names(split(prefix@, '/')).len());
                let rest = rest_of(&split_at_char(link_target, '/'), n);
                if holds(&rest, "..") {
                    return link_target.to_owned();
                }
                let tail = join_with(&rest, "/");
                return join_path(self.target.as_str(), tail.as_str());
            }
            i += 1;
        }
        link_target.to_owned()
    }

    /// Where the symlink is to point that stands for one in the source, or the
    /// outcome where that one could not be read.
    pub fn recreate_symlink(&self, read: Result<String, String>) -> (r: Result<String, Outcome>)
        ensures
            match read {
                Ok(link) => r matches Ok(t) && t@ == relinked(self@, link@),
                Err(e) => r matches Err(o) && o@ == OutcomeView::Failed("read_link: "@ + e@),
            },
    {
        match read {
            Ok(link) => Ok(self.rewrite_link_target(link.as_str())),
            Err(e) => Err(Outcome::Failed(glue("read_link: ", e.as_str()))),
        }
    }

    /// `Some(TooLarge)` where really copying so many bytes would breach a cap.
    pub fn cap_exceeded(&self, bytes: u64) -> (r: Option<Outcome>)
        ensures
            match r {
                Some(o) => over_cap(self@, bytes) && o@ == (OutcomeView::TooLarge { bytes }),
                None => !over_cap(self@, bytes),
            },
    {
        let total: u64 = match self.plain_copied.checked_add(bytes) {
            Some(n) => n,
            None => u64::MAX,
        };
        if bytes > self.per_dir_cap || total > self.total_cap {
            Some(Outcome::TooLarge { bytes })
        } else {
            None
        }
    }

    /// What is to be done for a file, of which `meta` says whether it is a
    /// regular one and how many bytes it has. Anything else would block forever
    /// when it is opened, a FIFO above all.
    pub fn copy_file(&self, meta: Result<(bool, u64), String>) -> (r: FileStep)
        ensures
            r@ == file_step(self@, meta),
    {
        match meta {
            Err(e) => FileStep::Over(Outcome::Failed(glue("stat: ", e.as_str()))),
            Ok((is_file, bytes)) => {
                if !is_file {
                    return FileStep::Over(Outcome::Refused("not a regular file".to_owned()));
                }
                if matches!(self.mode, CloneMode::Reflink) {
                    return FileStep::Reflink { bytes };
                }
                self.copy_plainly(bytes)
            },
        }
    }

    fn copy_plainly(&self, bytes: u64) -> (r: FileStep)
        ensures
            r@ == plain_step(self@, bytes),
    {
        match self.cap_exceeded(bytes) {
            Some(too_large) => FileStep::Over(too_large),
            None => FileStep::Copy,
        }
    }

    /// What is to be done for a file after a reflink was tried.
    pub fn file_reflinked(&self, bytes: u64, tried: Reflinked) -> (r: FileStep)
        ensures
            r@ == reflink_step(self@, bytes, tried),
    {
        match tried {
            Reflinked::Made => FileStep::Over(
                Outcome::Done { method: Method::Reflink, files: 1, bytes },
            ),
            Reflinked::Failed(e) => FileStep::Over(Outcome::Failed(glue("copy: ", e.as_str()))),
            Reflinked::Unsupported => self.copy_plainly(bytes),
        }
    }

    /// What came of copying a file byte by byte. The bytes are charged.
    pub fn file_copied(&mut self, result: Result<u64, String>) -> (r: Outcome)
        requires
            result matches Ok(n) ==> old(self)@.plain_copied + n <= u64::MAX,
        ensures
            r@ == copied(result),
            final(self)@ == charged(old(self)@, result),
    {
        match result {
            Ok(n) => {
                self.plain_copied = self.plain_copied + n;
                Outcome::Done { method: Method::Copy, files: 1, bytes: n }
            },
            Err(e) => Outcome::Failed(glue("copy: ", e.as_str())),
        }
    }

    /// How many bytes were really copied so far.
    pub fn plain_bytes(&self) -> (r: u64)
        ensures
            r == self@.plain_copied,
    {
        self.plain_copied
    }
}

// --- trees -------------------------------------------------------------------

/// What a walk over a tree found out: how many bytes its files have, and a file
/// to try a reflink with.
#[derive(Debug)]
pub struct TreeScan {
    pub size: u64,
    pub probe: Option<String>,
}

/// What a walk over a tree has found so far.
#[verifier::ext_equal]
pub struct TreeScanView {
    pub size: u64,
    pub probe: Option<Seq<char>>,
}

impl View for TreeScan {
    type V = TreeScanView;

    open spec fn view(&self) -> TreeScanView {
        TreeScanView { size: self.size, probe: option_text(self.probe) }
    }
}

impl TreeScan {
    pub fn new() -> (r: TreeScan)
        ensures
            r@ == (TreeScanView { size: 0, probe: None }),
    {
        TreeScan { size: 0, probe: None }
    }

    /// Take note of a file of the tree.
    pub fn file(&mut self, path: &str, bytes: u64)
        requires
            old(self)@.size + bytes <= u64::MAX,
        ensures
            final(self)@ == (TreeScanView {
                size: (old(self)@.size + bytes) as u64,
                probe: match old(self)@.probe {
                    Some(p) => Some(p),
                    None => Some(path@),
                },
            }),
    {
        self.size = self.size + bytes;
        if self.probe.is_none() {
            self.probe = Some(path.to_owned());
        }
    }
}

/// A tree that is being copied. The paths in it stand for bytes, as in `ostext`.
#[derive(Debug)]
pub struct TreeCopy {
    pub rel: String,
    pub dst: String,
    pub reflink: bool,
    pub files: u64,
    pub bytes: u64,
}

/// How far a tree has been copied.
#[verifier::ext_equal]
pub struct TreeCopyView {
    pub rel: Seq<char>,
    pub dst: Seq<char>,
    pub reflink: bool,
    pub files: u64,
    pub bytes: u64,
}

impl View for TreeCopy {
    type V = TreeCopyView;

    open spec fn view(&self) -> TreeCopyView {
        TreeCopyView {
            rel: self.rel@,
            dst: self.dst@,
            reflink: self.reflink,
            files: self.files,
            bytes: self.bytes,
        }
    }
}

/// Whether a tree is reflinked file by file.
pub open spec fn tree_reflinks(c: CopierView, scan: TreeScanView, works: bool) -> bool {
    c.mode == CloneMode::Reflink && scan.probe is Some && works
}

/// What is to be done for an entry of a tree.
#[derive(Debug)]
pub enum EntryStep {
    /// Leave it out, and where it is a directory all that is in it.
    Prune,
    MakeDir { out: String },
    Link { out: String },
    Reflink { out: String },
    Copy { out: String },
    /// It is nothing that can be copied.
    Ignore,
}

/// What a step for an entry says.
#[verifier::ext_equal]
pub enum EntryStepView {
    Prune,
    MakeDir { out: Seq<char> },
    Link { out: Seq<char> },
    Reflink { out: Seq<char> },
    Copy { out: Seq<char> },
    Ignore,
}

impl View for EntryStep {
    type V = EntryStepView;

    open spec fn view(&self) -> EntryStepView {
        match *self {
            EntryStep::Prune => EntryStepView::Prune,
            EntryStep::MakeDir { out } => EntryStepView::MakeDir { out: out@ },
            EntryStep::Link { out } => EntryStepView::Link { out: out@ },
            EntryStep::Reflink { out } => EntryStepView::Reflink { out: out@ },
            EntryStep::Copy { out } => EntryStepView::Copy { out: out@ },
            EntryStep::Ignore => EntryStepView::Ignore,
        }
    }
}

/// The path of an entry of the tree `rel`, for the rules, which go by what can be
/// shown of it.
pub open spec fn entry_rel(rel: Seq<char>, sub: Seq<char>) -> Seq<char> {
    if sub.len() == 0 {
        rel
    } else {
        rel + "/"@ + legible(sub)
    }
}

/// Whether an entry below the top of a tree is left out: because it is excluded,
/// or because it is a git repository of its own. `has_git` is whether it holds a
/// `.git`.
pub open spec fn left_out(rules: RulesView, rel: Seq<char>, is_dir: bool, has_git: bool) -> bool {
    pruned(rules, rel, is_dir) || (is_dir && has_git)
}

/// What is to be done for an entry of a tree; `sub` is its path in the tree,
/// which is empty for the tree itself, and `has_git` whether it holds a `.git`.
pub open spec fn entry_step(
    c: CopierView,
    t: TreeCopyView,
    sub: Seq<char>,
    kind: EntryKind,
    has_git: bool,
) -> EntryStepView {
    let out = joined(t.dst, sub);
    if sub.len() > 0 && left_out(
        c.rules,
        entry_rel(t.rel, sub),
        kind == EntryKind::Dir,
        has_git,
    ) {
        EntryStepView::Prune
    } else {
        match kind {
            EntryKind::Dir => EntryStepView::MakeDir { out },
            EntryKind::Symlink => EntryStepView::Link { out },
            EntryKind::File => if t.reflink {
                EntryStepView::Reflink { out }
            } else {
                EntryStepView::Copy { out }
            },
            EntryKind::Other => EntryStepView::Ignore,
        }
    }
}

/// The tree after one more file of `n` bytes.
pub open spec fn tree_grown(t: TreeCopyView, n: u64) -> TreeCopyView {
    TreeCopyView { files: (t.files + 1) as u64, bytes: (t.bytes + n) as u64, ..t }
}

/// What is to be done for a file of a tree after a reflink was tried.
#[derive(Debug)]
pub enum TreeStep {
    /// On to the next entry.
    Next,
    /// Copy the bytes of this one.
    Copy,
    /// Stop and remove all that there is of the tree in the worktree: this is the
    /// outcome.
    Undo(Outcome),
}

/// What a step for a file of a tree says.
#[verifier::ext_equal]
pub enum TreeStepView {
    Next,
    Copy,
    Undo(OutcomeView),
}

impl View for TreeStep {
    type V = TreeStepView;

    open spec fn view(&self) -> TreeStepView {
        match *self {
            TreeStep::Next => TreeStepView::Next,
            TreeStep::Copy => TreeStepView::Copy,
            TreeStep::Undo(outcome) => TreeStepView::Undo(outcome@),
        }
    }
}

/// What is to be done for a file of a tree, of so many bytes, after a reflink was
/// tried. Where it worked for the file it was tried out with but not for this
/// one, real bytes are needed, so the caps hold for them.
pub open spec fn tree_reflink_step(c: CopierView, bytes: u64, r: Reflinked) -> TreeStepView {
    match r {
        Reflinked::Made => TreeStepView::Next,
        Reflinked::Failed(e) => TreeStepView::Undo(OutcomeView::Failed(e@)),
        Reflinked::Unsupported => if over_cap(c, bytes) {
            TreeStepView::Undo(OutcomeView::TooLarge { bytes })
        } else {
            TreeStepView::Copy
        },
    }
}

/// What is to be done after a file of a tree was copied byte by byte.
pub open spec fn tree_copy_step(r: Result<u64, String>) -> TreeStepView {
    match r {
        Ok(_) => TreeStepView::Next,
        Err(e) => TreeStepView::Undo(OutcomeView::Failed(e@)),
    }
}

impl Copier {
    /// Whether a reflink has to be tried out before a tree is copied.
    pub fn wants_probe(&self, scan: &TreeScan) -> (r: bool)
        ensures
            r == (self@.mode == CloneMode::Reflink && scan@.probe is Some),
    {
        matches!(self.mode, CloneMode::Reflink) && scan.probe.is_some()
    }

    /// Whether a tree is first to be cloned as a whole, where the system can.
    pub fn clones_whole(&self, system_can: bool) -> (r: bool)
        ensures
            r == (system_can && self@.mode == CloneMode::Reflink),
    {
        system_can && matches!(self.mode, CloneMode::Reflink)
    }

    /// Start copying a tree, given what a walk over it found and whether the
    /// reflink that was tried out worked; or the outcome where it is too large
    /// to be copied byte by byte.
    pub fn walk_copy(&self, rel: &str, dst: &str, scan: &TreeScan, works: bool) -> (r: Result<
        TreeCopy,
        Outcome,
    >)
        ensures
            match r {
                Ok(t) => t@ == (TreeCopyView {
                    rel: rel@,
                    dst: dst@,
                    reflink: tree_reflinks(self@, scan@, works),
                    files: 0,
                    bytes: 0,
                }),
                Err(o) => o@ == (OutcomeView::TooLarge { bytes: scan@.size }),
            },
            r is Err == (!tree_reflinks(self@, scan@, works) && over_cap(self@, scan@.size)),
    {
        let reflink = self.wants_probe(scan) && works;
        if !reflink {
            match self.cap_exceeded(scan.size) {
                Some(o) => {
                    return Err(o);
                },
                None => {},
            }
        }
        Ok(TreeCopy { rel: rel.to_owned(), dst: dst.to_owned(), reflink, files: 0, bytes: 0 })
    }

    /// What is to be done for an entry of a tree; `has_git` is whether it holds a
    /// `.git`.
    pub fn tree_entry(&self, tree: &TreeCopy, sub: &str, kind: EntryKind, has_git: bool) -> (r:
        EntryStep)
        ensures
            r@ == entry_step(self@, tree@, sub@, kind, has_git),
    {
        let out = join_path(tree.dst.as_str(), sub);
        let is_dir = matches!(kind, EntryKind::Dir);
        if !sub.is_empty() {
            let path = glue3(tree.rel.as_str(), "/", legible_text(sub).as_str());
            if self.rules.should_prune(path.as_str(), is_dir) || (is_dir && has_git) {
                return EntryStep::Prune;
            }
        }
        match kind {
            EntryKind::Dir => EntryStep::MakeDir { out },
            EntryKind::Symlink => EntryStep::Link { out },
            EntryKind::File => if tree.reflink {
                EntryStep::Reflink { out }
            } else {
                EntryStep::Copy { out }
            },
            EntryKind::Other => EntryStep::Ignore,
        }
    }

    /// What is to be done for a file of a tree, of so many bytes, after a reflink
    /// was tried.
    pub fn tree_reflinked(&self, tree: &mut TreeCopy, bytes: u64, tried: Reflinked) -> (r: TreeStep)
        requires
            old(tree)@.files < u64::MAX,
            old(tree)@.bytes + bytes <= u64::MAX,
        ensures
            r@ == tree_reflink_step(self@, bytes, tried),
            final(tree)@ == if tried is Made {
                tree_grown(old(tree)@, bytes)
            } else {
                old(tree)@
            },
    {
        match tried {
            Reflinked::Made => {
                tree.files = tree.files + 1;
                tree.bytes = tree.bytes + bytes;
                TreeStep::Next
            },
            Reflinked::Failed(e) => TreeStep::Undo(Outcome::Failed(e)),
            Reflinked::Unsupported => match self.cap_exceeded(bytes) {
                Some(o) => TreeStep::Undo(o),
                None => TreeStep::Copy,
            },
        }
    }

    /// What is to be done after a file of a tree was copied byte by byte. The
    /// bytes are charged.
    pub fn tree_copied(&mut self, tree: &mut TreeCopy, result: Result<u64, String>) -> (r: TreeStep)
        requires
            old(tree)@.files < u64::MAX,
            result matches Ok(n) ==> old(tree)@.bytes + n <= u64::MAX && old(self)@.plain_copied + n
                <= u64::MAX,
        ensures
            final(self)@ == charged(old(self)@, result),
            r@ == tree_copy_step(result),
            final(tree)@ == match result {
                Ok(n) => tree_grown(old(tree)@, n),
                Err(_) => old(tree)@,
            },
    {
        match result {
            Ok(n) => {
                self.plain_copied = self.plain_copied + n;
                tree.files = tree.files + 1;
                tree.bytes = tree.bytes + n;
                TreeStep::Next
            },
            Err(e) => TreeStep::Undo(Outcome::Failed(e)),
        }
    }

    /// Whether an entry of a tree that was cloned as a whole is to be removed
    /// again. There is no bound on its depth: an exclude that stops applying
    /// below some depth would be worse than none. `has_git` is whether the entry
    /// holds a `.git`.
    pub fn post_prune(&self, rel: &str, sub: &str, is_dir: bool, has_git: bool) -> (r: bool)
        ensures
            r == left_out(self@.rules, rel@ + "/"@ + legible(sub@), is_dir, has_git),
    {
        let path = glue3(rel, "/", legible_text(sub).as_str());
        self.rules.should_prune(path.as_str(), is_dir) || (is_dir && has_git)
    }

    /// Where a symlink in a tree that was cloned as a whole is to point, if it
    /// has to be made anew.
    pub fn sweep_symlinks(&self, link: &str) -> (r: Option<String>)
        ensures
            match r {
                Some(t) => t@ == relinked(self@, link@) && !same_components(
                    relinked(self@, link@),
                    link@,
                ),
                None => same_components(relinked(self@, link@), link@),
            },
    {
        let rewritten = self.rewrite_link_target(link);
        if paths_equal(rewritten.as_str(), link) {
            None
        } else {
            Some(rewritten)
        }
    }
}

impl TreeCopy {
    /// The outcome once all entries of the tree are done.
    pub fn finish(&self) -> (r: Outcome)
        ensures
            r@ == (OutcomeView::Done {
                method: if self@.reflink {
                    Method::Reflink
                } else {
                    Method::Copy
                },
                files: self@.files,
                bytes: self@.bytes,
            }),
    {
        Outcome::Done {
            method: if self.reflink {
                Method::Reflink
            } else {
                Method::Copy
            },
            files: self.files,
            bytes: self.bytes,
        }
    }
}

/// What came of cloning a tree as a whole.
#[derive(Debug, Clone, Copy, PartialEq, Eq, Structural)]
pub enum WholeClone {
    /// It was cloned; so many files are left in it.
    Made { files: u64 },
    AlreadyThere,
    Failed,
}

/// The outcome after a tree was cloned as a whole, or none where what there is
/// of it has to be removed and the tree copied file by file.
pub fn clone_tree(clone: WholeClone) -> (r: Option<Outcome>)
    ensures
        match clone {
            WholeClone::Made { files } => r matches Some(o) && o@ == (OutcomeView::Done {
                method: Method::ApfsClone,
                files,
                bytes: 0,
            }),
            WholeClone::AlreadyThere => r matches Some(o) && o@ == OutcomeView::Exists,
            WholeClone::Failed => r is None,
        },
{
    match clone {
        WholeClone::Made { files } => Some(
            Outcome::Done { method: Method::ApfsClone, files, bytes: 0 },
        ),
        WholeClone::AlreadyThere => Some(Outcome::Exists),
        WholeClone::Failed => None,
    }
}

// --- what holds of every copy ------------------------------------------------

/// A tree is pruned alike whether it is copied entry by entry or cloned as a
/// whole, however deep an entry lies.
pub proof fn law_pruned_either_way(
    c: CopierView,
    t: TreeCopyView,
    sub: Seq<char>,
    kind: EntryKind,
    has_git: bool,
)
    requires
        sub.len() > 0,
    ensures
        entry_step(c, t, sub, kind, has_git) is Prune <==> left_out(
            c.rules,
            t.rel + "/"@ + legible(sub),
            kind == EntryKind::Dir,
            has_git,
        ),
{
}

/// A git repository inside of a tree is left out, however deep it lies and
/// whichever way the tree is copied.
pub proof fn law_nested_repo_left_out(c: CopierView, t: TreeCopyView, sub: Seq<char>)
    requires
        sub.len() > 0,
    ensures
        entry_step(c, t, sub, EntryKind::Dir, true) is Prune,
        left_out(c.rules, t.rel + "/"@ + legible(sub), true, true),
{
}

/// Every name in a tree is kept byte for byte, UTF-8 or not: the path that an
/// entry gets stands for that of the tree, a slash and the bytes of the entry.
pub proof fn law_names_are_kept(dst: Seq<char>, sub: Seq<u8>)
    requires
        dst.len() > 0,
        !dst.contains('\0'),
        dst.last() != '/',
        sub.len() > 0,
        sub[0] != 47,
    ensures
        os_bytes(joined(dst, os_text(sub))) == encode_utf8(dst.push('/')) + sub,
{
    let front = dst.push('/');
    assert(!front.contains('\0')) by {
        assert forall|i: int| 0 <= i < front.len() implies front[i] != '\0' by {
            if i < dst.len() {
                assert(dst.contains(dst[i]));
            }
        }
    }
    law_ordinary_text_is_itself(front);
    law_bytes_come_back(encode_utf8(front), os_text(sub));
    law_bytes_come_back(sub, Seq::empty());
    law_no_slash_first(sub);
    assert(joined(dst, os_text(sub)) == front + os_text(sub));
}

/// Nothing partial is left of a tree: one that turns out to be too large, or of
/// which a file cannot be copied, is removed.
pub proof fn law_nothing_partial_stays(
    c: CopierView,
    bytes: u64,
    tried: Reflinked,
    result: Result<u64, String>,
)
    ensures
        tried is Unsupported && over_cap(c, bytes) ==> tree_reflink_step(c, bytes, tried)
            == TreeStepView::Undo(OutcomeView::TooLarge { bytes }),
        tried is Failed ==> tree_reflink_step(c, bytes, tried) is Undo,
        result is Err ==> tree_copy_step(result) is Undo,
{
}

/// Nothing that exists in the worktree is ever overwritten, and nothing is
/// written through a symlink: an item leads to a write only where its
/// destination is contained and free.
pub proof fn law_never_overwrites(
    c: CopierView,
    item: PlanItemView,
    present: Seq<Seq<char>>,
    links: Seq<Seq<char>>,
)
    ensures
        ({
            let step = item_step(c, item, present, links);
            let dst = match step {
                ItemStepView::Over(_) => None,
                ItemStepView::Link { src, dst } => Some(dst),
                ItemStepView::Relink { src, dst } => Some(dst),
                ItemStepView::File { src, dst } => Some(dst),
                ItemStepView::Tree { src, dst } => Some(dst),
            };
            dst is Some ==> contained(c.target, item.rel, links) == Ok::<Seq<char>, Seq<char>>(
                dst->0,
            ) && !present.contains(dst->0)
        }),
{
}

/// The caps hold: a file is copied byte by byte only where it fits under both,
/// and after the copy of as many bytes the total is still within its cap.
pub proof fn law_caps_hold(c: CopierView, bytes: u64)
    requires
        plain_step(c, bytes) == FileStepView::Copy,
        c.plain_copied + bytes <= u64::MAX,
    ensures
        bytes <= c.per_dir_cap,
        charged(c, Ok(bytes)).plain_copied <= c.total_cap,
{
}

/// A file that is cloned without copying is not charged, whatever its size.
pub proof fn law_reflinks_are_free(c: CopierView, bytes: u64)
    ensures
        reflink_step(c, bytes, Reflinked::Made) == FileStepView::Over(
            OutcomeView::Done { method: Method::Reflink, files: 1, bytes },
        ),
{
}

/// A relative link is kept as it is.
pub proof fn law_relative_links_stay(c: CopierView, link: Seq<char>)
    requires
        !absolute(link),
    ensures
        relinked(c, link) == link,
{
}

proof fn lemma_split_concat(base: Seq<char>, t: Seq<char>)
    ensures
        split(base.push('/') + t, '/') == split(base, '/') + split(t, '/'),
    decreases t.len(),
{
    let s = base.push('/') + t;
    let b = split(base, '/');
    if t.len() == 0 {
        assert(s =~= base.push('/'));
        assert(s.drop_last() =~= base);
        assert(split(s, '/') =~= b + split(t, '/'));
    } else {
        let front = t.drop_last();
        lemma_split_concat(base, front);
        lemma_split_len(front, '/');
        assert(s.drop_last() =~= base.push('/') + front);
        assert(s.last() == t.last());
        let f = split(front, '/');
        if t.last() == '/' {
            assert((b + f).push(Seq::empty()) =~= b + f.push(Seq::empty()));
        } else {
            assert((b + f).drop_last() =~= b + f.drop_last());
            assert((b + f).last() == f.last());
            assert((b + f.drop_last()).push(f.last().push(t.last())) =~= b + f.drop_last().push(
                f.last().push(t.last()),
            ));
        }
    }
}

/// Joining a relative path to another adds components behind those of the first.
proof fn lemma_joined_under(base: Seq<char>, t: Seq<char>)
    requires
        base.len() > 0,
        !absolute(t),
    ensures
        under(joined(base, t), base),
{
    let j = joined(base, t);
    let pred = |s: Seq<char>| significant(s);
    let front = if base.last() == '/' {
        base.drop_last()
    } else {
        base
    };
    assert(j =~= front.push('/') + t);
    lemma_split_concat(front, t);
    lemma_split_len(front, '/');
    let f = split(front, '/');
    Seq::filter_distributes_over_add(f, split(t, '/'), pred);
    assert(names(split(j, '/')) =~= names(f) + names(split(t, '/')));
    if base.last() == '/' {
        assert(front.push('/') =~= base);
        assert(base.drop_last() =~= front);
        assert(split(base, '/') =~= f.push(Seq::empty()));
        reveal(Seq::filter);
        assert(f.push(Seq::<char>::empty()).drop_last() =~= f);
        assert(names(split(base, '/')) == names(f));
    }
    assert(j[0] == base[0]);
    assert(split(j, '/')[0] == f[0]);
    assert(split(base, '/')[0] == f[0]);
    assert(components(base) =~= components(j).subrange(0, components(base).len() as int));
    if !absolute(base) {
        lemma_first_piece(base);
    }
}

proof fn lemma_first_piece(p: Seq<char>)
    requires
        p.len() > 0,
        !absolute(p),
    ensures
        components(p).len() > 0,
        split(p, '/')[0].len() > 0,
    decreases p.len(),
{
    reveal(Seq::filter);
    let front = p.drop_last();
    if front.len() == 0 {
        assert(front =~= Seq::empty());
        assert(split(front, '/') =~= seq![Seq::<char>::empty()]);
        assert(split(p, '/')[0] =~= p);
        assert(split(p, '/').len() == 1);
        assert(split(p, '/').drop_last() =~= Seq::empty());
        assert(names(split(p, '/').drop_last()) =~= Seq::empty());
    } else {
        assert(!absolute(front));
        lemma_first_piece(front);
        lemma_split_len(front, '/');
    }
    lemma_split_len(p, '/');
    if split(p, '/')[0] != seq!['.'] {
        lemma_name_kept(split(p, '/'), 0);
    }
}

proof fn lemma_name_kept(pieces: Seq<Seq<char>>, i: int)
    requires
        0 <= i < pieces.len(),
        significant(pieces[i]),
    ensures
        names(pieces).len() > 0,
    decreases pieces.len(),
{
    reveal(Seq::filter);
    if i < pieces.len() - 1 {
        assert(pieces.drop_last()[i] == pieces[i]);
        lemma_name_kept(pieces.drop_last(), i);
    }
}

proof fn lemma_rest(pieces: Seq<Seq<char>>, n: nat)
    requires
        forall|k: int| 0 <= k < pieces.len() ==> !(#[trigger] pieces[k]).contains('/'),
    ensures
        !absolute(join(rest_after(pieces, n), "/"@)),
    decreases pieces.len(),
{
    let r = rest_after(pieces, n);
    if pieces.len() == 0 {
        assert(join(r, "/"@).len() == 0);
    } else if !significant(pieces[0]) || n > 0 {
        let m = if significant(pieces[0]) {
            (n - 1) as nat
        } else {
            n
        };
        assert forall|k: int| 0 <= k < pieces.skip(1).len() implies !(#[trigger] pieces.skip(
            1,
        )[k]).contains('/') by {
            assert(pieces.skip(1)[k] == pieces[k + 1]);
        }
        lemma_rest(pieces.skip(1), m);
    } else {
        lemma_trim_tail_first(pieces);
        assert(r[0] == pieces[0]);
        lemma_join_first(r);
        assert(pieces[0].contains(pieces[0][0]));
    }
}

proof fn lemma_trim_tail_first(pieces: Seq<Seq<char>>)
    requires
        pieces.len() > 0,
        significant(pieces[0]),
    ensures
        crate::paths::trim_tail(pieces).len() > 0,
        crate::paths::trim_tail(pieces)[0] == pieces[0],
    decreases pieces.len(),
{
    if !significant(pieces.last()) {
        lemma_trim_tail_first(pieces.drop_last());
    }
}

proof fn lemma_join_first(pieces: Seq<Seq<char>>)
    requires
        pieces.len() > 0,
        pieces[0].len() > 0,
    ensures
        join(pieces, "/"@).len() > 0,
        join(pieces, "/"@)[0] == pieces[0][0],
    decreases pieces.len(),
{
    if pieces.len() > 1 {
        lemma_join_first(pieces.drop_last());
    }
}

/// An absolute link into the source checkout is rewritten to point into the
/// worktree, unless what follows the checkout in it climbs.
pub proof fn law_links_point_into_worktree(c: CopierView, link: Seq<char>)
    requires
        absolute(link),
        c.target.len() > 0,
        first_under(link, c.prefixes, 0) is Some,
    ensures
        under(relinked(c, link), c.target) || (relinked(c, link) == link && rest_after(
            split(link, '/'),
            names(
                split(c.prefixes[first_under(link, c.prefixes, 0)->0 as int], '/'),
            ).len(),
        ).contains(".."@)),
{
    let k = first_under(link, c.prefixes, 0)->0;
    let n = names(split(c.prefixes[k as int], '/')).len();
    lemma_split_pieces(link, '/');
    lemma_rest(split(link, '/'), n);
    let rest = rest_after(split(link, '/'), n);
    if !rest.contains(".."@) {
        lemma_joined_under(c.target, join(rest, "/"@));
    }
}

proof fn lemma_fields_of(parts: Seq<Seq<char>>)
    requires
        parts.len() > 0,
        forall|i: int|
            0 <= i < parts.len() ==> (#[trigger] parts[i]).len() > 0 && !parts[i].contains('/'),
    ensures
        fields(join(parts, seq!['/']), '/') == parts,
{
    law_split_undoes_join(parts, '/');
    lemma_nonempty(parts);
}

proof fn lemma_nonempty(parts: Seq<Seq<char>>)
    requires
        forall|i: int| 0 <= i < parts.len() ==> (#[trigger] parts[i]).len() > 0,
    ensures
        parts.filter(nonempty()) == parts,
    decreases parts.len(),
{
    reveal(Seq::filter);
    if parts.len() > 0 {
        let front = parts.drop_last();
        assert forall|i: int| 0 <= i < front.len() implies (#[trigger] front[i]).len() > 0 by {
            assert(front[i] == parts[i]);
        }
        lemma_nonempty(front);
        assert(parts[parts.len() - 1].len() > 0);
        assert(parts.filter(nonempty()) =~= parts);
    } else {
        assert(parts.filter(nonempty()) =~= parts);
    }
}

/// The path from a directory through some names.
pub open spec fn below(target: Seq<char>, parts: Seq<Seq<char>>) -> Seq<char> {
    target + seq!['/'] + join(parts, seq!['/'])
}

proof fn lemma_descent_below(target: Seq<char>, parts: Seq<Seq<char>>, n: nat)
    requires
        target.len() > 0,
        target.last() != '/',
        0 < n <= parts.len(),
        forall|i: int|
            0 <= i < parts.len() ==> (#[trigger] parts[i]).len() > 0 && !parts[i].contains('/'),
    ensures
        descent(target, parts, n) == below(target, parts.take(n as int)),
        descent(target, parts, n).last() != '/',
    decreases n,
{
    let now = parts.take(n as int);
    let last = parts[n - 1];
    assert(last.contains(last[0]));
    assert(last.contains(last.last()));
    if n == 1 {
        assert(descent(target, parts, 0) == target);
        assert(descent(target, parts, 1) == joined(descent(target, parts, 0), parts[0]));
        assert(now =~= seq![parts[0]]);
        assert(target.push('/') + parts[0] =~= below(target, now));
        assert(below(target, now).last() == last.last());
    } else {
        let m = (n - 1) as nat;
        lemma_descent_below(target, parts, m);
        assert(now.drop_last() =~= parts.take(m as int));
        let d = descent(target, parts, m);
        assert(d.push('/') + last =~= below(target, now));
        assert(below(target, now).last() == last.last());
    }
}

proof fn lemma_obstacle_free(
    target: Seq<char>,
    rel: Seq<char>,
    links: Seq<Seq<char>>,
    i: nat,
)
    requires
        forall|k: int| i <= k < fields(rel, '/').len() ==> !dotted(#[trigger] fields(rel, '/')[k]),
        forall|k: int|
            i <= k < fields(rel, '/').len() - 1 ==> !links.contains(
                #[trigger] passed(target, rel)[k],
            ),
    ensures
        obstacle(target, rel, links, i) is None,
    decreases fields(rel, '/').len() - i,
{
    if i < fields(rel, '/').len() {
        assert(!dotted(fields(rel, '/')[i as int]));
        if i + 1 < fields(rel, '/').len() {
            assert(!links.contains(passed(target, rel)[i as int]));
        }
        lemma_obstacle_free(target, rel, links, i + 1);
    }
}

/// A path may be written to if and only if none of its parts is `.` or `..` and
/// none of the directories on the way to it is a symlink; it is then the path in
/// the worktree through these parts.
pub proof fn law_contained_unless_it_leads_elsewhere(
    target: Seq<char>,
    parts: Seq<Seq<char>>,
    links: Seq<Seq<char>>,
)
    requires
        target.len() > 0,
        target.last() != '/',
        parts.len() > 0,
        forall|i: int|
            0 <= i < parts.len() ==> (#[trigger] parts[i]).len() > 0 && !parts[i].contains('/'),
    ensures
        ({
            let rel = join(parts, seq!['/']);
            &&& contained(target, rel, links) is Ok <==> {
                &&& forall|i: int|
                    0 <= i < parts.len() ==> (#[trigger] parts[i]) != seq!['.'] && parts[i] != seq![
                        '.',
                        '.',
                    ]
                &&& forall|i: int|
                    0 < i < parts.len() ==> !links.contains(
                        below(target, #[trigger] parts.take(i)),
                    )
            }
            &&& contained(target, rel, links) is Ok ==> contained(target, rel, links)->Ok_0
                == target + seq!['/'] + rel
        }),
{
    let rel = join(parts, seq!['/']);
    lemma_fields_of(parts);
    reveal_strlit(".");
    reveal_strlit("..");
    assert("."@ =~= seq!['.']);
    assert(".."@ =~= seq!['.', '.']);
    lemma_descent_below(target, parts, parts.len());
    assert(parts.take(parts.len() as int) =~= parts);
    assert forall|i: int| 0 < i < parts.len() implies below(target, #[trigger] parts.take(i))
        == passed(target, rel)[i - 1] by {
        lemma_descent_below(target, parts, i as nat);
    }
    if contained(target, rel, links) is Ok {
        assert forall|i: int| 0 <= i < parts.len() implies (#[trigger] parts[i]) != seq!['.']
            && parts[i] != seq!['.', '.'] by {
            lemma_no_obstacle(target, rel, links, 0, i);
        }
        assert forall|i: int| 0 < i < parts.len() implies !links.contains(
            below(target, #[trigger] parts.take(i)),
        ) by {
            lemma_no_obstacle(target, rel, links, 0, i - 1);
            assert(below(target, parts.take(i)) == passed(target, rel)[i - 1]);
        }
    }
    if (forall|i: int|
        0 <= i < parts.len() ==> (#[trigger] parts[i]) != seq!['.'] && parts[i] != seq!['.', '.'])
        && (forall|i: int|
        0 < i < parts.len() ==> !links.contains(below(target, #[trigger] parts.take(i)))) {
        assert forall|k: int| 0 <= k < fields(rel, '/').len() - 1 implies !links.contains(
            #[trigger] passed(target, rel)[k],
        ) by {
            assert(below(target, parts.take(k + 1)) == passed(target, rel)[k]);
        }
        lemma_obstacle_free(target, rel, links, 0);
    }
}

/// What becomes of an entry below the top of a tree, whatever the way of copying:
/// unless it is left out, a directory is made, a symlink made anew, and a file
/// reflinked or copied, each at the entry's own path in the destination. Only what
/// is none of these is ignored.
pub proof fn law_entries_are_brought_over(
    c: CopierView,
    t: TreeCopyView,
    sub: Seq<char>,
    kind: EntryKind,
    has_git: bool,
)
    requires
        sub.len() > 0,
        !left_out(c.rules, t.rel + "/"@ + legible(sub), kind == EntryKind::Dir, has_git),
    ensures
        ({
            let step = entry_step(c, t, sub, kind, has_git);
            &&& kind == EntryKind::Dir ==> step is MakeDir
            &&& kind == EntryKind::Symlink ==> step is Link
            &&& kind == EntryKind::File ==> step is Reflink || step is Copy
            &&& step is Reflink ==> t.reflink
            &&& step is Copy ==> !t.reflink
            &&& step is Ignore <==> kind == EntryKind::Other
            &&& !(step is Ignore) && t.dst.len() > 0 && t.dst.last() != '/' && sub[0] != '/'
                ==> out_of(step) == Some(t.dst + seq!['/'] + sub)
        }),
{
    if t.dst.len() > 0 {
        law_joined(t.dst, sub);
    }
}

/// Where something is made for an entry of a tree.
pub open spec fn out_of(step: EntryStepView) -> Option<Seq<char>> {
    match step {
        EntryStepView::MakeDir { out } => Some(out),
        EntryStepView::Link { out } => Some(out),
        EntryStepView::Reflink { out } => Some(out),
        EntryStepView::Copy { out } => Some(out),
        _ => None,
    }
}

/// The top of a tree is always made, and at the destination itself.
pub proof fn law_the_top_of_a_tree_is_made(c: CopierView, t: TreeCopyView, has_git: bool)
    ensures
        entry_step(c, t, Seq::empty(), EntryKind::Dir, has_git) matches EntryStepView::MakeDir { out }
            && (out == t.dst || out == t.dst + seq!['/']),
{
    assert(t.dst + Seq::<char>::empty() =~= t.dst);
    assert(t.dst.push('/') + Seq::<char>::empty() =~= t.dst + seq!['/']);
    if t.dst.len() == 0 {
        assert(t.dst =~= Seq::empty());
    }
}

/// An entry below the top of a tree is left out if and only if a pattern that is
/// applied inside of trees matches its path, or it is a directory with a
/// repository of its own.
pub proof fn law_what_is_left_out(rules: RulesView, rel: Seq<char>, is_dir: bool, has_git: bool)
    requires
        rel.len() > 0,
        rel.last() != '/',
    ensures
        left_out(rules, rel, is_dir, has_git) <==> (is_dir && has_git) || exists|i: int|
            0 <= i < rules.prune.len() && crate::rules::glob_matches(
                (#[trigger] rules.prune[i]).0,
                true,
                rel,
            ) && (is_dir || !rules.prune[i].1),
{
    assert(without_trailing(rel, '/') == rel);
}

/// What is done for an item: nothing where it may not be written or is there
/// already; else a symlink into the source for one that is to be a symlink, the
/// same symlink again for one that is a symlink, a copied file for a file that is
/// to be copied, and a copied tree for anything else.
pub proof fn law_items_are_brought_over(
    c: CopierView,
    item: PlanItemView,
    present: Seq<Seq<char>>,
    links: Seq<Seq<char>>,
)
    requires
        c.source.len() > 0,
        c.source.last() != '/',
        item.rel.len() > 0,
        item.rel[0] != '/',
    ensures
        ({
            let step = item_step(c, item, present, links);
            let where_to = contained(c.target, item.rel, links);
            let src = c.source + seq!['/'] + item.rel;
            &&& item.action is None ==> (step matches ItemStepView::Over(o) && o is Failed)
            &&& item.action is Some && where_to is Err ==> step == ItemStepView::Over(
                OutcomeView::Refused(where_to->Err_0),
            )
            &&& item.action is Some && where_to is Ok && present.contains(where_to->Ok_0) ==> step
                == ItemStepView::Over(OutcomeView::Exists)
            &&& item.action is Some && where_to is Ok && !present.contains(where_to->Ok_0) ==> {
                let dst = where_to->Ok_0;
                &&& item.action == Some(PlanAction::Symlink) ==> step == ItemStepView::Link {
                    src,
                    dst,
                }
                &&& item.action != Some(PlanAction::Symlink) && item.is_symlink ==> step
                    == ItemStepView::Relink { src, dst }
                &&& item.action == Some(PlanAction::Copy) && !item.is_symlink && !item.is_dir
                    ==> step == ItemStepView::File { src, dst }
                &&& item.action == Some(PlanAction::Copy) && !item.is_symlink && item.is_dir ==> step
                    == ItemStepView::Tree { src, dst }
                &&& item.action == Some(PlanAction::Clone) && !item.is_symlink ==> step
                    == ItemStepView::Tree { src, dst }
            }
        }),
{
    law_joined(c.source, item.rel);
}

/// A file is copied byte by byte if and only if it fits under the cap for one
/// directory and all bytes so far fit under the total cap with it; otherwise it is
/// too large. In reflink mode a reflink is tried first, and only where the system
/// cannot do it do the caps count.
pub proof fn law_files_are_copied_where_they_fit(c: CopierView, bytes: u64)
    requires
        c.plain_copied + bytes <= u64::MAX,
    ensures
        ({
            let fits = bytes <= c.per_dir_cap && c.plain_copied + bytes <= c.total_cap;
            let too_large = FileStepView::Over(OutcomeView::TooLarge { bytes });
            let plain = if fits {
                FileStepView::Copy
            } else {
                too_large
            };
            &&& c.mode == CloneMode::Reflink ==> file_step(c, Ok((true, bytes)))
                == FileStepView::Reflink { bytes }
            &&& c.mode == CloneMode::Copy ==> file_step(c, Ok((true, bytes))) == plain
            &&& reflink_step(c, bytes, Reflinked::Unsupported) == plain
            &&& reflink_step(c, bytes, Reflinked::Made) == FileStepView::Over(
                OutcomeView::Done { method: Method::Reflink, files: 1, bytes },
            )
            &&& file_step(c, Ok((false, bytes))) matches FileStepView::Over(o) && o is Refused
            &&& over_cap(c, bytes) == !fits
            &&& tree_reflink_step(c, bytes, Reflinked::Unsupported) == (if fits {
                TreeStepView::Copy
            } else {
                TreeStepView::Undo(OutcomeView::TooLarge { bytes })
            })
            &&& tree_reflink_step(c, bytes, Reflinked::Made) == TreeStepView::Next
        }),
{
}

/// A tree is reflinked file by file exactly where reflinks are wanted, it has a
/// file to try one with, and the trial worked.
pub proof fn law_trees_are_reflinked_where_it_works(
    c: CopierView,
    scan: TreeScanView,
    works: bool,
)
    ensures
        tree_reflinks(c, scan, works) <==> c.mode == CloneMode::Reflink && scan.probe is Some
            && works,
{
}

/// Bytes that were really copied, and no others, are charged; nothing else of the
/// copier changes, and a tree counts each file once.
pub proof fn law_bytes_are_charged(c: CopierView, t: TreeCopyView, n: u64)
    requires
        c.plain_copied + n <= u64::MAX,
        t.files < u64::MAX,
        t.bytes + n <= u64::MAX,
    ensures
        charged(c, Ok(n)).plain_copied == c.plain_copied + n,
        (CopierView { plain_copied: c.plain_copied, ..charged(c, Ok(n)) }) == c,
        copied(Ok(n)) == (OutcomeView::Done { method: Method::Copy, files: 1, bytes: n }),
        tree_grown(t, n).files == t.files + 1,
        tree_grown(t, n).bytes == t.bytes + n,
        (TreeCopyView { files: t.files, bytes: t.bytes, ..tree_grown(t, n) }) == t,
        forall|e: String| #[trigger] charged(c, Err(e)) == c,
{
}

/// A copier goes by the configuration: its mode, and its caps in bytes.
pub proof fn law_copier_goes_by_the_configuration(
    source: Seq<char>,
    target: Seq<char>,
    canonical: Option<Seq<char>>,
    cfg: ConfigView,
    rules: RulesView,
)
    ensures
        ({
            let c = copier_for(source, target, canonical, cfg, rules);
            &&& c.source == source && c.target == target && c.rules == rules
            &&& c.mode == cfg.mode
            &&& c.plain_copied == 0
            &&& cfg.copy_size_cap_mb * 1048576 <= u64::MAX ==> c.per_dir_cap
                == cfg.copy_size_cap_mb * 1048576
            &&& cfg.total_size_cap_mb * 1048576 <= u64::MAX ==> c.total_cap
                == cfg.total_size_cap_mb * 1048576
            &&& c.prefixes.contains(source)
            &&& canonical is Some ==> exists|i: int|
                0 <= i < c.prefixes.len() && same_components(#[trigger] c.prefixes[i], canonical->0)
            &&& forall|i: int|
                0 <= i < c.prefixes.len() ==> (#[trigger] c.prefixes[i]) == source || Some(
                    c.prefixes[i],
                ) == canonical
        }),
{
    let c = copier_for(source, target, canonical, cfg, rules);
    assert(c.prefixes[0] == source);
    if canonical is Some {
        if same_components(canonical->0, source) {
            assert(same_components(c.prefixes[0], canonical->0));
        } else {
            assert(same_components(c.prefixes[1], canonical->0));
        }
    }
}

proof fn lemma_rest_behind(parts: Seq<Seq<char>>, more: Seq<Seq<char>>)
    requires
        more.len() > 0,
        plain_names(parts),
        plain_names(more),
    ensures
        rest_after(parts + more, parts.len()) == more,
    decreases parts.len(),
{
    if parts.len() == 0 {
        assert(parts + more =~= more);
        assert(more[0].len() > 0);
        assert(more[more.len() - 1].len() > 0);
        assert(trim_tail(more) == more);
    } else {
        let all = parts + more;
        assert(all[0] == parts[0]);
        assert(all.skip(1) =~= parts.skip(1) + more);
        assert forall|i: int| 0 <= i < parts.skip(1).len() implies (#[trigger] parts.skip(1)[i]).len()
            > 0 && parts.skip(1)[i] != seq!['.'] && !parts.skip(1)[i].contains('/') by {
            assert(parts.skip(1)[i] == parts[i + 1]);
        }
        lemma_rest_behind(parts.skip(1), more);
    }
}

/// An absolute link to a place in the source checkout, under whichever of its
/// paths, points to the same place in the worktree; one to anywhere else is kept.
pub proof fn law_links_follow_into_the_worktree(
    c: CopierView,
    k: int,
    source: Seq<Seq<char>>,
    rest: Seq<Seq<char>>,
)
    requires
        0 <= k < c.prefixes.len(),
        source.len() > 0,
        rest.len() > 0,
        plain_names(source),
        plain_names(rest),
        c.prefixes[k] == from_root(source),
        forall|j: int|
            0 <= j < k ==> !under(from_root(source + rest), #[trigger] c.prefixes[j]),
        forall|i: int| 0 <= i < rest.len() ==> (#[trigger] rest[i]) != seq!['.', '.'],
        c.target.len() > 0,
        c.target.last() != '/',
    ensures
        relinked(c, from_root(source + rest)) == c.target + seq!['/'] + join(rest, seq!['/']),
{
    lemma_link_taken_apart(source, rest);
    lemma_first_under(from_root(source + rest), c.prefixes, 0, k as nat);
    reveal_strlit("..");
    assert(".."@ =~= seq!['.', '.']);
    assert(!rest.contains(".."@));
    reveal_strlit("/");
    assert("/"@ =~= seq!['/']);
    let tail = join(rest, seq!['/']);
    lemma_join_first(rest);
    assert(rest[0].contains(rest[0][0]));
    law_joined(c.target, tail);
}

proof fn lemma_link_taken_apart(source: Seq<Seq<char>>, rest: Seq<Seq<char>>)
    requires
        source.len() > 0,
        rest.len() > 0,
        plain_names(source),
        plain_names(rest),
    ensures
        absolute(from_root(source + rest)),
        under(from_root(source + rest), from_root(source)),
        names(split(from_root(source), '/')) == source,
        rest_after(split(from_root(source + rest), '/'), source.len()) == rest,
{
    let all = source + rest;
    lemma_plain_together(source, rest);
    lemma_root_split(source);
    assert(source =~= all.subrange(0, source.len() as int));
    assert(under(from_root(all), from_root(source))) by {
        law_under_by_names(all, source);
    }
    assert(absolute(from_root(all)) && split(from_root(all), '/') == seq![Seq::<char>::empty()]
        + all) by {
        lemma_root_split(all);
    }
    lemma_rest_behind(source, rest);
    lemma_rest_behind_nothing(all, source.len());
}

proof fn lemma_plain_together(source: Seq<Seq<char>>, rest: Seq<Seq<char>>)
    requires
        plain_names(source),
        plain_names(rest),
    ensures
        plain_names(source + rest),
{
    let all = source + rest;
    assert forall|i: int| 0 <= i < all.len() implies (#[trigger] all[i]).len() > 0 && all[i] != seq![
        '.',
    ] && !all[i].contains('/') by {
        if i < source.len() {
            assert(all[i] == source[i]);
        } else {
            assert(all[i] == rest[i - source.len()]);
        }
    }
}

proof fn lemma_rest_behind_nothing(all: Seq<Seq<char>>, n: nat)
    ensures
        rest_after(seq![Seq::<char>::empty()] + all, n) == rest_after(all, n),
{
    let pieces = seq![Seq::<char>::empty()] + all;
    assert(pieces[0].len() == 0);
    assert(pieces.skip(1) =~= all);
}

proof fn lemma_first_under(link: Seq<char>, prefixes: Seq<Seq<char>>, i: nat, k: nat)
    requires
        i <= k < prefixes.len(),
        under(link, prefixes[k as int]),
        forall|j: int| i <= j < k ==> !under(link, #[trigger] prefixes[j]),
    ensures
        first_under(link, prefixes, i) == Some(k),
    decreases k - i,
{
    if i < k {
        assert(!under(link, prefixes[i as int]));
        lemma_first_under(link, prefixes, i + 1, k);
    }
}

proof fn lemma_under_none(link: Seq<char>, prefixes: Seq<Seq<char>>, i: nat)
    requires
        forall|j: int| i <= j < prefixes.len() ==> !under(link, #[trigger] prefixes[j]),
    ensures
        first_under(link, prefixes, i) is None,
    decreases prefixes.len() - i,
{
    if i < prefixes.len() {
        assert(!under(link, prefixes[i as int]));
        lemma_under_none(link, prefixes, i + 1);
    }
}

/// A link that does not lead into the source checkout is kept as it is.
pub proof fn law_other_links_are_kept(c: CopierView, link: Seq<char>)
    requires
        forall|j: int| 0 <= j < c.prefixes.len() ==> !under(link, #[trigger] c.prefixes[j]),
    ensures
        relinked(c, link) == link,
{
    lemma_under_none(link, c.prefixes, 0);
}

/// Before something is written, every directory on the way to it has its
/// counterpart in the source checkout, from which it takes its mode: one for each
/// part but the last, from the top down.
pub proof fn law_parents_are_made_in_order(
    source: Seq<char>,
    target: Seq<char>,
    parts: Seq<Seq<char>>,
    i: int,
)
    requires
        source.len() > 0,
        source.last() != '/',
        target.len() > 0,
        target.last() != '/',
        parts.len() > 0,
        forall|i: int|
            0 <= i < parts.len() ==> (#[trigger] parts[i]).len() > 0 && !parts[i].contains('/'),
        0 <= i < parts.len() - 1,
    ensures
        ({
            let p = parents(source, target, join(parts, seq!['/']));
            &&& p.len() == parts.len() - 1
            &&& p[i].0 == below(target, parts.take(i + 1))
            &&& p[i].1 == below(source, parts.take(i + 1))
        }),
{
    lemma_fields_of(parts);
    lemma_descent_below(target, parts, (i + 1) as nat);
    lemma_descent_below(source, parts, (i + 1) as nat);
}

/// The paths that are looked at before something is written are those of all its
/// parts, its own last.
pub proof fn law_all_components_are_looked_at(
    target: Seq<char>,
    parts: Seq<Seq<char>>,
    i: int,
)
    requires
        target.len() > 0,
        target.last() != '/',
        forall|i: int|
            0 <= i < parts.len() ==> (#[trigger] parts[i]).len() > 0 && !parts[i].contains('/'),
        0 <= i < parts.len(),
    ensures
        passed(target, join(parts, seq!['/'])).len() == parts.len(),
        passed(target, join(parts, seq!['/']))[i] == below(target, parts.take(i + 1)),
{
    lemma_fields_of(parts);
    lemma_descent_below(target, parts, (i + 1) as nat);
}

/// A size is shown as it is below a kilobyte, and else in the largest unit that it
/// holds one of, to the nearest tenth. (Larger ones are first rounded to as many
/// binary digits as a float has.)
pub proof fn law_sizes_are_shown_to_the_nearest_tenth(bytes: nat) -> (tenths: nat)
    requires
        bytes < 0x20_0000_0000_0000,
    ensures
        bytes < 1024 ==> size_text(bytes) == decimal(bytes) + " B"@,
        bytes >= 1024 ==> ({
            let (size, name) = if bytes < 1024 * 1024 {
                (1024nat, "KB"@)
            } else if bytes < 1024 * 1024 * 1024 {
                (1024 * 1024, "MB"@)
            } else if bytes < 1024 * 1024 * 1024 * 1024 {
                (1024 * 1024 * 1024, "GB"@)
            } else {
                (1024 * 1024 * 1024 * 1024, "TB"@)
            };
            &&& 20 * bytes - size <= 2 * tenths * size <= 20 * bytes + size
            &&& size_text(bytes) == decimal(tenths / 10) + "."@ + seq![digit(tenths % 10)] + " "@
                + name
        }),
{
    assert(bytes / 1 == bytes && bytes % 1 == 0);
    assert(grain(bytes, 1) == 1);
    assert(to_53_bits(bytes) == bytes);
    let size = unit_size(unit_of(bytes));
    let tenths = half_even(10 * bytes, size);
    lemma_half_even(10 * bytes, size);
    tenths
}

proof fn lemma_half_even(n: nat, d: nat)
    requires
        d > 0,
    ensures
        2 * n - d <= 2 * half_even(n, d) * d <= 2 * n + d,
{
    let q = n / d;
    let r = n % d;
    vstd::arithmetic::div_mod::lemma_fundamental_div_mod(n as int, d as int);
    assert(d * q + r == n);
    assert(2 * q * d == 2 * (d * q)) by (nonlinear_arith);
    assert(2 * (q + 1) * d == 2 * (d * q) + 2 * d) by (nonlinear_arith);
}

/// What came of a file or a symlink is reported as it is: what was made with its way
/// and its bytes, what failed with the reason.
pub proof fn law_outcomes_are_reported(c: CopierView, n: u64, e: String)
    ensures
        linked(Ok(())) == (OutcomeView::Done { method: Method::Symlink, files: 1, bytes: 0 }),
        linked(Err(e)) == OutcomeView::Failed("symlink: "@ + e@),
        copied(Err(e)) == OutcomeView::Failed("copy: "@ + e@),
        reflink_step(c, n, Reflinked::Failed(e)) == FileStepView::Over(
            OutcomeView::Failed("copy: "@ + e@),
        ),
        file_step(c, Err(e)) == FileStepView::Over(OutcomeView::Failed("stat: "@ + e@)),
        tree_copy_step(Ok(n)) == TreeStepView::Next,
        tree_copy_step(Err(e)) == TreeStepView::Undo(OutcomeView::Failed(e@)),
{
}

/// A path that may not be written to is refused with the reason: the first of its
/// parts that is `.` or `..`, or that is a symlink on the way.
pub proof fn law_refused_paths_say_why(
    target: Seq<char>,
    parts: Seq<Seq<char>>,
    links: Seq<Seq<char>>,
    i: int,
)
    requires
        target.len() > 0,
        target.last() != '/',
        forall|i: int|
            0 <= i < parts.len() ==> (#[trigger] parts[i]).len() > 0 && !parts[i].contains('/'),
        0 <= i < parts.len(),
        forall|j: int|
            0 <= j < i ==> (#[trigger] parts[j]) != seq!['.'] && parts[j] != seq!['.', '.'],
        forall|j: int| 0 < j <= i ==> !links.contains(below(target, #[trigger] parts.take(j))),
    ensures
        ({
            let rel = join(parts, seq!['/']);
            let r = contained(target, rel, links);
            let bad = parts[i] == seq!['.'] || parts[i] == seq!['.', '.'];
            &&& bad ==> r == Err::<Seq<char>, Seq<char>>(
                "`"@ + rel + "` contains a `"@ + parts[i] + "` component"@,
            )
            &&& !bad && i + 1 < parts.len() && links.contains(below(target, parts.take(i + 1)))
                ==> r == Err::<Seq<char>, Seq<char>>(
                below(target, parts.take(i + 1)) + " is a symlink; refusing to write through it"@,
            )
        }),
{
    let rel = join(parts, seq!['/']);
    lemma_fields_of(parts);
    reveal_strlit(".");
    reveal_strlit("..");
    assert("."@ =~= seq!['.']);
    assert(".."@ =~= seq!['.', '.']);
    lemma_descent_below(target, parts, (i + 1) as nat);
    assert forall|k: int| 0 <= k < i implies !links.contains(
        #[trigger] passed(target, rel)[k],
    ) by {
        lemma_descent_below(target, parts, (k + 1) as nat);
        assert(!links.contains(below(target, parts.take(k + 1))));
    }
    lemma_obstacle_from(target, rel, links, 0, i as nat);
}

proof fn lemma_obstacle_from(
    target: Seq<char>,
    rel: Seq<char>,
    links: Seq<Seq<char>>,
    i: nat,
    n: nat,
)
    requires
        i <= n < fields(rel, '/').len(),
        forall|k: int| i <= k < n ==> !dotted(#[trigger] fields(rel, '/')[k]),
        forall|k: int| i <= k < n ==> !links.contains(#[trigger] passed(target, rel)[k]),
    ensures
        obstacle(target, rel, links, i) == obstacle(target, rel, links, n),
    decreases n - i,
{
    if i < n {
        assert(!dotted(fields(rel, '/')[i as int]));
        assert(!links.contains(passed(target, rel)[i as int]));
        lemma_obstacle_from(target, rel, links, i + 1, n);
    }
}

} // verus!
