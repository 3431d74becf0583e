//! Turn discovered candidates into a concrete, inspectable plan.

use vstd::prelude::*;
use vstd::string::*;
use crate::bytes::{lossy, lossy_text};
use crate::discover::{candidates_view, Candidate, CandidateView};
use crate::fsops::{
    component_paths, contained, contained_dst, descent, obstacle, passed, TargetView,
};
use crate::order::{
    bytes_before, bytes_precede, lemma_irreflexive, lemma_total, lemma_transitive, octets,
};
use crate::pieces::{fields, lemma_filtered};
use crate::rules::{classified, Action, Rules, RulesView};
use crate::text::{glue3, holds, same, texts};

verus! {

/// How an item is brought over.
#[derive(Debug, Clone, Copy, PartialEq, Eq, Structural)]
pub enum PlanAction {
    Copy,
    Clone,
    Symlink,
}

impl PlanAction {
    pub open spec fn text(self) -> Seq<char> {
        match self {
            PlanAction::Copy => "copy"@,
            PlanAction::Clone => "clone"@,
            PlanAction::Symlink => "symlink"@,
        }
    }

    pub fn verb(self) -> (r: &'static str)
        ensures
            r@ == self.text(),
    {
        match self {
            PlanAction::Copy => "copy",
            PlanAction::Clone => "clone",
            PlanAction::Symlink => "symlink",
        }
    }
}

/// How things stand with an item.
#[derive(Debug, PartialEq, Eq)]
pub enum ItemState {
    Pending,
    /// Already present in the target — never overwritten.
    Exists,
    Excluded,
    Unmatched,
    NestedRepo,
    /// The destination could not be reached safely (a symlinked component in
    /// the worktree). Reported, never written.
    Blocked(String),
}

/// What an item's state says.
#[verifier::ext_equal]
pub enum StateView {
    Pending,
    Exists,
    Excluded,
    Unmatched,
    NestedRepo,
    Blocked(Seq<char>),
}

impl View for ItemState {
    type V = StateView;

    open spec fn view(&self) -> StateView {
        match *self {
            ItemState::Pending => StateView::Pending,
            ItemState::Exists => StateView::Exists,
            ItemState::Excluded => StateView::Excluded,
            ItemState::Unmatched => StateView::Unmatched,
            ItemState::NestedRepo => StateView::NestedRepo,
            ItemState::Blocked(reason) => StateView::Blocked(reason@),
        }
    }
}

impl Clone for ItemState {
    fn clone(&self) -> (r: Self)
        ensures
            r@ == self@,
    {
        match self {
            ItemState::Pending => ItemState::Pending,
            ItemState::Exists => ItemState::Exists,
            ItemState::Excluded => ItemState::Excluded,
            ItemState::Unmatched => ItemState::Unmatched,
            ItemState::NestedRepo => ItemState::NestedRepo,
            ItemState::Blocked(reason) => ItemState::Blocked(reason.clone()),
        }
    }
}

/// An item of the plan.
#[derive(Debug, PartialEq, Eq)]
pub struct PlanItem {
    pub rel: String,
    pub is_dir: bool,
    pub is_symlink: bool,
    pub action: Option<PlanAction>,
    pub state: ItemState,
}

/// What an item of the plan says.
#[verifier::ext_equal]
pub struct PlanItemView {
    pub rel: Seq<char>,
    pub is_dir: bool,
    pub is_symlink: bool,
    pub action: Option<PlanAction>,
    pub state: StateView,
}

impl View for PlanItem {
    type V = PlanItemView;

    open spec fn view(&self) -> PlanItemView {
        PlanItemView {
            rel: self.rel@,
            is_dir: self.is_dir,
            is_symlink: self.is_symlink,
            action: self.action,
            state: self.state@,
        }
    }
}

impl Clone for PlanItem {
    fn clone(&self) -> (r: Self)
        ensures
            r@ == self@,
    {
        PlanItem {
            rel: self.rel.clone(),
            is_dir: self.is_dir,
            is_symlink: self.is_symlink,
            action: self.action,
            state: self.state.clone(),
        }
    }
}

/// What some items say.
pub open spec fn items_view(v: Seq<PlanItem>) -> Seq<PlanItemView> {
    Seq::new(v.len(), |i: int| v[i]@)
}

#[derive(Debug, Clone, Copy, PartialEq, Eq, Structural)]
pub enum Group {
    /// Small dev state: copies and explicit symlinks.
    State,
    /// Dependency / build caches: clones.
    Caches,
}

/// What is brought over, and what is not and why.
#[derive(Debug)]
pub struct CopyPlan {
    pub items: Vec<PlanItem>,
}

impl Default for CopyPlan {
    fn default() -> (r: Self)
        ensures
            r.items@ == Seq::<PlanItem>::empty(),
    {
        CopyPlan { items: Vec::new() }
    }
}

impl Clone for CopyPlan {
    fn clone(&self) -> (r: Self)
        ensures
            items_view(r.items@) == items_view(self.items@),
    {
        let mut items: Vec<PlanItem> = Vec::new();
        let mut i: usize = 0;
        while i < self.items.len()
            invariant
                i <= self.items.len(),
                items_view(items@) =~= items_view(self.items@).take(i as int),
            decreases self.items.len() - i,
        {
            let ghost before = items@;
            items.push(self.items[i].clone());
            assert(items_view(items@) =~= items_view(before).push(self.items@[i as int]@));
            i += 1;
        }
        assert(items_view(self.items@).take(i as int) =~= items_view(self.items@));
        CopyPlan { items }
    }
}

// --- what a directory holds --------------------------------------------------

/// What an entry of a directory is.
#[derive(Debug, Clone, Copy, PartialEq, Eq, Structural)]
pub enum EntryKind {
    File,
    Dir,
    Symlink,
    /// A FIFO, a socket, a device, or something unknown.
    Other,
}

/// An entry of a directory.
#[derive(Debug)]
pub struct DirEntry {
    pub name: Vec<u8>,
    pub kind: EntryKind,
    /// Whether the entry is a directory that holds a `.git`, be it a dangling
    /// symlink.
    pub has_git: bool,
}

/// What an entry of a directory says: its name, what it is, and whether it holds
/// a `.git`.
pub type DirEntryView = (Seq<u8>, EntryKind, bool);

/// What some entries of a directory say.
pub open spec fn dir_view(v: Seq<DirEntry>) -> Seq<DirEntryView> {
    Seq::new(v.len(), |i: int| (v[i].name@, v[i].kind, v[i].has_git))
}

/// What an excluded directory of the source checkout holds.
#[derive(Debug)]
pub struct Listing {
    pub rel: String,
    pub entries: Vec<DirEntry>,
}

/// What some directories hold.
pub open spec fn listings_view(v: Seq<Listing>) -> Seq<(Seq<char>, Seq<DirEntryView>)> {
    Seq::new(v.len(), |i: int| (v[i].rel@, dir_view(v[i].entries@)))
}

/// `x` put behind the entries of `s` that do not stand after it.
pub open spec fn placed(s: Seq<DirEntryView>, x: DirEntryView) -> Seq<DirEntryView>
    decreases s.len(),
{
    if s.len() > 0 && bytes_before(x.0, s.last().0) {
        placed(s.drop_last(), x).push(s.last())
    } else {
        s.push(x)
    }
}

/// The entries in order of name.
pub open spec fn by_name(s: Seq<DirEntryView>) -> Seq<DirEntryView>
    decreases s.len(),
{
    if s.len() == 0 {
        s
    } else {
        placed(by_name(s.drop_last()), s.last())
    }
}

/// No entry stands before an earlier one.
pub open spec fn name_ordered(s: Seq<DirEntryView>) -> bool {
    forall|i: int, j: int|
        0 <= i < j < s.len() ==> !bytes_before(#[trigger] s[j].0, #[trigger] s[i].0)
}

proof fn lemma_placed(s: Seq<DirEntryView>, x: DirEntryView)
    requires
        name_ordered(s),
    ensures
        name_ordered(placed(s, x)),
        placed(s, x).to_multiset() == s.to_multiset().insert(x),
        forall|i: int|
            0 <= i < placed(s, x).len() ==> (#[trigger] placed(s, x)[i]) == x || s.contains(
                placed(s, x)[i],
            ),
    decreases s.len(),
{
    broadcast use vstd::seq_lib::group_to_multiset_ensures;

    let r = placed(s, x);
    if s.len() > 0 && bytes_before(x.0, s.last().0) {
        let front = s.drop_last();
        let t = placed(front, x);
        assert(name_ordered(front)) by {
            assert forall|i: int, j: int| 0 <= i < j < front.len() implies !bytes_before(
                #[trigger] front[j].0,
                #[trigger] front[i].0,
            ) by {
                assert(front[i] == s[i] && front[j] == s[j]);
            }
        }
        lemma_placed(front, x);
        assert forall|i: int, j: int| 0 <= i < j < r.len() implies !bytes_before(
            #[trigger] r[j].0,
            #[trigger] r[i].0,
        ) by {
            if j < t.len() {
                assert(r[i] == t[i] && r[j] == t[j]);
            } else {
                assert(r[j] == s.last() && r[i] == t[i]);
                if t[i] == x {
                    if bytes_before(s.last().0, x.0) {
                        lemma_transitive(octets(x.0), octets(s.last().0), octets(x.0));
                        lemma_irreflexive(octets(x.0));
                    }
                } else {
                    let k = choose|k: int| 0 <= k < front.len() && front[k] == t[i];
                    assert(s[k] == t[i]);
                    assert(s[s.len() - 1] == s.last());
                }
            }
        }
        assert forall|i: int| 0 <= i < r.len() implies (#[trigger] r[i]) == x || s.contains(
            r[i],
        ) by {
            if i < t.len() {
                assert(r[i] == t[i]);
                if t[i] != x {
                    let k = choose|k: int| 0 <= k < front.len() && front[k] == t[i];
                    assert(s[k] == t[i]);
                }
            } else {
                assert(s[s.len() - 1] == r[i]);
            }
        }
        assert(s =~= front.push(s.last()));
        assert(r.to_multiset() =~= s.to_multiset().insert(x));
    } else {
        assert forall|i: int, j: int| 0 <= i < j < r.len() implies !bytes_before(
            #[trigger] r[j].0,
            #[trigger] r[i].0,
        ) by {
            if j < s.len() {
                assert(r[i] == s[i] && r[j] == s[j]);
            } else {
                assert(r[j] == x && r[i] == s[i]);
                if i < s.len() - 1 {
                    assert(!bytes_before(s[s.len() - 1].0, s[i].0));
                    if bytes_before(x.0, s[i].0) {
                        lemma_total(octets(s.last().0), octets(s[i].0));
                        if bytes_before(s[i].0, s.last().0) {
                            lemma_transitive(octets(x.0), octets(s[i].0), octets(s.last().0));
                        }
                    }
                }
            }
        }
        assert forall|i: int| 0 <= i < r.len() implies (#[trigger] r[i]) == x || s.contains(
            r[i],
        ) by {
            if i < s.len() {
                assert(s[i] == r[i]);
            }
        }
    }
}

/// Putting entries in order of name loses none and adds none.
pub proof fn law_by_name(s: Seq<DirEntryView>)
    ensures
        name_ordered(by_name(s)),
        by_name(s).to_multiset() == s.to_multiset(),
    decreases s.len(),
{
    broadcast use vstd::seq_lib::group_to_multiset_ensures;

    if s.len() > 0 {
        law_by_name(s.drop_last());
        lemma_placed(by_name(s.drop_last()), s.last());
        assert(s =~= s.drop_last().push(s.last()));
    }
}

/// The positions of the entries in order of name.
fn name_order(entries: &Vec<DirEntry>) -> (r: Vec<usize>)
    ensures
        r@.len() == by_name(dir_view(entries@)).len(),
        forall|k: int|
            0 <= k < r@.len() ==> (#[trigger] r@[k]) < entries@.len() && dir_view(
                entries@,
            )[r@[k] as int] == by_name(dir_view(entries@))[k],
{
    let ghost all = dir_view(entries@);
    let mut out: Vec<usize> = Vec::new();
    let mut i: usize = 0;
    assert(all.take(0) =~= Seq::empty());
    while i < entries.len()
        invariant
            i <= entries.len(),
            all == dir_view(entries@),
            out@.len() == by_name(all.take(i as int)).len(),
            forall|k: int|
                0 <= k < out@.len() ==> (#[trigger] out@[k]) < entries@.len()
                    && all[out@[k] as int] == by_name(all.take(i as int))[k],
        decreases entries.len() - i,
    {
        let ghost sorted = by_name(all.take(i as int));
        let ghost x = all[i as int];
        assert(all.take(i + 1).drop_last() =~= all.take(i as int));
        assert(all.take(i + 1).last() == x);
        let mut at: usize = out.len();
        assert(sorted.take(at as int) =~= sorted);
        assert(placed(sorted, x) =~= placed(sorted.take(at as int), x) + sorted.skip(at as int));
        while at > 0 && bytes_precede(&entries[i].name, &entries[out[at - 1]].name)
            invariant
                at <= out.len(),
                i < entries.len(),
                all == dir_view(entries@),
                x == all[i as int],
                out@.len() == sorted.len(),
                forall|k: int|
                    0 <= k < out@.len() ==> (#[trigger] out@[k]) < entries@.len()
                        && all[out@[k] as int] == sorted[k],
                placed(sorted, x) == placed(sorted.take(at as int), x) + sorted.skip(at as int),
            decreases at,
        {
            assert(sorted.take(at as int).last() == sorted[at - 1]);
            assert(all[out@[at - 1] as int] == sorted[at - 1]);
            assert(sorted.take(at as int).drop_last() =~= sorted.take(at - 1));
            assert(placed(sorted.take(at - 1), x).push(sorted[at - 1]) + sorted.skip(at as int)
                =~= placed(sorted.take(at - 1), x) + sorted.skip(at - 1));
            at -= 1;
        }
        proof {
            if at > 0 {
                assert(sorted.take(at as int).last() == sorted[at - 1]);
                assert(all[out@[at - 1] as int] == sorted[at - 1]);
            }
            assert(placed(sorted, x) =~= sorted.take(at as int).push(x) + sorted.skip(at as int));
        }
        let ghost before = out@;
        out.insert(at, i);
        assert forall|k: int| 0 <= k < out@.len() implies (#[trigger] out@[k]) < entries@.len()
            && all[out@[k] as int] == placed(sorted, x)[k] by {
            if k < at {
                assert(out@[k] == before[k]);
            } else if k > at {
                assert(out@[k] == before[k - 1]);
            }
        }
        i += 1;
    }
    assert(all.take(i as int) =~= all);
    out
}

// --- drafting ----------------------------------------------------------------

/// The way in which an action brings a path over, if it does.
pub open spec fn plan_action(action: Action) -> Option<PlanAction> {
    match action {
        Action::Copy => Some(PlanAction::Copy),
        Action::Clone => Some(PlanAction::Clone),
        Action::Symlink => Some(PlanAction::Symlink),
        Action::Exclude => None,
    }
}

fn to_plan_action(action: Action) -> (r: Option<PlanAction>)
    ensures
        r == plan_action(action),
{
    match action {
        Action::Copy => Some(PlanAction::Copy),
        Action::Clone => Some(PlanAction::Clone),
        Action::Symlink => Some(PlanAction::Symlink),
        Action::Exclude => None,
    }
}

/// What the rules make of a path, if they bring it over.
pub open spec fn wanted(rules: RulesView, rel: Seq<char>, is_dir: bool) -> Option<PlanAction> {
    match classified(rules, rel, is_dir) {
        Some(a) => plan_action(a),
        None => None,
    }
}

/// The path of an entry of the directory `rel`.
pub open spec fn child_rel(rel: Seq<char>, name: Seq<u8>) -> Seq<char> {
    rel + "/"@ + lossy_text(name)
}

/// Whether an entry of a directory is a git repository of its own.
pub open spec fn is_repo(entry: DirEntryView) -> bool {
    entry.1 == EntryKind::Dir && entry.2
}

/// The item that an entry of an excluded directory makes, if it is wanted all
/// the same. Only files, directories and symlinks make one: to copy a FIFO
/// would block forever. A nested repository is not brought over.
pub open spec fn child_of(rules: RulesView, rel: Seq<char>, entry: DirEntryView) -> Option<
    PlanItemView,
> {
    let path = child_rel(rel, entry.0);
    let action = wanted(rules, path, entry.1 == EntryKind::Dir);
    if entry.1 == EntryKind::Other || action is None {
        None
    } else {
        Some(
            PlanItemView {
                rel: path,
                is_dir: entry.1 == EntryKind::Dir,
                is_symlink: entry.1 == EntryKind::Symlink,
                action: if is_repo(entry) {
                    None
                } else {
                    action
                },
                state: if is_repo(entry) {
                    StateView::NestedRepo
                } else {
                    StateView::Pending
                },
            },
        )
    }
}

/// The items that the entries of an excluded directory make.
pub open spec fn children_of(
    rules: RulesView,
    rel: Seq<char>,
    entries: Seq<DirEntryView>,
) -> Seq<PlanItemView>
    decreases entries.len(),
{
    if entries.len() == 0 {
        Seq::empty()
    } else {
        let r = children_of(rules, rel, entries.drop_last());
        match child_of(rules, rel, entries.last()) {
            Some(item) => r.push(item),
            None => r,
        }
    }
}

/// What the directory `rel` holds, as the first listing of it says: nothing
/// where there is none.
pub open spec fn listed(listings: Seq<(Seq<char>, Seq<DirEntryView>)>, rel: Seq<char>) -> Seq<
    DirEntryView,
>
    decreases listings.len(),
{
    if listings.len() == 0 {
        Seq::empty()
    } else if listings[0].0 == rel {
        listings[0].1
    } else {
        listed(listings.skip(1), rel)
    }
}

/// Whether what a candidate holds has to be looked at: an excluded directory
/// may still hold a wanted child.
pub open spec fn descends(rules: RulesView, cand: CandidateView) -> bool {
    &&& !cand.nested_repo
    &&& classified(rules, cand.rel, cand.is_dir) == Some(Action::Exclude)
    &&& cand.is_dir
    &&& !cand.is_symlink
}

/// An item as a candidate makes it.
pub open spec fn item_of(
    cand: CandidateView,
    action: Option<PlanAction>,
    state: StateView,
) -> PlanItemView {
    PlanItemView {
        rel: cand.rel,
        is_dir: cand.is_dir,
        is_symlink: cand.is_symlink,
        action,
        state,
    }
}

/// The items that a candidate makes, before it is known what the worktree
/// holds.
pub open spec fn drafted(
    rules: RulesView,
    listings: Seq<(Seq<char>, Seq<DirEntryView>)>,
    cand: CandidateView,
) -> Seq<PlanItemView> {
    if cand.nested_repo {
        seq![item_of(cand, None, StateView::NestedRepo)]
    } else {
        match classified(rules, cand.rel, cand.is_dir) {
            None => seq![item_of(cand, None, StateView::Unmatched)],
            Some(Action::Exclude) => {
                let children = if descends(rules, cand) {
                    children_of(rules, cand.rel, by_name(listed(listings, cand.rel)))
                } else {
                    Seq::empty()
                };
                seq![item_of(cand, None, StateView::Excluded)] + children
            },
            Some(action) => seq![item_of(cand, plan_action(action), StateView::Pending)],
        }
    }
}

/// The items that all candidates make, before it is known what the worktree
/// holds.
pub open spec fn all_drafted(
    rules: RulesView,
    listings: Seq<(Seq<char>, Seq<DirEntryView>)>,
    cands: Seq<CandidateView>,
) -> Seq<PlanItemView>
    decreases cands.len(),
{
    if cands.len() == 0 {
        Seq::empty()
    } else {
        all_drafted(rules, listings, cands.drop_last()) + drafted(rules, listings, cands.last())
    }
}

/// How things stand with a path that is to be brought over.
pub open spec fn state_of(
    target: Seq<char>,
    rel: Seq<char>,
    present: Seq<Seq<char>>,
    links: Seq<Seq<char>>,
) -> StateView {
    match contained(target, rel, links) {
        Err(reason) => StateView::Blocked(reason),
        Ok(dst) => if present.contains(dst) {
            StateView::Exists
        } else {
            StateView::Pending
        },
    }
}

/// A drafted item, once it is known what the worktree holds.
pub open spec fn settled(
    item: PlanItemView,
    target: Seq<char>,
    present: Seq<Seq<char>>,
    links: Seq<Seq<char>>,
) -> PlanItemView {
    if item.action is Some {
        PlanItemView { state: state_of(target, item.rel, present, links), ..item }
    } else {
        item
    }
}

/// The plan for some candidates.
pub open spec fn planned(
    rules: RulesView,
    listings: Seq<(Seq<char>, Seq<DirEntryView>)>,
    cands: Seq<CandidateView>,
    target: Seq<char>,
    present: Seq<Seq<char>>,
    links: Seq<Seq<char>>,
) -> Seq<PlanItemView> {
    let d = all_drafted(rules, listings, cands);
    Seq::new(d.len(), |i: int| settled(d[i], target, present, links))
}

/// How things stand with a path, resolved as the copier will resolve it, so
/// that an item whose path crosses a symlink shows in the plan.
fn state_for(target: &str, rel: &str, view: &TargetView) -> (r: ItemState)
    ensures
        r@ == state_of(target@, rel@, texts(view.present@), texts(view.symlinks@)),
{
    match contained_dst(target, rel, &view.symlinks) {
        Err(reason) => ItemState::Blocked(reason),
        Ok(dst) => if holds(&view.present, dst.as_str()) {
            ItemState::Exists
        } else {
            ItemState::Pending
        },
    }
}

fn find_listing(listings: &Vec<Listing>, rel: &str) -> (r: Option<usize>)
    ensures
        match r {
            Some(k) => k < listings@.len() && dir_view(listings@[k as int].entries@) == listed(
                listings_view(listings@),
                rel@,
            ),
            None => listed(listings_view(listings@), rel@) == Seq::<DirEntryView>::empty(),
        },
{
    let ghost all = listings_view(listings@);
    let mut k: usize = 0;
    assert(all.skip(0) =~= all);
    while k < listings.len()
        invariant
            k <= listings.len(),
            all == listings_view(listings@),
            listed(all, rel@) == listed(all.skip(k as int), rel@),
        decreases listings.len() - k,
    {
        assert(all.skip(k as int)[0] == all[k as int]);
        assert(all.skip(k as int).skip(1) =~= all.skip(k + 1));
        if same(listings[k].rel.as_str(), rel) {
            return Some(k);
        }
        k += 1;
    }
    assert(all.skip(k as int) =~= Seq::empty());
    None
}

/// Add the items that the entries of the excluded directory `rel` make.
fn add_children(items: &mut Vec<PlanItem>, rules: &Rules, rel: &str, entries: &Vec<DirEntry>)
    ensures
        items_view(final(items)@) == items_view(old(items)@) + children_of(
            rules@,
            rel@,
            by_name(dir_view(entries@)),
        ),
{
    let order = name_order(entries);
    let ghost sorted = by_name(dir_view(entries@));
    let ghost start = items_view(items@);
    let mut k: usize = 0;
    assert(sorted.take(0) =~= Seq::empty());
    assert(start + children_of(rules@, rel@, sorted.take(0)) =~= start);
    while k < order.len()
        invariant
            k <= order.len(),
            order@.len() == sorted.len(),
            forall|j: int|
                0 <= j < order@.len() ==> (#[trigger] order@[j]) < entries@.len() && dir_view(
                    entries@,
                )[order@[j] as int] == sorted[j],
            items_view(items@) == start + children_of(rules@, rel@, sorted.take(k as int)),
        decreases order.len() - k,
    {
        assert(sorted.take(k + 1).drop_last() =~= sorted.take(k as int));
        assert(sorted.take(k + 1).last() == sorted[k as int]);
        let e: usize = order[k];
        assert(dir_view(entries@)[e as int] == sorted[k as int]);
        let kind = entries[e].kind;
        let name = lossy(entries[e].name.as_slice());
        let path = glue3(rel, "/", name.as_str());
        let ghost so_far = children_of(rules@, rel@, sorted.take(k as int));
        if !matches!(kind, EntryKind::Other) {
            let is_dir = matches!(kind, EntryKind::Dir);
            let is_symlink = matches!(kind, EntryKind::Symlink);
            let action = match rules.classify(path.as_str(), is_dir) {
                Some(a) => to_plan_action(a),
                None => None,
            };
            if action.is_some() {
                let item = if is_dir && entries[e].has_git {
                    PlanItem {
                        rel: path,
                        is_dir,
                        is_symlink,
                        action: None,
                        state: ItemState::NestedRepo,
                    }
                } else {
                    PlanItem { rel: path, is_dir, is_symlink, action, state: ItemState::Pending }
                };
                assert(Some(item@) == child_of(rules@, rel@, sorted[k as int]));
                let ghost before = items@;
                items.push(item);
                assert(items_view(items@) =~= items_view(before).push(item@));
                assert(items_view(items@) =~= start + so_far.push(item@));
            }
        }
        k += 1;
    }
    assert(sorted.take(k as int) =~= sorted);
}

fn push_item(items: &mut Vec<PlanItem>, cand: &Candidate, action: Option<PlanAction>, state: ItemState)
    ensures
        items_view(final(items)@) == items_view(old(items)@) + seq![
            item_of(cand@, action, state@),
        ],
{
    let ghost before = items@;
    items.push(
        PlanItem {
            rel: cand.rel.clone(),
            is_dir: cand.is_dir,
            is_symlink: cand.is_symlink,
            action,
            state,
        },
    );
    assert(items_view(items@) =~= items_view(before) + seq![item_of(cand@, action, state@)]);
}

/// Add the items that a candidate makes.
fn add_candidate(items: &mut Vec<PlanItem>, cand: &Candidate, rules: &Rules, listings: &Vec<Listing>)
    ensures
        items_view(final(items)@) == items_view(old(items)@) + drafted(
            rules@,
            listings_view(listings@),
            cand@,
        ),
{
    let ghost start = items_view(items@);
    if cand.nested_repo {
        push_item(items, cand, None, ItemState::NestedRepo);
        return;
    }
    match rules.classify(cand.rel.as_str(), cand.is_dir) {
        None => {
            push_item(items, cand, None, ItemState::Unmatched);
        },
        Some(action) => {
            match action {
                Action::Exclude => {
                    push_item(items, cand, None, ItemState::Excluded);
                    let ghost head = seq![item_of(cand@, None, StateView::Excluded)];
                    assert(items_view(items@) == start + head);
                    assert(head + Seq::<PlanItemView>::empty() =~= head);
                    if cand.is_dir && !cand.is_symlink {
                        let ghost none = Seq::<DirEntryView>::empty();
                        assert(children_of(rules@, cand@.rel, by_name(none)) =~= Seq::empty());
                        match find_listing(listings, cand.rel.as_str()) {
                            Some(k) => {
                                let ghost c = children_of(
                                    rules@,
                                    cand@.rel,
                                    by_name(listed(listings_view(listings@), cand@.rel)),
                                );
                                add_children(
                                    items,
                                    rules,
                                    cand.rel.as_str(),
                                    &listings[k].entries,
                                );
                                assert(items_view(items@) =~= start + (head + c));
                            },
                            None => {},
                        }
                    }
                },
                _ => {
                    push_item(items, cand, to_plan_action(action), ItemState::Pending);
                },
            }
        },
    }
}

impl CopyPlan {
    /// The items that all candidates make, before it is known what the worktree
    /// holds.
    pub fn draft(candidates: &Vec<Candidate>, rules: &Rules, listings: &Vec<Listing>) -> (r: Vec<
        PlanItem,
    >)
        ensures
            items_view(r@) == all_drafted(
                rules@,
                listings_view(listings@),
                candidates_view(candidates@),
            ),
    {
        let ghost all = candidates_view(candidates@);
        let ghost l = listings_view(listings@);
        let mut items: Vec<PlanItem> = Vec::new();
        let mut i: usize = 0;
        assert(all.take(0) =~= Seq::empty());
        assert(items_view(items@) =~= all_drafted(rules@, l, all.take(0)));
        while i < candidates.len()
            invariant
                i <= candidates.len(),
                all == candidates_view(candidates@),
                l == listings_view(listings@),
                items_view(items@) == all_drafted(rules@, l, all.take(i as int)),
            decreases candidates.len() - i,
        {
            assert(all.take(i + 1).drop_last() =~= all.take(i as int));
            assert(all.take(i + 1).last() == candidates@[i as int]@);
            add_candidate(&mut items, &candidates[i], rules, listings);
            i += 1;
        }
        assert(all.take(i as int) =~= all);
        items
    }

    /// The plan for some candidates, given what the excluded directories among
    /// them hold and what there is in the worktree.
    pub fn build(
        target: &str,
        candidates: &Vec<Candidate>,
        rules: &Rules,
        listings: &Vec<Listing>,
        view: &TargetView,
    ) -> (r: CopyPlan)
        ensures
            items_view(r.items@) == planned(
                rules@,
                listings_view(listings@),
                candidates_view(candidates@),
                target@,
                texts(view.present@),
                texts(view.symlinks@),
            ),
    {
        let draft = CopyPlan::draft(candidates, rules, listings);
        let ghost d = items_view(draft@);
        let ghost p = texts(view.present@);
        let ghost s = texts(view.symlinks@);
        let ghost all = Seq::new(d.len(), |i: int| settled(d[i], target@, p, s));
        let mut items: Vec<PlanItem> = Vec::new();
        let mut i: usize = 0;
        while i < draft.len()
            invariant
                i <= draft.len(),
                d == items_view(draft@),
                p == texts(view.present@),
                s == texts(view.symlinks@),
                all == Seq::new(d.len(), |i: int| settled(d[i], target@, p, s)),
                items_view(items@) =~= all.take(i as int),
            decreases draft.len() - i,
        {
            let mut item = draft[i].clone();
            assert(item@ == d[i as int]);
            if item.action.is_some() {
                item.state = state_for(target, item.rel.as_str(), view);
            }
            assert(item@ == all[i as int]);
            let ghost before = items@;
            items.push(item);
            assert(items_view(items@) =~= items_view(before).push(all[i as int]));
            i += 1;
        }
        assert(all.take(i as int) =~= all);
        CopyPlan { items }
    }
}

// --- what has to be looked at ------------------------------------------------

/// The directories whose entries have to be read.
pub open spec fn to_list(rules: RulesView, cands: Seq<CandidateView>) -> Seq<Seq<char>>
    decreases cands.len(),
{
    if cands.len() == 0 {
        Seq::empty()
    } else if descends(rules, cands.last()) {
        to_list(rules, cands.drop_last()).push(cands.last().rel)
    } else {
        to_list(rules, cands.drop_last())
    }
}

/// The directories whose entries have to be read.
pub fn listings_needed(candidates: &Vec<Candidate>, rules: &Rules) -> (r: Vec<String>)
    ensures
        texts(r@) == to_list(rules@, candidates_view(candidates@)),
{
    broadcast use crate::text::lemma_texts_push;

    let ghost all = candidates_view(candidates@);
    let mut out: Vec<String> = Vec::new();
    let mut i: usize = 0;
    assert(all.take(0) =~= Seq::empty());
    assert(texts(out@) =~= to_list(rules@, all.take(0)));
    while i < candidates.len()
        invariant
            i <= candidates.len(),
            all == candidates_view(candidates@),
            texts(out@) == to_list(rules@, all.take(i as int)),
        decreases candidates.len() - i,
    {
        assert(all.take(i + 1).drop_last() =~= all.take(i as int));
        assert(all.take(i + 1).last() == candidates@[i as int]@);
        let c = &candidates[i];
        if !c.nested_repo && c.is_dir && !c.is_symlink {
            match rules.classify(c.rel.as_str(), c.is_dir) {
                Some(Action::Exclude) => {
                    out.push(c.rel.clone());
                },
                _ => {},
            }
        }
        i += 1;
    }
    assert(all.take(i as int) =~= all);
    out
}

/// The paths in the worktree on which the plan depends.
pub open spec fn to_probe(target: Seq<char>, items: Seq<PlanItemView>) -> Seq<Seq<char>>
    decreases items.len(),
{
    if items.len() == 0 {
        Seq::empty()
    } else if items.last().action is Some {
        to_probe(target, items.drop_last()) + passed(target, items.last().rel)
    } else {
        to_probe(target, items.drop_last())
    }
}

/// The paths in the worktree on which the plan depends.
pub fn paths_to_probe(target: &str, items: &Vec<PlanItem>) -> (r: Vec<String>)
    ensures
        texts(r@) == to_probe(target@, items_view(items@)),
{
    let ghost all = items_view(items@);
    let mut out: Vec<String> = Vec::new();
    let mut i: usize = 0;
    assert(all.take(0) =~= Seq::empty());
    assert(texts(out@) =~= to_probe(target@, all.take(0)));
    while i < items.len()
        invariant
            i <= items.len(),
            all == items_view(items@),
            texts(out@) == to_probe(target@, all.take(i as int)),
        decreases items.len() - i,
    {
        assert(all.take(i + 1).drop_last() =~= all.take(i as int));
        assert(all.take(i + 1).last() == items@[i as int]@);
        if items[i].action.is_some() {
            let mut more = component_paths(target, items[i].rel.as_str());
            let ghost a = out@;
            let ghost b = more@;
            out.append(&mut more);
            assert(texts(out@) =~= texts(a) + texts(b));
        }
        i += 1;
    }
    assert(all.take(i as int) =~= all);
    out
}

// --- groups ------------------------------------------------------------------

/// The group that an item belongs to, if it is brought over.
pub open spec fn group_for(action: Option<PlanAction>) -> Option<Group> {
    match action {
        Some(PlanAction::Clone) => Some(Group::Caches),
        Some(_) => Some(Group::State),
        None => None,
    }
}

/// The items of a group, in plan order.
pub open spec fn grouped(items: Seq<PlanItemView>, group: Group) -> Seq<PlanItemView> {
    items.filter(|i: PlanItemView| group_for(i.action) == Some(group))
}

/// The items that are still to be brought over.
pub open spec fn pending(items: Seq<PlanItemView>) -> Seq<PlanItemView> {
    items.filter(|i: PlanItemView| i.state == StateView::Pending)
}

/// The items whose destination cannot be reached safely.
pub open spec fn blocked(items: Seq<PlanItemView>) -> Seq<PlanItemView> {
    items.filter(|i: PlanItemView| i.state is Blocked)
}

/// The items that are already in the worktree.
pub open spec fn existing(items: Seq<PlanItemView>) -> Seq<PlanItemView> {
    items.filter(|i: PlanItemView| i.state == StateView::Exists)
}

/// What some borrowed items say.
pub open spec fn refs_view(v: Seq<&PlanItem>) -> Seq<PlanItemView> {
    Seq::new(v.len(), |i: int| v[i]@)
}

/// What some borrowed items say that come with the reason why they are blocked.
pub open spec fn blocked_view(v: Seq<(&PlanItem, &str)>) -> Seq<PlanItemView> {
    Seq::new(v.len(), |i: int| v[i].0@)
}

impl PlanItem {
    /// The same item again.
    pub fn clone_item(&self) -> (r: PlanItem)
        ensures
            r@ == self@,
    {
        self.clone()
    }
}

impl ItemState {
    /// Whether the item is still to be brought over.
    pub fn is_pending(&self) -> (r: bool)
        ensures
            r == (self@ == StateView::Pending),
    {
        matches!(self, ItemState::Pending)
    }

    /// Whether the item is already in the worktree.
    pub fn is_there(&self) -> (r: bool)
        ensures
            r == (self@ == StateView::Exists),
    {
        matches!(self, ItemState::Exists)
    }
}

impl CopyPlan {
    pub fn group_of(item: &PlanItem) -> (r: Option<Group>)
        ensures
            r == group_for(item.action),
    {
        match item.action {
            Some(PlanAction::Clone) => Some(Group::Caches),
            Some(_) => Some(Group::State),
            None => None,
        }
    }

    /// Items (any state) belonging to a group, in plan order.
    pub fn items_in(&self, group: Group) -> (r: Vec<&PlanItem>)
        ensures
            refs_view(r@) == grouped(items_view(self.items@), group),
    {
        let ghost all = items_view(self.items@);
        let mut out: Vec<&PlanItem> = Vec::new();
        let mut i: usize = 0;
        proof {
            reveal(Seq::filter);
            assert(refs_view(out@) =~= grouped(all.take(0), group));
        }
        while i < self.items.len()
            invariant
                i <= self.items.len(),
                all == items_view(self.items@),
                refs_view(out@) == grouped(all.take(i as int), group),
            decreases self.items.len() - i,
        {
            proof {
                reveal(Seq::filter);
                assert(all.take(i + 1).drop_last() =~= all.take(i as int));
                assert(all.take(i + 1).last() == self.items@[i as int]@);
            }
            let item = &self.items[i];
            if CopyPlan::group_of(item) == Some(group) {
                let ghost before = out@;
                out.push(item);
                assert(refs_view(out@) =~= refs_view(before).push(all[i as int]));
            }
            i += 1;
        }
        assert(all.take(i as int) =~= all);
        out
    }

    /// Items of a group that are still to be brought over.
    pub fn pending_in(&self, group: Group) -> (r: Vec<&PlanItem>)
        ensures
            refs_view(r@) == pending(grouped(items_view(self.items@), group)),
    {
        let items = self.items_in(group);
        let ghost all = grouped(items_view(self.items@), group);
        let mut out: Vec<&PlanItem> = Vec::new();
        let mut i: usize = 0;
        proof {
            reveal(Seq::filter);
            assert(refs_view(out@) =~= pending(all.take(0)));
        }
        while i < items.len()
            invariant
                i <= items.len(),
                all == refs_view(items@),
                refs_view(out@) == pending(all.take(i as int)),
            decreases items.len() - i,
        {
            proof {
                reveal(Seq::filter);
                assert(all.take(i + 1).drop_last() =~= all.take(i as int));
                assert(all.take(i + 1).last() == items@[i as int]@);
            }
            let item = items[i];
            if item.state.is_pending() {
                let ghost before = out@;
                out.push(item);
                assert(refs_view(out@) =~= refs_view(before).push(all[i as int]));
            }
            i += 1;
        }
        assert(all.take(i as int) =~= all);
        out
    }

    /// Items whose destination could not be reached safely, and why.
    pub fn blocked_in(&self, group: Group) -> (r: Vec<(&PlanItem, &str)>)
        ensures
            blocked_view(r@) == blocked(grouped(items_view(self.items@), group)),
            forall|k: int|
                0 <= k < r@.len() ==> (#[trigger] r@[k]).0@.state == StateView::Blocked(r@[k].1@),
    {
        let items = self.items_in(group);
        let ghost all = grouped(items_view(self.items@), group);
        let mut out: Vec<(&PlanItem, &str)> = Vec::new();
        let mut i: usize = 0;
        proof {
            reveal(Seq::filter);
            assert(blocked_view(out@) =~= blocked(all.take(0)));
        }
        while i < items.len()
            invariant
                i <= items.len(),
                all == refs_view(items@),
                blocked_view(out@) == blocked(all.take(i as int)),
                forall|k: int|
                    0 <= k < out@.len() ==> (#[trigger] out@[k]).0@.state == StateView::Blocked(
                        out@[k].1@,
                    ),
            decreases items.len() - i,
        {
            proof {
                reveal(Seq::filter);
                assert(all.take(i + 1).drop_last() =~= all.take(i as int));
                assert(all.take(i + 1).last() == items@[i as int]@);
            }
            let item = items[i];
            match &item.state {
                ItemState::Blocked(reason) => {
                    let ghost before = out@;
                    out.push((item, reason.as_str()));
                    assert(blocked_view(out@) =~= blocked_view(before).push(all[i as int]));
                },
                _ => {},
            }
            i += 1;
        }
        assert(all.take(i as int) =~= all);
        out
    }
}

// --- what holds of every plan ------------------------------------------------

/// Nothing that is in the worktree is planned to be written, nor anything whose
/// path crosses a symlink.
pub proof fn law_pending_is_free(
    rules: RulesView,
    listings: Seq<(Seq<char>, Seq<DirEntryView>)>,
    cands: Seq<CandidateView>,
    target: Seq<char>,
    present: Seq<Seq<char>>,
    links: Seq<Seq<char>>,
    i: int,
)
    requires
        0 <= i < planned(rules, listings, cands, target, present, links).len(),
        planned(rules, listings, cands, target, present, links)[i].action is Some,
        planned(rules, listings, cands, target, present, links)[i].state == StateView::Pending,
    ensures
        ({
            let rel = planned(rules, listings, cands, target, present, links)[i].rel;
            contained(target, rel, links) is Ok && !present.contains(
                contained(target, rel, links)->Ok_0,
            )
        }),
{
}

/// Whether all that was looked at says of the path `rel` that it holds a `.git`.
pub open spec fn seen_as_repo(
    listings: Seq<(Seq<char>, Seq<DirEntryView>)>,
    cands: Seq<CandidateView>,
    rel: Seq<char>,
) -> bool {
    &&& forall|i: int|
        0 <= i < cands.len() && (#[trigger] cands[i]).rel == rel ==> cands[i].nested_repo
    &&& forall|j: int| 0 <= j < listings.len() ==> listed_as_repo(#[trigger] listings[j], rel)
}

/// Whether a listing says of the path `rel` that it holds a `.git`, where it has
/// it.
pub open spec fn listed_as_repo(listing: (Seq<char>, Seq<DirEntryView>), rel: Seq<char>) -> bool {
    forall|k: int|
        0 <= k < listing.1.len() && child_rel(listing.0, (#[trigger] listing.1[k]).0) == rel
            ==> is_repo(listing.1[k])
}

proof fn lemma_listed(
    listings: Seq<(Seq<char>, Seq<DirEntryView>)>,
    dir: Seq<char>,
    rel: Seq<char>,
)
    requires
        forall|j: int| 0 <= j < listings.len() ==> listed_as_repo(#[trigger] listings[j], rel),
    ensures
        listed_as_repo((dir, listed(listings, dir)), rel),
    decreases listings.len(),
{
    if listings.len() > 0 {
        assert(listed_as_repo(listings[0], rel));
        assert forall|j: int| 0 <= j < listings.skip(1).len() implies listed_as_repo(
            #[trigger] listings.skip(1)[j],
            rel,
        ) by {
            assert(listings.skip(1)[j] == listings[j + 1]);
        }
        lemma_listed(listings.skip(1), dir, rel);
    }
}

proof fn lemma_sorted_listing(dir: Seq<char>, entries: Seq<DirEntryView>, rel: Seq<char>)
    requires
        listed_as_repo((dir, entries), rel),
    ensures
        listed_as_repo((dir, by_name(entries)), rel),
{
    broadcast use vstd::seq_lib::group_to_multiset_ensures;

    law_by_name(entries);
    let sorted = by_name(entries);
    assert forall|k: int|
        0 <= k < sorted.len() && child_rel(dir, (#[trigger] sorted[k]).0) == rel implies is_repo(
        sorted[k],
    ) by {
        assert(sorted.contains(sorted[k]));
        assert(entries.to_multiset().contains(sorted[k]));
        assert(entries.contains(sorted[k]));
        let m = choose|m: int| 0 <= m < entries.len() && entries[m] == sorted[k];
        assert(is_repo((dir, entries).1[m]));
    }
}

proof fn lemma_children_nested(
    rules: RulesView,
    dir: Seq<char>,
    entries: Seq<DirEntryView>,
    rel: Seq<char>,
    k: int,
)
    requires
        listed_as_repo((dir, entries), rel),
        0 <= k < children_of(rules, dir, entries).len(),
        children_of(rules, dir, entries)[k].rel == rel,
    ensures
        children_of(rules, dir, entries)[k].action is None,
        children_of(rules, dir, entries)[k].state == StateView::NestedRepo,
    decreases entries.len(),
{
    if entries.len() > 0 {
        let front = entries.drop_last();
        if k < children_of(rules, dir, front).len() {
            assert forall|m: int|
                0 <= m < front.len() && child_rel(dir, (#[trigger] front[m]).0) == rel implies is_repo(
                front[m],
            ) by {
                assert(front[m] == (dir, entries).1[m]);
            }
            assert(listed_as_repo((dir, front), rel));
            lemma_children_nested(rules, dir, front, rel, k);
        } else {
            let last = (dir, entries).1[entries.len() - 1];
            assert(last == entries.last());
            assert(child_rel(dir, last.0) == rel);
        }
    }
}

proof fn lemma_drafted_nested(
    rules: RulesView,
    listings: Seq<(Seq<char>, Seq<DirEntryView>)>,
    cands: Seq<CandidateView>,
    rel: Seq<char>,
    i: int,
)
    requires
        seen_as_repo(listings, cands, rel),
        0 <= i < all_drafted(rules, listings, cands).len(),
        all_drafted(rules, listings, cands)[i].rel == rel,
    ensures
        all_drafted(rules, listings, cands)[i].action is None,
        all_drafted(rules, listings, cands)[i].state == StateView::NestedRepo,
    decreases cands.len(),
{
    if cands.len() > 0 {
        let rest = cands.drop_last();
        let front = all_drafted(rules, listings, rest);
        let cand = cands[cands.len() - 1];
        let last = drafted(rules, listings, cand);
        if i < front.len() {
            assert forall|m: int| 0 <= m < rest.len() && (#[trigger] rest[m]).rel == rel implies rest[m].nested_repo by {
                assert(rest[m] == cands[m]);
            }
            lemma_drafted_nested(rules, listings, rest, rel, i);
        } else {
            let k = i - front.len();
            assert(all_drafted(rules, listings, cands)[i] == last[k]);
            if k > 0 {
                let entries = listed(listings, cand.rel);
                lemma_listed(listings, cand.rel, rel);
                lemma_sorted_listing(cand.rel, entries, rel);
                lemma_children_nested(rules, cand.rel, by_name(entries), rel, k - 1);
            }
        }
    }
}

/// A nested repository is never brought over: where a path was seen to hold a
/// `.git`, be it as a candidate or as an entry of an excluded directory, the
/// plan has no action for it.
pub proof fn law_nested_repo_stays(
    rules: RulesView,
    listings: Seq<(Seq<char>, Seq<DirEntryView>)>,
    cands: Seq<CandidateView>,
    target: Seq<char>,
    present: Seq<Seq<char>>,
    links: Seq<Seq<char>>,
    rel: Seq<char>,
    i: int,
)
    requires
        seen_as_repo(listings, cands, rel),
        0 <= i < planned(rules, listings, cands, target, present, links).len(),
        planned(rules, listings, cands, target, present, links)[i].rel == rel,
    ensures
        planned(rules, listings, cands, target, present, links)[i].action is None,
        planned(rules, listings, cands, target, present, links)[i].state == StateView::NestedRepo,
{
    lemma_drafted_nested(rules, listings, cands, rel, i);
}

proof fn lemma_obstacle_agrees(
    target: Seq<char>,
    rel: Seq<char>,
    a: Seq<Seq<char>>,
    b: Seq<Seq<char>>,
    i: nat,
)
    requires
        forall|x: Seq<char>| #[trigger]
            passed(target, rel).contains(x) ==> a.contains(x) == b.contains(x),
    ensures
        obstacle(target, rel, a, i) == obstacle(target, rel, b, i),
    decreases fields(rel, '/').len() - i,
{
    if i < fields(rel, '/').len() {
        let here = descent(target, fields(rel, '/'), i + 1);
        assert(passed(target, rel)[i as int] == here);
        assert(passed(target, rel).contains(here));
        lemma_obstacle_agrees(target, rel, a, b, i + 1);
    }
}

proof fn lemma_probed(target: Seq<char>, items: Seq<PlanItemView>, i: int, x: Seq<char>)
    requires
        0 <= i < items.len(),
        items[i].action is Some,
        passed(target, items[i].rel).contains(x),
    ensures
        to_probe(target, items).contains(x),
    decreases items.len(),
{
    let front = items.drop_last();
    let r = to_probe(target, items);
    if i == items.len() - 1 {
        let p = passed(target, items.last().rel);
        let k = choose|k: int| 0 <= k < p.len() && p[k] == x;
        assert(r[to_probe(target, front).len() + k] == x);
    } else {
        assert(front[i] == items[i]);
        lemma_probed(target, front, i, x);
        let k = choose|k: int| 0 <= k < to_probe(target, front).len() && to_probe(
            target,
            front,
        )[k] == x;
        assert(r[k] == x);
    }
}

/// The plan depends on the probed paths alone: what else there may be in the
/// worktree makes no difference.
pub proof fn law_plan_depends_on_probed_paths(
    rules: RulesView,
    listings: Seq<(Seq<char>, Seq<DirEntryView>)>,
    cands: Seq<CandidateView>,
    target: Seq<char>,
    a: (Seq<Seq<char>>, Seq<Seq<char>>),
    b: (Seq<Seq<char>>, Seq<Seq<char>>),
)
    requires
        forall|x: Seq<char>| #[trigger]
            to_probe(target, all_drafted(rules, listings, cands)).contains(x) ==> a.0.contains(x)
                == b.0.contains(x) && a.1.contains(x) == b.1.contains(x),
    ensures
        planned(rules, listings, cands, target, a.0, a.1) == planned(
            rules,
            listings,
            cands,
            target,
            b.0,
            b.1,
        ),
{
    let d = all_drafted(rules, listings, cands);
    let p = planned(rules, listings, cands, target, a.0, a.1);
    let q = planned(rules, listings, cands, target, b.0, b.1);
    assert forall|i: int| 0 <= i < d.len() implies p[i] == q[i] by {
        if d[i].action is Some {
            let rel = d[i].rel;
            assert forall|x: Seq<char>| #[trigger] passed(target, rel).contains(x) implies a.1.contains(
                x,
            ) == b.1.contains(x) && a.0.contains(x) == b.0.contains(x) by {
                lemma_probed(target, d, i, x);
            }
            lemma_obstacle_agrees(target, rel, a.1, b.1, 0);
            let parts = fields(rel, '/');
            if parts.len() > 0 {
                let dst = descent(target, parts, parts.len());
                assert(passed(target, rel)[parts.len() - 1] == dst);
                assert(passed(target, rel).contains(dst));
            }
        }
    }
    assert(p =~= q);
}

/// The state of an item that is to be brought over says what there is in the
/// worktree, whatever the item is and however it is brought over: it exists if and
/// only if its destination is contained and present, it is pending if and only if
/// its destination is contained and not present, and else it is blocked, with the
/// reason.
pub proof fn law_state_says_what_is_there(
    rules: RulesView,
    listings: Seq<(Seq<char>, Seq<DirEntryView>)>,
    cands: Seq<CandidateView>,
    target: Seq<char>,
    present: Seq<Seq<char>>,
    links: Seq<Seq<char>>,
    i: int,
)
    requires
        0 <= i < planned(rules, listings, cands, target, present, links).len(),
    ensures
        ({
            let item = planned(rules, listings, cands, target, present, links)[i];
            let dst = contained(target, item.rel, links);
            &&& item.action is Some ==> {
                &&& item.state == StateView::Exists <==> dst is Ok && present.contains(dst->Ok_0)
                &&& item.state == StateView::Pending <==> dst is Ok && !present.contains(dst->Ok_0)
                &&& dst is Err ==> item.state == StateView::Blocked(dst->Err_0)
                &&& dst is Ok ==> !(item.state is Blocked)
            }
            &&& item.action is None ==> item.state == StateView::Excluded || item.state
                == StateView::Unmatched || item.state == StateView::NestedRepo
        }),
{
    lemma_inactive(rules, listings, cands, i);
}

proof fn lemma_inactive(
    rules: RulesView,
    listings: Seq<(Seq<char>, Seq<DirEntryView>)>,
    cands: Seq<CandidateView>,
    i: int,
)
    requires
        0 <= i < all_drafted(rules, listings, cands).len(),
    ensures
        ({
            let item = all_drafted(rules, listings, cands)[i];
            item.action is None ==> item.state == StateView::Excluded || item.state
                == StateView::Unmatched || item.state == StateView::NestedRepo
        }),
    decreases cands.len(),
{
    if cands.len() > 0 {
        let front = all_drafted(rules, listings, cands.drop_last());
        let last = drafted(rules, listings, cands.last());
        if i < front.len() {
            lemma_inactive(rules, listings, cands.drop_last(), i);
        } else {
            let k = i - front.len();
            assert(all_drafted(rules, listings, cands)[i] == last[k]);
            if k > 0 {
                lemma_inactive_child(
                    rules,
                    cands.last().rel,
                    by_name(listed(listings, cands.last().rel)),
                    k - 1,
                );
            }
        }
    }
}

proof fn lemma_inactive_child(
    rules: RulesView,
    rel: Seq<char>,
    entries: Seq<DirEntryView>,
    k: int,
)
    requires
        0 <= k < children_of(rules, rel, entries).len(),
    ensures
        children_of(rules, rel, entries)[k].action is None ==> children_of(rules, rel, entries)[k].state
            == StateView::NestedRepo,
    decreases entries.len(),
{
    if entries.len() > 0 && k < children_of(rules, rel, entries.drop_last()).len() {
        lemma_inactive_child(rules, rel, entries.drop_last(), k);
    }
}

/// Whether an item is what a candidate makes: the same path and kind, brought over
/// the way that the rules say, or not, and then why.
pub open spec fn stands_for(rules: RulesView, cand: CandidateView, item: PlanItemView) -> bool {
    &&& item.rel == cand.rel
    &&& item.is_dir == cand.is_dir
    &&& item.is_symlink == cand.is_symlink
    &&& cand.nested_repo ==> item.action is None && item.state == StateView::NestedRepo
    &&& !cand.nested_repo ==> match classified(rules, cand.rel, cand.is_dir) {
        None => item.action is None && item.state == StateView::Unmatched,
        Some(Action::Exclude) => item.action is None && item.state == StateView::Excluded,
        Some(Action::Copy) => item.action == Some(PlanAction::Copy),
        Some(Action::Clone) => item.action == Some(PlanAction::Clone),
        Some(Action::Symlink) => item.action == Some(PlanAction::Symlink),
    }
}

proof fn lemma_candidate_drafted(
    rules: RulesView,
    listings: Seq<(Seq<char>, Seq<DirEntryView>)>,
    cands: Seq<CandidateView>,
    c: int,
) -> (i: int)
    requires
        0 <= c < cands.len(),
    ensures
        0 <= i < all_drafted(rules, listings, cands).len(),
        stands_for(rules, cands[c], all_drafted(rules, listings, cands)[i]),
    decreases cands.len(),
{
    let front = all_drafted(rules, listings, cands.drop_last());
    let all = all_drafted(rules, listings, cands);
    if c == cands.len() - 1 {
        let i = front.len() as int;
        assert(all[i] == drafted(rules, listings, cands[c])[0]);
        i
    } else {
        assert(cands.drop_last()[c] == cands[c]);
        let i = lemma_candidate_drafted(rules, listings, cands.drop_last(), c);
        assert(all[i] == front[i]);
        i
    }
}

/// Every candidate is in the plan, as what the rules make of it.
pub proof fn law_every_candidate_is_planned(
    rules: RulesView,
    listings: Seq<(Seq<char>, Seq<DirEntryView>)>,
    cands: Seq<CandidateView>,
    target: Seq<char>,
    present: Seq<Seq<char>>,
    links: Seq<Seq<char>>,
    c: int,
)
    requires
        0 <= c < cands.len(),
    ensures
        exists|i: int|
            0 <= i < planned(rules, listings, cands, target, present, links).len() && stands_for(
                rules,
                cands[c],
                #[trigger] planned(rules, listings, cands, target, present, links)[i],
            ),
{
    let p = planned(rules, listings, cands, target, present, links);
    let i = lemma_candidate_drafted(rules, listings, cands, c);
    assert(stands_for(rules, cands[c], p[i]));
}

/// Whether an item is what an entry of an excluded directory makes.
pub open spec fn stands_for_entry(
    rules: RulesView,
    dir: Seq<char>,
    entry: DirEntryView,
    item: PlanItemView,
) -> bool {
    &&& item.rel == dir + "/"@ + lossy_text(entry.0)
    &&& item.is_dir == (entry.1 == EntryKind::Dir)
    &&& item.is_symlink == (entry.1 == EntryKind::Symlink)
    &&& entry.1 == EntryKind::Dir && entry.2 ==> item.action is None && item.state
        == StateView::NestedRepo
    &&& !(entry.1 == EntryKind::Dir && entry.2) ==> match classified(
        rules,
        item.rel,
        item.is_dir,
    ) {
        Some(Action::Copy) => item.action == Some(PlanAction::Copy),
        Some(Action::Clone) => item.action == Some(PlanAction::Clone),
        Some(Action::Symlink) => item.action == Some(PlanAction::Symlink),
        _ => false,
    }
}

/// Whether an entry of an excluded directory is wanted all the same: a file, a
/// directory or a symlink that the rules bring over.
pub open spec fn wanted_entry(rules: RulesView, dir: Seq<char>, entry: DirEntryView) -> bool {
    let c = classified(rules, dir + "/"@ + lossy_text(entry.0), entry.1 == EntryKind::Dir);
    entry.1 != EntryKind::Other && c is Some && c != Some(Action::Exclude)
}

proof fn lemma_entry_planned(
    rules: RulesView,
    dir: Seq<char>,
    entries: Seq<DirEntryView>,
    e: int,
) -> (k: int)
    requires
        0 <= e < entries.len(),
        wanted_entry(rules, dir, entries[e]),
    ensures
        0 <= k < children_of(rules, dir, entries).len(),
        stands_for_entry(rules, dir, entries[e], children_of(rules, dir, entries)[k]),
    decreases entries.len(),
{
    let front = children_of(rules, dir, entries.drop_last());
    if e == entries.len() - 1 {
        front.len() as int
    } else {
        assert(entries.drop_last()[e] == entries[e]);
        let k = lemma_entry_planned(rules, dir, entries.drop_last(), e);
        assert(children_of(rules, dir, entries)[k] == front[k]);
        k
    }
}

proof fn lemma_listing_found(
    listings: Seq<(Seq<char>, Seq<DirEntryView>)>,
    rel: Seq<char>,
    l: int,
)
    requires
        0 <= l < listings.len(),
        listings[l].0 == rel,
        forall|j: int| 0 <= j < l ==> (#[trigger] listings[j]).0 != rel,
    ensures
        listed(listings, rel) == listings[l].1,
    decreases l,
{
    if l > 0 {
        let t = listings.skip(1);
        assert(listings[0].0 != rel);
        assert(t[l - 1] == listings[l]);
        assert forall|j: int| 0 <= j < l - 1 implies (#[trigger] t[j]).0 != rel by {
            assert(t[j] == listings[j + 1]);
        }
        lemma_listing_found(t, rel, l - 1);
    }
}

/// Every entry of an excluded directory that the rules want all the same is in the
/// plan, as what the rules make of it.
pub proof fn law_wanted_entries_are_planned(
    rules: RulesView,
    listings: Seq<(Seq<char>, Seq<DirEntryView>)>,
    cands: Seq<CandidateView>,
    target: Seq<char>,
    present: Seq<Seq<char>>,
    links: Seq<Seq<char>>,
    c: int,
    l: int,
    e: int,
)
    requires
        0 <= c < cands.len(),
        cands[c].is_dir && !cands[c].is_symlink && !cands[c].nested_repo,
        classified(rules, cands[c].rel, true) == Some(Action::Exclude),
        0 <= l < listings.len(),
        listings[l].0 == cands[c].rel,
        forall|j: int| 0 <= j < l ==> (#[trigger] listings[j]).0 != cands[c].rel,
        0 <= e < listings[l].1.len(),
        wanted_entry(rules, cands[c].rel, listings[l].1[e]),
    ensures
        exists|i: int|
            0 <= i < planned(rules, listings, cands, target, present, links).len()
                && stands_for_entry(
                rules,
                cands[c].rel,
                listings[l].1[e],
                #[trigger] planned(rules, listings, cands, target, present, links)[i],
            ),
{
    broadcast use vstd::seq_lib::group_to_multiset_ensures;

    let rel = cands[c].rel;
    let entry = listings[l].1[e];
    lemma_listing_found(listings, rel, l);
    let entries = by_name(listings[l].1);
    law_by_name(listings[l].1);
    assert(listings[l].1.contains(entry));
    assert(entries.to_multiset().contains(entry));
    assert(entries.contains(entry));
    let m = choose|m: int| 0 <= m < entries.len() && entries[m] == entry;
    let k = lemma_entry_planned(rules, rel, entries, m);
    let i = lemma_child_drafted(rules, listings, cands, c, k);
    let p = planned(rules, listings, cands, target, present, links);
    assert(stands_for_entry(rules, rel, entry, p[i]));
}

proof fn lemma_child_drafted(
    rules: RulesView,
    listings: Seq<(Seq<char>, Seq<DirEntryView>)>,
    cands: Seq<CandidateView>,
    c: int,
    k: int,
) -> (i: int)
    requires
        0 <= c < cands.len(),
        descends(rules, cands[c]),
        0 <= k < children_of(
            rules,
            cands[c].rel,
            by_name(listed(listings, cands[c].rel)),
        ).len(),
    ensures
        0 <= i < all_drafted(rules, listings, cands).len(),
        all_drafted(rules, listings, cands)[i] == children_of(
            rules,
            cands[c].rel,
            by_name(listed(listings, cands[c].rel)),
        )[k],
    decreases cands.len(),
{
    let front = all_drafted(rules, listings, cands.drop_last());
    let all = all_drafted(rules, listings, cands);
    if c == cands.len() - 1 {
        let i = front.len() + 1 + k;
        assert(all[i] == drafted(rules, listings, cands[c])[k + 1]);
        i
    } else {
        assert(cands.drop_last()[c] == cands[c]);
        let i = lemma_child_drafted(rules, listings, cands.drop_last(), c, k);
        assert(all[i] == front[i]);
        i
    }
}

/// Whether an item of a plan comes from a candidate: it is what the candidate
/// makes, or an entry right below it where it is an excluded directory.
pub open spec fn comes_from(rules: RulesView, cand: CandidateView, item: PlanItemView) -> bool {
    ||| stands_for(rules, cand, item)
    ||| {
        &&& cand.is_dir && !cand.is_symlink && !cand.nested_repo
        &&& classified(rules, cand.rel, true) == Some(Action::Exclude)
        &&& exists|name: Seq<u8>| item.rel == cand.rel + "/"@ + #[trigger] lossy_text(name)
    }
}

/// Nothing is planned but candidates and what stands in excluded ones.
pub proof fn law_nothing_else_is_planned(
    rules: RulesView,
    listings: Seq<(Seq<char>, Seq<DirEntryView>)>,
    cands: Seq<CandidateView>,
    target: Seq<char>,
    present: Seq<Seq<char>>,
    links: Seq<Seq<char>>,
    i: int,
)
    requires
        0 <= i < planned(rules, listings, cands, target, present, links).len(),
    ensures
        exists|c: int|
            0 <= c < cands.len() && comes_from(
                rules,
                #[trigger] cands[c],
                planned(rules, listings, cands, target, present, links)[i],
            ),
{
    let p = planned(rules, listings, cands, target, present, links);
    let c = lemma_drafted_from(rules, listings, cands, i);
    assert(comes_from(rules, cands[c], p[i]));
}

proof fn lemma_drafted_from(
    rules: RulesView,
    listings: Seq<(Seq<char>, Seq<DirEntryView>)>,
    cands: Seq<CandidateView>,
    i: int,
) -> (c: int)
    requires
        0 <= i < all_drafted(rules, listings, cands).len(),
    ensures
        0 <= c < cands.len(),
        comes_from(rules, cands[c], all_drafted(rules, listings, cands)[i]),
    decreases cands.len(),
{
    let front = all_drafted(rules, listings, cands.drop_last());
    let all = all_drafted(rules, listings, cands);
    if i < front.len() {
        let c = lemma_drafted_from(rules, listings, cands.drop_last(), i);
        assert(cands.drop_last()[c] == cands[c]);
        assert(all[i] == front[i]);
        c
    } else {
        let c = cands.len() - 1;
        let k = i - front.len();
        let last = drafted(rules, listings, cands[c]);
        assert(all[i] == last[k]);
        if k > 0 {
            lemma_child_rel(rules, cands[c].rel, by_name(listed(listings, cands[c].rel)), k - 1);
        }
        c
    }
}

proof fn lemma_child_rel(rules: RulesView, dir: Seq<char>, entries: Seq<DirEntryView>, k: int)
    requires
        0 <= k < children_of(rules, dir, entries).len(),
    ensures
        exists|name: Seq<u8>|
            children_of(rules, dir, entries)[k].rel == dir + "/"@ + #[trigger] lossy_text(name),
    decreases entries.len(),
{
    if entries.len() > 0 {
        if k < children_of(rules, dir, entries.drop_last()).len() {
            lemma_child_rel(rules, dir, entries.drop_last(), k);
        } else {
            let name = entries.last().0;
            assert(children_of(rules, dir, entries)[k].rel == dir + "/"@ + lossy_text(name));
        }
    }
}

/// Every item of a plan belongs to the group that its way of being brought over
/// says: clones are caches, copies and symlinks are state. Those that are pending,
/// blocked or there already are exactly those of that state.
pub proof fn law_groups_and_states(items: Seq<PlanItemView>, x: PlanItemView)
    ensures
        grouped(items, Group::Caches).contains(x) <==> items.contains(x) && x.action == Some(
            PlanAction::Clone,
        ),
        grouped(items, Group::State).contains(x) <==> items.contains(x) && (x.action == Some(
            PlanAction::Copy,
        ) || x.action == Some(PlanAction::Symlink)),
        pending(items).contains(x) <==> items.contains(x) && x.state == StateView::Pending,
        blocked(items).contains(x) <==> items.contains(x) && x.state is Blocked,
        existing(items).contains(x) <==> items.contains(x) && x.state == StateView::Exists,
{
    let caches = Group::Caches;
    let state = Group::State;
    assert(grouped(items, caches) =~= items.filter(
        |i: PlanItemView| group_for(i.action) == Some(caches),
    ));
    assert(grouped(items, state) =~= items.filter(
        |i: PlanItemView| group_for(i.action) == Some(state),
    ));
    lemma_filtered(items, |i: PlanItemView| group_for(i.action) == Some(caches), x);
    lemma_filtered(items, |i: PlanItemView| group_for(i.action) == Some(state), x);
    lemma_filtered(items, |i: PlanItemView| i.state == StateView::Pending, x);
    lemma_filtered(items, |i: PlanItemView| i.state is Blocked, x);
    lemma_filtered(items, |i: PlanItemView| i.state == StateView::Exists, x);
}

/// A directory is looked into if and only if it is a candidate that the rules
/// exclude, no symlink and no repository of its own.
pub proof fn law_excluded_directories_are_looked_into(
    rules: RulesView,
    cands: Seq<CandidateView>,
    rel: Seq<char>,
)
    ensures
        to_list(rules, cands).contains(rel) <==> exists|c: int|
            0 <= c < cands.len() && (#[trigger] cands[c]).rel == rel && cands[c].is_dir
                && !cands[c].is_symlink && !cands[c].nested_repo && classified(rules, rel, true)
                == Some(Action::Exclude),
    decreases cands.len(),
{
    let r = to_list(rules, cands);
    if cands.len() > 0 {
        let rest = cands.drop_last();
        let f = to_list(rules, rest);
        law_excluded_directories_are_looked_into(rules, rest, rel);
        if f.contains(rel) {
            let k = choose|k: int| 0 <= k < f.len() && f[k] == rel;
            assert(r[k] == rel);
            let c = choose|c: int|
                0 <= c < rest.len() && (#[trigger] rest[c]).rel == rel && rest[c].is_dir
                    && !rest[c].is_symlink && !rest[c].nested_repo && classified(rules, rel, true)
                    == Some(Action::Exclude);
            assert(cands[c] == rest[c]);
        }
        if descends(rules, cands.last()) {
            assert(r[r.len() - 1] == cands.last().rel);
            assert(cands[cands.len() - 1] == cands.last());
        }
        if r.contains(rel) && !f.contains(rel) {
            assert(cands[cands.len() - 1].rel == rel);
        }
        if exists|c: int|
            0 <= c < cands.len() && (#[trigger] cands[c]).rel == rel && cands[c].is_dir
                && !cands[c].is_symlink && !cands[c].nested_repo && classified(rules, rel, true)
                == Some(Action::Exclude) {
            let c = choose|c: int|
                0 <= c < cands.len() && (#[trigger] cands[c]).rel == rel && cands[c].is_dir
                    && !cands[c].is_symlink && !cands[c].nested_repo && classified(rules, rel, true)
                    == Some(Action::Exclude);
            if c < rest.len() {
                assert(rest[c] == cands[c]);
            } else {
                assert(descends(rules, cands.last()));
            }
        }
    }
}

/// Every path that decides on an item that is brought over is looked at, and no
/// other.
pub proof fn law_deciding_paths_are_looked_at(
    target: Seq<char>,
    items: Seq<PlanItemView>,
    p: Seq<char>,
)
    ensures
        to_probe(target, items).contains(p) <==> exists|i: int|
            0 <= i < items.len() && (#[trigger] items[i]).action is Some && passed(
                target,
                items[i].rel,
            ).contains(p),
    decreases items.len(),
{
    let r = to_probe(target, items);
    if items.len() > 0 {
        let front = items.drop_last();
        let a = to_probe(target, front);
        law_deciding_paths_are_looked_at(target, front, p);
        if a.contains(p) {
            let k = choose|k: int| 0 <= k < a.len() && a[k] == p;
            assert(r[k] == p);
            let i = choose|i: int|
                0 <= i < front.len() && (#[trigger] front[i]).action is Some && passed(
                    target,
                    front[i].rel,
                ).contains(p);
            assert(items[i] == front[i]);
        }
        let more = passed(target, items.last().rel);
        if items.last().action is Some && more.contains(p) {
            let k = choose|k: int| 0 <= k < more.len() && more[k] == p;
            assert(r[a.len() + k] == p);
        }
        if r.contains(p) && !a.contains(p) {
            let k = choose|k: int| 0 <= k < r.len() && r[k] == p;
            if k < a.len() {
                assert(a[k] == p);
            } else {
                assert(more[k - a.len()] == p);
            }
            assert(items[items.len() - 1] == items.last());
        }
        if exists|i: int|
            0 <= i < items.len() && (#[trigger] items[i]).action is Some && passed(
                target,
                items[i].rel,
            ).contains(p) {
            let i = choose|i: int|
                0 <= i < items.len() && (#[trigger] items[i]).action is Some && passed(
                    target,
                    items[i].rel,
                ).contains(p);
            if i < front.len() {
                assert(front[i] == items[i]);
            }
        }
    }
}

} // verus!
