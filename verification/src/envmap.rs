//! Environment variables: names with values, each name once, in order of name.

use vstd::prelude::*;
use vstd::string::*;
use crate::order::{
    codes, lemma_codes_injective, lemma_irreflexive, lemma_total, lemma_transitive, text_before,
    text_precedes,
};
use crate::text::same;

verus! {

/// What a variable is called and what it holds.
pub type Pair = (Seq<char>, Seq<char>);

/// The texts of a list of pairs of strings.
pub open spec fn pair_texts(v: Seq<(String, String)>) -> Seq<Pair> {
    Seq::new(v.len(), |i: int| (v[i].0@, v[i].1@))
}

/// Each name stands before all later ones.
pub open spec fn ordered(p: Seq<Pair>) -> bool {
    forall|i: int, j: int| 0 <= i < j < p.len() ==> text_before(#[trigger] p[i].0, #[trigger] p[j].0)
}

/// `p` with the variable `k` set to `v`.
pub open spec fn put(p: Seq<Pair>, k: Seq<char>, v: Seq<char>) -> Seq<Pair>
    decreases p.len(),
{
    if p.len() == 0 {
        seq![(k, v)]
    } else if p[0].0 == k {
        seq![(k, v)] + p.skip(1)
    } else if text_before(k, p[0].0) {
        seq![(k, v)] + p
    } else {
        seq![p[0]] + put(p.skip(1), k, v)
    }
}

/// `p` without the variable `k`.
pub open spec fn without(p: Seq<Pair>, k: Seq<char>) -> Seq<Pair> {
    p.filter(|e: Pair| e.0 != k)
}

/// What the variable `k` holds.
pub open spec fn lookup(p: Seq<Pair>, k: Seq<char>) -> Option<Seq<char>>
    decreases p.len(),
{
    if p.len() == 0 {
        None
    } else if p[0].0 == k {
        Some(p[0].1)
    } else {
        lookup(p.skip(1), k)
    }
}

/// `p` with all of `more` set, one after the other.
pub open spec fn put_all(p: Seq<Pair>, more: Seq<Pair>) -> Seq<Pair>
    decreases more.len(),
{
    if more.len() == 0 {
        p
    } else {
        let r = put_all(p, more.drop_last());
        put(r, more.last().0, more.last().1)
    }
}

proof fn lemma_tail_ordered(p: Seq<Pair>)
    requires
        ordered(p),
        p.len() > 0,
    ensures
        ordered(p.skip(1)),
{
    assert forall|i: int, j: int| 0 <= i < j < p.skip(1).len() implies text_before(
        #[trigger] p.skip(1)[i].0,
        #[trigger] p.skip(1)[j].0,
    ) by {
        assert(p.skip(1)[i] == p[i + 1]);
        assert(p.skip(1)[j] == p[j + 1]);
    }
}

/// Setting a variable keeps the order of names, and brings in no other name.
proof fn lemma_put_ordered(p: Seq<Pair>, k: Seq<char>, v: Seq<char>)
    requires
        ordered(p),
    ensures
        ordered(put(p, k, v)),
        forall|i: int| 0 <= i < put(p, k, v).len() ==> (#[trigger] put(p, k, v)[i]).0 == k || exists|
            j: int,
        |
            0 <= j < p.len() && #[trigger] p[j] == put(p, k, v)[i],
    decreases p.len(),
{
    let r = put(p, k, v);
    if p.len() > 0 {
        if p[0].0 == k {
            assert forall|i: int, j: int| 0 <= i < j < r.len() implies text_before(
                #[trigger] r[i].0,
                #[trigger] r[j].0,
            ) by {
                assert(r[i].0 == p[i].0 && r[j].0 == p[j].0);
            }
            assert forall|i: int| 0 <= i < r.len() implies (#[trigger] r[i]).0 == k || exists|j: int|
                0 <= j < p.len() && #[trigger] p[j] == r[i] by {
                if i > 0 {
                    assert(p[i] == r[i]);
                }
            }
        } else if text_before(k, p[0].0) {
            assert forall|i: int, j: int| 0 <= i < j < r.len() implies text_before(
                #[trigger] r[i].0,
                #[trigger] r[j].0,
            ) by {
                assert(r[j] == p[j - 1]);
                if i == 0 {
                    if j > 1 {
                        assert(text_before(p[0].0, p[j - 1].0));
                        lemma_transitive(codes(k), codes(p[0].0), codes(p[j - 1].0));
                    }
                } else {
                    assert(r[i] == p[i - 1]);
                }
            }
            assert forall|i: int| 0 <= i < r.len() implies (#[trigger] r[i]).0 == k || exists|j: int|
                0 <= j < p.len() && #[trigger] p[j] == r[i] by {
                if i > 0 {
                    assert(p[i - 1] == r[i]);
                }
            }
        } else {
            lemma_tail_ordered(p);
            let t = put(p.skip(1), k, v);
            lemma_put_ordered(p.skip(1), k, v);
            assert(text_before(p[0].0, k)) by {
                lemma_total(codes(p[0].0), codes(k));
                if codes(p[0].0) == codes(k) {
                    lemma_codes_injective(p[0].0, k);
                }
            }
            assert forall|i: int, j: int| 0 <= i < j < r.len() implies text_before(
                #[trigger] r[i].0,
                #[trigger] r[j].0,
            ) by {
                assert(r[j] == t[j - 1]);
                if i == 0 {
                    if t[j - 1].0 != k {
                        let m = choose|m: int|
                            0 <= m < p.skip(1).len() && #[trigger] p.skip(1)[m] == t[j - 1];
                        assert(p.skip(1)[m] == p[m + 1]);
                        assert(text_before(p[0].0, p[m + 1].0));
                    }
                } else {
                    assert(r[i] == t[i - 1]);
                }
            }
            assert forall|i: int| 0 <= i < r.len() implies (#[trigger] r[i]).0 == k || exists|j: int|
                0 <= j < p.len() && #[trigger] p[j] == r[i] by {
                if i == 0 {
                    assert(p[0] == r[0]);
                } else {
                    assert(r[i] == t[i - 1]);
                    if t[i - 1].0 != k {
                        let m = choose|m: int|
                            0 <= m < p.skip(1).len() && #[trigger] p.skip(1)[m] == t[i - 1];
                        assert(p.skip(1)[m] == p[m + 1]);
                    }
                }
            }
        }
    }
}

/// What a variable was set to is what it holds; the others hold what they held.
pub proof fn law_lookup_after_put(p: Seq<Pair>, k: Seq<char>, v: Seq<char>, other: Seq<char>)
    ensures
        lookup(put(p, k, v), k) == Some(v),
        other != k ==> lookup(put(p, k, v), other) == lookup(p, other),
    decreases p.len(),
{
    let r = put(p, k, v);
    if p.len() == 0 {
        assert(r.skip(1) =~= p);
    } else if p[0].0 == k {
        assert(r.skip(1) =~= p.skip(1));
    } else if text_before(k, p[0].0) {
        assert(r.skip(1) =~= p);
    } else {
        assert(r.skip(1) =~= put(p.skip(1), k, v));
        law_lookup_after_put(p.skip(1), k, v, other);
    }
}

proof fn lemma_without_step(p: Seq<Pair>, k: Seq<char>)
    requires
        p.len() > 0,
    ensures
        without(p, k) == if p[0].0 == k {
            without(p.skip(1), k)
        } else {
            seq![p[0]] + without(p.skip(1), k)
        },
    decreases p.len(),
{
    reveal(Seq::filter);
    if p.len() == 1 {
        assert(p.drop_last() =~= p.skip(1));
        assert(without(p.skip(1), k) =~= Seq::empty());
        assert(without(p, k) =~= if p[0].0 == k {
            Seq::empty()
        } else {
            seq![p[0]]
        });
    } else {
        lemma_without_step(p.drop_last(), k);
        assert(p.drop_last().skip(1) =~= p.skip(1).drop_last());
        assert(p.last() == p.skip(1).last());
        assert(without(p, k) =~= if p[0].0 == k {
            without(p.skip(1), k)
        } else {
            seq![p[0]] + without(p.skip(1), k)
        });
    }
}

/// A removed variable holds nothing; the others hold what they held.
pub proof fn law_lookup_after_remove(p: Seq<Pair>, k: Seq<char>, other: Seq<char>)
    ensures
        lookup(without(p, k), k) is None,
        other != k ==> lookup(without(p, k), other) == lookup(p, other),
    decreases p.len(),
{
    reveal(Seq::filter);
    if p.len() > 0 {
        lemma_without_step(p, k);
        law_lookup_after_remove(p.skip(1), k, other);
        if p[0].0 != k {
            assert((seq![p[0]] + without(p.skip(1), k)).skip(1) =~= without(p.skip(1), k));
        }
    }
}

/// What a variable holds after one more was put at the end.
pub proof fn lemma_lookup_pushed(p: Seq<Pair>, e: Pair, k: Seq<char>)
    ensures
        lookup(p.push(e), k) == if lookup(p, k) is Some {
            lookup(p, k)
        } else if e.0 == k {
            Some(e.1)
        } else {
            None
        },
    decreases p.len(),
{
    if p.len() > 0 {
        lemma_lookup_pushed(p.skip(1), e, k);
        assert(p.push(e).skip(1) =~= p.skip(1).push(e));
    } else {
        assert(p.push(e).skip(1) =~= p);
    }
}

/// Setting many variables makes each of them hold what it was set to; the others
/// hold what they held.
pub proof fn law_put_all(p: Seq<Pair>, more: Seq<Pair>, k: Seq<char>)
    requires
        ordered(more),
    ensures
        lookup(put_all(p, more), k) == if lookup(more, k) is Some {
            lookup(more, k)
        } else {
            lookup(p, k)
        },
    decreases more.len(),
{
    if more.len() > 0 {
        let front = more.drop_last();
        assert(ordered(front)) by {
            assert forall|i: int, j: int| 0 <= i < j < front.len() implies text_before(
                #[trigger] front[i].0,
                #[trigger] front[j].0,
            ) by {
                assert(front[i] == more[i] && front[j] == more[j]);
            }
        }
        law_put_all(p, front, k);
        law_lookup_after_put(put_all(p, front), more.last().0, more.last().1, k);
        lemma_lookup_last(more, k);
    }
}

/// What a variable holds is what the last entry says, where it is the one.
pub proof fn lemma_lookup_last(p: Seq<Pair>, k: Seq<char>)
    requires
        ordered(p),
        p.len() > 0,
    ensures
        lookup(p, k) == if p.last().0 == k {
            Some(p.last().1)
        } else {
            lookup(p.drop_last(), k)
        },
    decreases p.len(),
{
    if p.len() == 1 {
        assert(p.drop_last() =~= Seq::empty());
        assert(p.skip(1) =~= Seq::empty());
    } else {
        let t = p.skip(1);
        assert(ordered(t)) by {
            assert forall|i: int, j: int| 0 <= i < j < t.len() implies text_before(
                #[trigger] t[i].0,
                #[trigger] t[j].0,
            ) by {
                assert(t[i] == p[i + 1] && t[j] == p[j + 1]);
            }
        }
        lemma_lookup_last(t, k);
        assert(t.last() == p.last());
        assert(p.drop_last().skip(1) =~= t.drop_last());
        assert(p.drop_last()[0] == p[0]);
        if p[0].0 == p.last().0 {
            assert(text_before(p[0].0, p[p.len() - 1].0));
            lemma_irreflexive(codes(p[0].0));
        }
    }
}

/// A variable holds what its first entry says, and nothing where it has none.
pub proof fn law_lookup_is_the_first(p: Seq<Pair>, k: Seq<char>)
    ensures
        forall|i: int|
            0 <= i < p.len() && (#[trigger] p[i]).0 == k && (forall|j: int|
                0 <= j < i ==> (#[trigger] p[j]).0 != k) ==> lookup(p, k) == Some(p[i].1),
        lookup(p, k) is None <==> forall|i: int| 0 <= i < p.len() ==> (#[trigger] p[i]).0 != k,
    decreases p.len(),
{
    if p.len() > 0 {
        let t = p.skip(1);
        law_lookup_is_the_first(t, k);
        if p[0].0 != k {
            assert forall|i: int|
                0 <= i < p.len() && (#[trigger] p[i]).0 == k && (forall|j: int|
                    0 <= j < i ==> (#[trigger] p[j]).0 != k) implies lookup(p, k) == Some(
                p[i].1,
            ) by {
                assert(t[i - 1] == p[i]);
                assert forall|j: int| 0 <= j < i - 1 implies (#[trigger] t[j]).0 != k by {
                    assert(t[j] == p[j + 1]);
                }
            }
            if forall|i: int| 0 <= i < p.len() ==> (#[trigger] p[i]).0 != k {
                assert forall|i: int| 0 <= i < t.len() implies (#[trigger] t[i]).0 != k by {
                    assert(t[i] == p[i + 1]);
                }
            }
            if lookup(p, k) is None {
                assert forall|i: int| 0 <= i < p.len() implies (#[trigger] p[i]).0 != k by {
                    if i > 0 {
                        assert(t[i - 1] == p[i]);
                    }
                }
            }
        }
    }
}

proof fn lemma_without_ordered(p: Seq<Pair>, k: Seq<char>)
    requires
        ordered(p),
    ensures
        ordered(without(p, k)),
        forall|i: int| 0 <= i < without(p, k).len() ==> exists|j: int|
            0 <= j < p.len() && #[trigger] p[j] == #[trigger] without(p, k)[i],
    decreases p.len(),
{
    reveal(Seq::filter);
    let r = without(p, k);
    if p.len() > 0 {
        lemma_tail_ordered(p);
        lemma_without_step(p, k);
        let t = without(p.skip(1), k);
        lemma_without_ordered(p.skip(1), k);
        assert forall|i: int| 0 <= i < t.len() implies exists|j: int|
            1 <= j < p.len() && #[trigger] p[j] == #[trigger] t[i] by {
            let m = choose|m: int| 0 <= m < p.skip(1).len() && #[trigger] p.skip(1)[m] == t[i];
            assert(p.skip(1)[m] == p[m + 1]);
        }
        if p[0].0 != k {
            assert forall|i: int, j: int| 0 <= i < j < r.len() implies text_before(
                #[trigger] r[i].0,
                #[trigger] r[j].0,
            ) by {
                assert(r[j] == t[j - 1]);
                if i > 0 {
                    assert(r[i] == t[i - 1]);
                }
            }
            assert forall|i: int| 0 <= i < r.len() implies exists|j: int|
                0 <= j < p.len() && #[trigger] p[j] == #[trigger] r[i] by {
                if i == 0 {
                    assert(p[0] == r[0]);
                } else {
                    assert(r[i] == t[i - 1]);
                }
            }
        }
    }
}

proof fn lemma_put_at(p: Seq<Pair>, k: Seq<char>, v: Seq<char>, i: int)
    requires
        0 <= i <= p.len(),
        forall|j: int| 0 <= j < i ==> (#[trigger] p[j]).0 != k && !text_before(k, p[j].0),
    ensures
        put(p, k, v) == p.take(i) + put(p.skip(i), k, v),
    decreases i,
{
    if i == 0 {
        assert(p.skip(0) =~= p);
        assert(p.take(0) + put(p, k, v) =~= put(p, k, v));
    } else {
        assert(p[0].0 != k && !text_before(k, p[0].0));
        assert forall|j: int| 0 <= j < i - 1 implies (#[trigger] p.skip(1)[j]).0 != k
            && !text_before(k, p.skip(1)[j].0) by {
            assert(p.skip(1)[j] == p[j + 1]);
        }
        lemma_put_at(p.skip(1), k, v, i - 1);
        assert(p.skip(1).skip(i - 1) =~= p.skip(i));
        assert(seq![p[0]] + p.skip(1).take(i - 1) =~= p.take(i));
        assert(put(p, k, v) =~= p.take(i) + put(p.skip(i), k, v));
    }
}

proof fn lemma_lookup_at(p: Seq<Pair>, k: Seq<char>, i: int)
    requires
        0 <= i <= p.len(),
        forall|j: int| 0 <= j < i ==> (#[trigger] p[j]).0 != k,
    ensures
        lookup(p, k) == lookup(p.skip(i), k),
    decreases i,
{
    if i == 0 {
        assert(p.skip(0) =~= p);
    } else {
        assert(p[0].0 != k);
        assert forall|j: int| 0 <= j < i - 1 implies (#[trigger] p.skip(1)[j]).0 != k by {
            assert(p.skip(1)[j] == p[j + 1]);
        }
        lemma_lookup_at(p.skip(1), k, i - 1);
        assert(p.skip(1).skip(i - 1) =~= p.skip(i));
    }
}

/// Variables by name. Walking it gives them in order of name. Names and values
/// stand for bytes, as in `ostext`.
#[derive(Debug)]
pub struct EnvMap {
    entries: Vec<(String, String)>,
}

impl View for EnvMap {
    type V = Seq<Pair>;

    closed spec fn view(&self) -> Seq<Pair> {
        pair_texts(self.entries@)
    }
}

impl EnvMap {
    #[verifier::type_invariant]
    spec fn names_ordered(self) -> bool {
        ordered(pair_texts(self.entries@))
    }

    /// No variable.
    pub fn new() -> (r: EnvMap)
        ensures
            r@ == Seq::<Pair>::empty(),
    {
        let r = EnvMap { entries: Vec::new() };
        assert(r@ =~= Seq::<Pair>::empty());
        r
    }

    /// How many variables there are.
    pub fn len(&self) -> (r: usize)
        ensures
            r == self@.len(),
    {
        self.entries.len()
    }

    /// Whether there is none.
    pub fn is_empty(&self) -> (r: bool)
        ensures
            r == (self@.len() == 0),
    {
        self.entries.len() == 0
    }

    /// The name of the `i`-th variable.
    pub fn name(&self, i: usize) -> (r: &String)
        requires
            i < self@.len(),
        ensures
            r@ == self@[i as int].0,
    {
        &self.entries[i].0
    }

    /// What the `i`-th variable holds.
    pub fn value(&self, i: usize) -> (r: &String)
        requires
            i < self@.len(),
        ensures
            r@ == self@[i as int].1,
    {
        &self.entries[i].1
    }

    /// What the variable `key` holds, if it is there.
    pub fn get(&self, key: &str) -> (r: Option<&String>)
        ensures
            match r {
                Some(v) => lookup(self@, key@) == Some(v@),
                None => lookup(self@, key@) is None,
            },
    {
        let mut i: usize = 0;
        while i < self.entries.len()
            invariant
                i <= self.entries.len(),
                forall|j: int| 0 <= j < i ==> (#[trigger] self@[j]).0 != key@,
            decreases self.entries.len() - i,
        {
            assert(self@[i as int].0 == self.entries@[i as int].0@);
            if same(self.entries[i].0.as_str(), key) {
                proof {
                    lemma_lookup_at(self@, key@, i as int);
                    assert(self@.skip(i as int)[0] == self@[i as int]);
                }
                return Some(&self.entries[i].1);
            }
            i += 1;
        }
        proof {
            lemma_lookup_at(self@, key@, i as int);
        }
        None
    }

    /// Whether the variable `key` is there.
    pub fn contains_key(&self, key: &str) -> (r: bool)
        ensures
            r == (lookup(self@, key@) is Some),
    {
        self.get(key).is_some()
    }

    /// Set the variable `key` to `value`.
    pub fn insert(&mut self, key: String, value: String)
        ensures
            final(self)@ == put(old(self)@, key@, value@),
    {
        proof {
            use_type_invariant(&*self);
        }
        let mut entries: Vec<(String, String)> = Vec::new();
        std::mem::swap(&mut entries, &mut self.entries);
        let ghost p = pair_texts(entries@);
        let ghost k = key@;
        let ghost v = value@;
        let mut i: usize = 0;
        while i < entries.len() && !same(entries[i].0.as_str(), key.as_str()) && !text_precedes(
            key.as_str(),
            entries[i].0.as_str(),
        )
            invariant
                i <= entries.len(),
                p == pair_texts(entries@),
                k == key@,
                forall|j: int| 0 <= j < i ==> (#[trigger] p[j]).0 != k && !text_before(k, p[j].0),
            decreases entries.len() - i,
        {
            assert(p[i as int].0 == entries@[i as int].0@);
            i += 1;
        }
        proof {
            lemma_put_at(p, k, v, i as int);
            lemma_put_ordered(p, k, v);
            if i < p.len() {
                assert(p.skip(i as int)[0] == p[i as int]);
                assert(p[i as int].0 == entries@[i as int].0@);
                assert(p.skip(i as int).skip(1) =~= p.skip(i + 1));
            }
        }
        if i < entries.len() && same(entries[i].0.as_str(), key.as_str()) {
            let _ = entries.remove(i);
            entries.insert(i, (key, value));
            assert(pair_texts(entries@) =~= p.take(i as int) + (seq![(k, v)] + p.skip(i + 1)));
        } else {
            entries.insert(i, (key, value));
            assert(pair_texts(entries@) =~= p.take(i as int) + (seq![(k, v)] + p.skip(i as int)));
            assert(i == p.len() ==> seq![(k, v)] + p.skip(i as int) =~= seq![(k, v)]);
        }
        assert(pair_texts(entries@) =~= put(p, k, v));
        self.entries = entries;
    }

    /// Forget the variable `key`.
    pub fn remove(&mut self, key: &str)
        ensures
            final(self)@ == without(old(self)@, key@),
    {
        proof {
            use_type_invariant(&*self);
        }
        let mut entries: Vec<(String, String)> = Vec::new();
        std::mem::swap(&mut entries, &mut self.entries);
        let ghost p = pair_texts(entries@);
        let mut kept: Vec<(String, String)> = Vec::new();
        let mut i: usize = 0;
        proof {
            reveal(Seq::filter);
            assert(pair_texts(kept@) =~= without(p.take(0), key@));
        }
        while i < entries.len()
            invariant
                i <= entries.len(),
                p == pair_texts(entries@),
                pair_texts(kept@) == without(p.take(i as int), key@),
            decreases entries.len() - i,
        {
            proof {
                reveal(Seq::filter);
                assert(p.take(i + 1).drop_last() =~= p.take(i as int));
                assert(p.take(i + 1).last() == p[i as int]);
            }
            let ghost before = kept@;
            if !same(entries[i].0.as_str(), key) {
                kept.push((entries[i].0.clone(), entries[i].1.clone()));
                assert(pair_texts(kept@) =~= pair_texts(before).push(p[i as int]));
            }
            i += 1;
        }
        proof {
            assert(p.take(i as int) =~= p);
            lemma_without_ordered(p, key@);
        }
        self.entries = kept;
    }

    /// Every variable with its value, in order of name.
    pub fn to_vec(&self) -> (r: Vec<(String, String)>)
        ensures
            pair_texts(r@) == self@,
            ordered(pair_texts(r@)),
    {
        proof {
            use_type_invariant(self);
        }
        let mut out: Vec<(String, String)> = Vec::new();
        let mut i: usize = 0;
        while i < self.entries.len()
            invariant
                i <= self.entries.len(),
                pair_texts(out@) =~= self@.take(i as int),
            decreases self.entries.len() - i,
        {
            let ghost before = out@;
            out.push((self.entries[i].0.clone(), self.entries[i].1.clone()));
            assert(pair_texts(out@) =~= pair_texts(before).push(self@[i as int]));
            i += 1;
        }
        assert(self@.take(i as int) =~= self@);
        out
    }
}

impl Clone for EnvMap {
    fn clone(&self) -> (r: Self)
        ensures
            r@ == self@,
    {
        proof {
            use_type_invariant(self);
        }
        let entries = self.to_vec();
        EnvMap { entries }
    }
}

impl Default for EnvMap {
    fn default() -> (r: Self)
        ensures
            r@ == Seq::<Pair>::empty(),
    {
        EnvMap::new()
    }
}

} // verus!
