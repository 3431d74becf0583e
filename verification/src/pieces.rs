//! Cutting text into pieces and putting pieces together.

use vstd::prelude::*;
use vstd::string::*;
use crate::text::{chars_of, chars_start, lemma_texts_push, starts, string_of, texts};

verus! {

/// The pieces of `s` between the characters `c`; always at least one.
pub open spec fn split(s: Seq<char>, c: char) -> Seq<Seq<char>>
    decreases s.len(),
{
    if s.len() == 0 {
        seq![Seq::<char>::empty()]
    } else {
        let before = split(s.drop_last(), c);
        if s.last() == c {
            before.push(Seq::<char>::empty())
        } else {
            before.drop_last().push(before.last().push(s.last()))
        }
    }
}

/// The pieces put together with `sep` between them.
pub open spec fn join(pieces: Seq<Seq<char>>, sep: Seq<char>) -> Seq<char>
    decreases pieces.len(),
{
    if pieces.len() == 0 {
        Seq::empty()
    } else if pieces.len() == 1 {
        pieces[0]
    } else {
        join(pieces.drop_last(), sep) + sep + pieces.last()
    }
}

/// Whether a piece holds anything.
pub open spec fn nonempty() -> spec_fn(Seq<char>) -> bool {
    |p: Seq<char>| p.len() > 0
}

/// The pieces of `s` between the characters `c` that hold anything.
pub open spec fn fields(s: Seq<char>, c: char) -> Seq<Seq<char>> {
    split(s, c).filter(nonempty())
}

/// What a filter leaves is what was there and meets its condition.
pub proof fn lemma_filtered<A>(s: Seq<A>, f: spec_fn(A) -> bool, x: A)
    ensures
        s.filter(f).contains(x) <==> s.contains(x) && f(x),
    decreases s.len(),
{
    reveal(Seq::filter);
    if s.len() > 0 {
        let front = s.drop_last();
        let last = s.last();
        lemma_filtered(front, f, x);
        let a = front.filter(f);
        let r = s.filter(f);
        assert(s[s.len() - 1] == last);
        if front.contains(x) {
            let i = choose|i: int| 0 <= i < front.len() && front[i] == x;
            assert(s[i] == x);
        }
        if s.contains(x) && x != last {
            let i = choose|i: int| 0 <= i < s.len() && s[i] == x;
            assert(front[i] == x);
        }
        if f(last) {
            assert(r == a.push(last));
            assert(r[r.len() - 1] == last);
            if a.contains(x) {
                let i = choose|i: int| 0 <= i < a.len() && a[i] == x;
                assert(r[i] == x);
            }
            if r.contains(x) && x != last {
                let i = choose|i: int| 0 <= i < r.len() && r[i] == x;
                assert(a[i] == x);
            }
        }
    }
}

pub proof fn lemma_split_len(s: Seq<char>, c: char)
    ensures
        split(s, c).len() >= 1,
        split(s, c).len() <= s.len() + 1,
    decreases s.len(),
{
    if s.len() > 0 {
        lemma_split_len(s.drop_last(), c);
    }
}

/// No piece holds the character that the text was cut at.
pub proof fn lemma_split_pieces(s: Seq<char>, c: char)
    ensures
        split(s, c).len() >= 1,
        forall|i: int| 0 <= i < split(s, c).len() ==> !(#[trigger] split(s, c)[i]).contains(c),
    decreases s.len(),
{
    if s.len() > 0 {
        let before = split(s.drop_last(), c);
        lemma_split_pieces(s.drop_last(), c);
        if s.last() != c {
            assert(!before[before.len() - 1].contains(c));
            let last = before.last().push(s.last());
            assert forall|k: int| 0 <= k < last.len() implies last[k] != c by {
                if k < before.last().len() {
                    assert(before.last()[k] == last[k]);
                    assert(before.last().contains(before.last()[k]));
                }
            }
        }
    }
}

/// A piece that stands behind one more `c` is one more piece.
pub proof fn lemma_split_append(base: Seq<char>, part: Seq<char>, c: char)
    requires
        !part.contains(c),
    ensures
        split(base.push(c) + part, c) == split(base, c).push(part),
    decreases part.len(),
{
    let s = base.push(c) + part;
    if part.len() == 0 {
        assert(s =~= base.push(c));
        assert(s.drop_last() =~= base);
        assert(part =~= Seq::empty());
        assert(split(s, c) =~= split(base, c).push(part));
    } else {
        let shorter = part.drop_last();
        assert(forall|k: int| 0 <= k < shorter.len() ==> shorter[k] == part[k]);
        assert(!shorter.contains(c));
        lemma_split_append(base, shorter, c);
        assert(s.drop_last() =~= base.push(c) + shorter);
        assert(s.last() == part.last());
        assert(part.contains(part.last()));
        assert(split(base, c).push(shorter).drop_last() =~= split(base, c));
        assert(shorter.push(part.last()) =~= part);
    }
}

/// Cutting a text and putting its pieces together gives the text back.
pub proof fn law_join_undoes_split(s: Seq<char>, c: char)
    ensures
        join(split(s, c), seq![c]) == s,
    decreases s.len(),
{
    if s.len() > 0 {
        let t = s.drop_last();
        let before = split(t, c);
        lemma_split_len(t, c);
        law_join_undoes_split(t, c);
        if s.last() == c {
            assert(before.push(Seq::empty()).drop_last() =~= before);
            assert(join(split(s, c), seq![c]) =~= t + seq![c] + Seq::<char>::empty());
            assert(s =~= t.push(c));
        } else {
            let now = split(s, c);
            assert(now.drop_last() =~= before.drop_last());
            assert(s =~= t.push(s.last()));
            if before.len() == 1 {
                assert(join(now, seq![c]) =~= t.push(s.last()));
            } else {
                assert(join(now, seq![c]) =~= (join(before.drop_last(), seq![c]) + seq![c]
                    + before.last()).push(s.last()));
            }
        }
    }
}

/// Putting pieces together and cutting what comes out gives the pieces back, where
/// none of them holds the character that they are put together with.
pub proof fn law_split_undoes_join(pieces: Seq<Seq<char>>, c: char)
    requires
        pieces.len() > 0,
        forall|i: int| 0 <= i < pieces.len() ==> !(#[trigger] pieces[i]).contains(c),
    ensures
        split(join(pieces, seq![c]), c) == pieces,
    decreases pieces.len(),
{
    if pieces.len() == 1 {
        lemma_split_whole(pieces[0], c);
        assert(pieces =~= seq![pieces[0]]);
    } else {
        let front = pieces.drop_last();
        assert forall|i: int| 0 <= i < front.len() implies !(#[trigger] front[i]).contains(c) by {
            assert(front[i] == pieces[i]);
        }
        law_split_undoes_join(front, c);
        assert(!pieces[pieces.len() - 1].contains(c));
        lemma_split_append(join(front, seq![c]), pieces.last(), c);
        assert(join(pieces, seq![c]) =~= join(front, seq![c]).push(c) + pieces.last());
        assert(front.push(pieces.last()) =~= pieces);
    }
}

/// A text without the character is one piece.
pub proof fn lemma_split_whole(s: Seq<char>, c: char)
    requires
        !s.contains(c),
    ensures
        split(s, c) == seq![s],
    decreases s.len(),
{
    if s.len() > 0 {
        let front = s.drop_last();
        assert forall|i: int| 0 <= i < front.len() implies front[i] != c by {
            assert(s.contains(s[i]));
        }
        lemma_split_whole(front, c);
        assert(s.contains(s.last()));
        assert(front.push(s.last()) =~= s);
        assert(split(s, c) =~= seq![s]);
    } else {
        assert(s =~= Seq::empty());
    }
}

/// A text that is cut once is what stood before the character, the character and
/// what stood behind it.
pub proof fn law_cut_once(before: Seq<char>, c: char, after: Seq<char>)
    requires
        !before.contains(c),
    ensures
        split_once(before + seq![c] + after, c) == Some((before, after)),
{
    let s = before + seq![c] + after;
    lemma_position(s, c);
    assert(s[before.len() as int] == c);
    assert(s.contains(c));
    let i = position(s, c)->0;
    if i < before.len() {
        assert(before[i] == s[i]);
        assert(before.contains(c));
    }
    assert(i == before.len());
    assert(s.take(i) =~= before);
    assert(s.skip(i + 1) =~= after);
}

/// A text without the character cannot be cut at it; any other is cut so that the
/// two parts and the character give it back.
pub proof fn law_cut_gives_all(s: Seq<char>, c: char)
    ensures
        split_once(s, c) is None <==> !s.contains(c),
        split_once(s, c) matches Some(p) ==> s == p.0 + seq![c] + p.1 && !p.0.contains(c),
{
    lemma_position(s, c);
    if let Some(i) = position(s, c) {
        assert(s.contains(s[i]));
        assert(s.take(i) + seq![c] + s.skip(i + 1) =~= s);
        assert forall|k: int| 0 <= k < i implies s.take(i)[k] != c by {
        }
    }
}

proof fn lemma_found(s: Seq<char>, p: Seq<char>, at: nat, i: nat)
    requires
        at <= i,
        i + p.len() <= s.len(),
        s.subrange(i as int, (i + p.len()) as int) == p,
        forall|k: int|
            at <= k < i ==> #[trigger] s.skip(k).len() < p.len() || s.skip(k).take(p.len() as int)
                != p,
    ensures
        find_from(s, p, at) == Some(i),
    decreases i - at,
{
    if at == i {
        assert(s.skip(i as int).take(p.len() as int) =~= p);
    } else {
        assert(s.skip(at as int).len() < p.len() || s.skip(at as int).take(p.len() as int) != p);
        lemma_found(s, p, at + 1, i);
    }
}

/// Whether `p` stands in `s` at `i`.
pub open spec fn stands_at(s: Seq<char>, p: Seq<char>, i: int) -> bool {
    0 <= i && i + p.len() <= s.len() && s.subrange(i, i + p.len()) == p
}

/// What is searched is found where it first stands.
pub proof fn law_found_where_it_stands(s: Seq<char>, p: Seq<char>, i: nat)
    requires
        stands_at(s, p, i as int),
        forall|k: int| 0 <= k < i ==> !#[trigger] stands_at(s, p, k),
    ensures
        find(s, p) == Some(i),
{
    assert forall|k: int| 0 <= k < i implies #[trigger] s.skip(k).len() < p.len() || s.skip(k).take(
        p.len() as int,
    ) != p by {
        assert(!stands_at(s, p, k));
        if s.skip(k).len() >= p.len() {
            assert(s.skip(k).take(p.len() as int) =~= s.subrange(k, k + p.len()));
        }
    }
    lemma_found(s, p, 0, i);
}

/// The pieces of `s` between the characters `c`.
pub fn split_at_char(s: &str, c: char) -> (r: Vec<String>)
    ensures
        texts(r@) == split(s@, c),
{
    broadcast use lemma_texts_push;

    let chars = chars_of(s);
    let mut out: Vec<String> = Vec::new();
    let mut cur = String::new();
    let mut i: usize = 0;
    assert(texts(out@).push(cur@) =~= seq![Seq::<char>::empty()]);
    assert(s@.take(0).len() == 0);
    while i < chars.len()
        invariant
            chars@ == s@,
            i <= chars.len(),
            texts(out@).push(cur@) == split(s@.take(i as int), c),
        decreases chars.len() - i,
    {
        let ghost before = split(s@.take(i as int), c);
        assert(s@.take(i + 1).drop_last() =~= s@.take(i as int));
        assert(s@.take(i + 1).last() == chars@[i as int]);
        assert(before.drop_last() =~= texts(out@));
        if chars[i] == c {
            out.push(cur);
            cur = String::new();
            assert(texts(out@).push(cur@) =~= before.push(Seq::<char>::empty()));
        } else {
            cur.push(chars[i]);
        }
        i += 1;
    }
    assert(s@.take(i as int) =~= s@);
    out.push(cur);
    out
}

proof fn lemma_filter_push(s: Seq<Seq<char>>, x: Seq<char>)
    ensures
        s.push(x).filter(nonempty()) == if x.len() > 0 {
            s.filter(nonempty()).push(x)
        } else {
            s.filter(nonempty())
        },
{
    reveal(Seq::filter);
    assert(s.push(x).drop_last() =~= s);
}

/// The pieces of `s` between the characters `c` that hold anything.
pub fn fields_at_char(s: &str, c: char) -> (r: Vec<String>)
    ensures
        texts(r@) == fields(s@, c),
{
    broadcast use lemma_texts_push;

    let all = split_at_char(s, c);
    let mut out: Vec<String> = Vec::new();
    let mut i: usize = 0;
    proof {
        reveal(Seq::filter);
        assert(texts(out@) =~= texts(all@).take(0).filter(nonempty()));
    }
    while i < all.len()
        invariant
            i <= all.len(),
            texts(out@) == texts(all@).take(i as int).filter(nonempty()),
        decreases all.len() - i,
    {
        proof {
            lemma_filter_push(texts(all@).take(i as int), all@[i as int]@);
            assert(texts(all@).take(i as int).push(all@[i as int]@) =~= texts(all@).take(i + 1));
        }
        if !all[i].as_str().is_empty() {
            out.push(all[i].clone());
        }
        i += 1;
    }
    assert(texts(all@).take(i as int) =~= texts(all@));
    out
}

/// The strings put together with `sep` between them.
pub fn join_with(pieces: &Vec<String>, sep: &str) -> (r: String)
    ensures
        r@ == join(texts(pieces@), sep@),
{
    let mut out = String::new();
    let mut i: usize = 0;
    while i < pieces.len()
        invariant
            i <= pieces.len(),
            out@ == join(texts(pieces@).take(i as int), sep@),
        decreases pieces.len() - i,
    {
        let ghost now = texts(pieces@).take(i + 1);
        assert(now.drop_last() =~= texts(pieces@).take(i as int));
        if i > 0 {
            out.append(sep);
        }
        out.append(pieces[i].as_str());
        proof {
            if i == 0 {
                assert(out@ =~= now[0]);
            }
        }
        i += 1;
    }
    assert(texts(pieces@).take(i as int) =~= texts(pieces@));
    out
}

// --- finding -----------------------------------------------------------------

/// Where `p` first occurs in `s` at or after `at`.
pub open spec fn find_from(s: Seq<char>, p: Seq<char>, at: nat) -> Option<nat>
    decreases s.len() + 1 - at,
{
    if at > s.len() {
        None
    } else if starts(s.skip(at as int), p) {
        Some(at)
    } else {
        find_from(s, p, at + 1)
    }
}

/// Where `p` first occurs in `s`.
pub open spec fn find(s: Seq<char>, p: Seq<char>) -> Option<nat> {
    find_from(s, p, 0)
}

proof fn lemma_find_from(s: Seq<char>, p: Seq<char>, at: nat)
    ensures
        find_from(s, p, at) matches Some(i) ==> at <= i && i + p.len() <= s.len() && starts(
            s.skip(i as int),
            p,
        ),
    decreases s.len() + 1 - at,
{
    if at <= s.len() && !starts(s.skip(at as int), p) {
        lemma_find_from(s, p, at + 1);
    }
}

/// Where `p` first occurs in `chars[from..]`, as an index into `chars`.
pub fn find_chars(chars: &Vec<char>, p: &Vec<char>, from: usize) -> (r: Option<usize>)
    requires
        from <= chars@.len(),
    ensures
        r is Some == find(chars@.skip(from as int), p@) is Some,
        r matches Some(i) ==> from <= i && i + p@.len() <= chars@.len() && i - from == find(
            chars@.skip(from as int),
            p@,
        )->0,
{
    let ghost rest = chars@.skip(from as int);
    let mut i: usize = from;
    proof {
        lemma_find_from(rest, p@, 0);
    }
    loop
        invariant
            from <= i <= chars.len(),
            rest == chars@.skip(from as int),
            find(rest, p@) == find_from(rest, p@, (i - from) as nat),
            find(rest, p@) matches Some(j) ==> j + p@.len() <= rest.len(),
        decreases chars.len() - i,
    {
        assert(chars@.skip(i as int) =~= rest.skip(i - from));
        if chars_start(chars, i, p) {
            return Some(i);
        }
        if i == chars.len() {
            assert(find_from(rest, p@, (i + 1 - from) as nat) is None);
            return None;
        }
        i += 1;
    }
}

/// Where the character `c` first stands in `s`.
pub open spec fn position(s: Seq<char>, c: char) -> Option<int>
    decreases s.len(),
{
    if s.len() == 0 {
        None
    } else if s[0] == c {
        Some(0)
    } else {
        match position(s.skip(1), c) {
            Some(i) => Some(i + 1),
            None => None,
        }
    }
}

/// `position` is the least index that holds the character.
proof fn lemma_position(s: Seq<char>, c: char)
    ensures
        position(s, c) matches Some(i) ==> 0 <= i < s.len() && s[i] == c && forall|k: int|
            0 <= k < i ==> s[k] != c,
        position(s, c) is None ==> !s.contains(c),
    decreases s.len(),
{
    if s.len() > 0 && s[0] != c {
        let t = s.skip(1);
        lemma_position(t, c);
        if let Some(i) = position(t, c) {
            assert forall|k: int| 0 <= k < i + 1 implies s[k] != c by {
                if k > 0 {
                    assert(t[k - 1] == s[k]);
                }
            }
        } else {
            assert forall|k: int| 0 <= k < s.len() implies s[k] != c by {
                if k > 0 {
                    assert(t[k - 1] == s[k]);
                    assert(t.contains(t[k - 1]));
                }
            }
        }
    }
}

/// `s` cut once, at its first `c`.
pub open spec fn split_once(s: Seq<char>, c: char) -> Option<(Seq<char>, Seq<char>)> {
    match position(s, c) {
        Some(i) => Some((s.take(i), s.skip(i + 1))),
        None => None,
    }
}

/// `s` cut once, at its first `c`.
pub fn split_once_at(s: &str, c: char) -> (r: Option<(String, String)>)
    ensures
        r is Some == split_once(s@, c) is Some,
        r matches Some(p) ==> (p.0@, p.1@) == split_once(s@, c)->0,
{
    let chars = chars_of(s);
    proof {
        lemma_position(s@, c);
    }
    let mut i: usize = 0;
    while i < chars.len()
        invariant
            i <= chars.len(),
            chars@ == s@,
            forall|k: int| 0 <= k < i ==> chars@[k] != c,
            position(s@, c) matches Some(j) ==> i <= j < s@.len() && s@[j] == c && forall|k: int|
                0 <= k < j ==> s@[k] != c,
            position(s@, c) is None ==> !s@.contains(c),
        decreases chars.len() - i,
    {
        if chars[i] == c {
            assert(s@.contains(chars@[i as int]));
            assert(position(s@, c) == Some(i as int));
            assert(chars@.subrange(0, i as int) =~= s@.take(i as int));
            assert(chars@.subrange(i + 1, chars@.len() as int) =~= s@.skip(i + 1));
            return Some((string_of(&chars, 0, i), string_of(&chars, i + 1, chars.len())));
        }
        i += 1;
    }
    None
}

// --- replacing ---------------------------------------------------------------

/// `s` with each `c` replaced by `with`.
pub open spec fn replaced(s: Seq<char>, c: char, with: Seq<char>) -> Seq<char>
    decreases s.len(),
{
    if s.len() == 0 {
        Seq::empty()
    } else if s.last() == c {
        replaced(s.drop_last(), c, with) + with
    } else {
        replaced(s.drop_last(), c, with).push(s.last())
    }
}

/// `s` with each `c` replaced by `with`.
pub fn replace_char(s: &str, c: char, with: &str) -> (r: String)
    ensures
        r@ == replaced(s@, c, with@),
{
    let chars = chars_of(s);
    let mut out = String::new();
    let mut i: usize = 0;
    assert(s@.take(0).len() == 0);
    while i < chars.len()
        invariant
            chars@ == s@,
            i <= chars.len(),
            out@ == replaced(s@.take(i as int), c, with@),
        decreases chars.len() - i,
    {
        assert(s@.take(i + 1).drop_last() =~= s@.take(i as int));
        assert(s@.take(i + 1).last() == chars@[i as int]);
        if chars[i] == c {
            out.append(with);
        } else {
            out.push(chars[i]);
        }
        i += 1;
    }
    assert(s@.take(i as int) =~= s@);
    out
}

// --- lines -------------------------------------------------------------------

/// A line without the carriage return that it ends with.
pub open spec fn without_cr(s: Seq<char>) -> Seq<char> {
    if s.len() > 0 && s.last() == '\r' {
        s.drop_last()
    } else {
        s
    }
}

/// The lines of `s`: each ends with `\n` or `\r\n`, and what follows the last
/// of these is a line of its own where it holds anything.
pub open spec fn lines(s: Seq<char>) -> Seq<Seq<char>> {
    let pieces = split(s, '\n');
    let ended = Seq::new((pieces.len() - 1) as nat, |i: int| without_cr(pieces[i]));
    if pieces.last().len() > 0 {
        ended.push(pieces.last())
    } else {
        ended
    }
}

/// The lines of `s`.
pub fn lines_of(s: &str) -> (r: Vec<String>)
    ensures
        texts(r@) == lines(s@),
{
    broadcast use lemma_texts_push;

    let pieces = split_at_char(s, '\n');
    let ghost all = split(s@, '\n');
    proof {
        lemma_split_len(s@, '\n');
    }
    let ghost ended = Seq::new((all.len() - 1) as nat, |i: int| without_cr(all[i]));
    let mut out: Vec<String> = Vec::new();
    let n: usize = pieces.len() - 1;
    let mut i: usize = 0;
    while i < n
        invariant
            i <= n,
            n == pieces.len() - 1,
            texts(pieces@) == all,
            ended == Seq::new((all.len() - 1) as nat, |i: int| without_cr(all[i])),
            texts(out@) == ended.take(i as int),
        decreases n - i,
    {
        let chars = chars_of(pieces[i].as_str());
        assert(all[i as int] == chars@);
        assert(ended.take(i as int).push(without_cr(all[i as int])) =~= ended.take(i + 1));
        if chars.len() > 0 && chars[chars.len() - 1] == '\r' {
            assert(chars@.subrange(0, chars.len() - 1) =~= chars@.drop_last());
            out.push(string_of(&chars, 0, chars.len() - 1));
        } else {
            out.push(pieces[i].clone());
        }
        i += 1;
    }
    assert(ended.take(n as int) =~= ended);
    assert(all.last() == pieces@[n as int]@);
    if !pieces[n].as_str().is_empty() {
        out.push(pieces[n].clone());
    }
    out
}

/// Some lines, each behind the other, are read as those lines, be the last one ended
/// or not; the carriage return of an ended line is no part of it.
pub proof fn law_lines_are_those_that_were_joined(all: Seq<Seq<char>>, last: Seq<char>)
    requires
        forall|i: int|
            0 <= i < all.len() ==> !(#[trigger] all[i]).contains('\n') && (all[i].len() > 0
                ==> all[i].last() != '\r'),
        !last.contains('\n'),
        last.len() > 0,
        last.last() != '\r',
    ensures
        lines(join(all.push(last), seq!['\n'])) == all.push(last),
        lines(join(all.push(last).push(Seq::empty()), seq!['\n'])) == all.push(last),
        lines(join(all.push(last.push('\r')).push(Seq::empty()), seq!['\n'])) == all.push(last),
{
    let none = Seq::<char>::empty();
    let open = all.push(last);
    let ended = open.push(none);
    let with = last.push('\r');
    let returned = all.push(with).push(none);
    assert(!with.contains('\n')) by {
        if with.contains('\n') {
            let i = choose|i: int| 0 <= i < with.len() && with[i] == '\n';
            assert(last[i] == '\n');
        }
    }
    assert forall|i: int| 0 <= i < open.len() implies !(#[trigger] open[i]).contains('\n') by {
        if i < all.len() {
            assert(open[i] == all[i]);
        }
    }
    assert forall|i: int| 0 <= i < ended.len() implies !(#[trigger] ended[i]).contains('\n') by {
        if i < all.len() {
            assert(ended[i] == all[i]);
        }
    }
    assert forall|i: int| 0 <= i < returned.len() implies !(#[trigger] returned[i]).contains(
        '\n',
    ) by {
        if i < all.len() {
            assert(returned[i] == all[i]);
        }
    }
    law_split_undoes_join(open, '\n');
    law_split_undoes_join(ended, '\n');
    law_split_undoes_join(returned, '\n');
    assert(with.drop_last() =~= last);
    assert(lines(join(open, seq!['\n'])) =~= open) by {
        let ended_ones = Seq::new((open.len() - 1) as nat, |i: int| without_cr(open[i]));
        assert(ended_ones =~= all) by {
            assert forall|i: int| 0 <= i < all.len() implies ended_ones[i] == all[i] by {
                assert(open[i] == all[i]);
            }
        }
    }
    assert(lines(join(ended, seq!['\n'])) =~= open) by {
        assert forall|i: int| 0 <= i < open.len() implies without_cr(#[trigger] ended[i])
            == open[i] by {
            if i < all.len() {
                assert(ended[i] == all[i]);
            }
        }
    }
    assert(lines(join(returned, seq!['\n'])) =~= open) by {
        assert forall|i: int| 0 <= i < open.len() implies without_cr(#[trigger] returned[i])
            == open[i] by {
            if i < all.len() {
                assert(returned[i] == all[i]);
            }
        }
    }
}

} // verus!
