//! Byte strings that come from outside: records between NUL bytes, and bytes as
//! text.

use vstd::prelude::*;
use vstd::string::*;
use vstd::utf8::*;
use crate::text::{lemma_texts_push, texts};

verus! {

/// What `String::from_utf8_lossy` makes of bytes that are not UTF-8, and of
/// those that are.
pub uninterp spec fn lossy_text(bytes: Seq<u8>) -> Seq<char>;

/// `String::from_utf8_lossy` gives the text that the bytes encode where they are
/// UTF-8, and otherwise some text that depends on the bytes alone.
#[verifier::external_body]
pub(crate) fn lossy(bytes: &[u8]) -> (r: String)
    ensures
        r@ == lossy_text(bytes@),
        valid_utf8(bytes@) ==> r@ == decode_utf8(bytes@),
{
    String::from_utf8_lossy(bytes).into_owned()
}

/// `std::str::from_utf8` gives the text that the bytes encode if and only if they
/// are UTF-8.
#[verifier::external_body]
pub(crate) fn utf8_text(bytes: &[u8]) -> (r: Option<String>)
    ensures
        match r {
            Some(s) => valid_utf8(bytes@) && s@ == decode_utf8(bytes@),
            None => !valid_utf8(bytes@),
        },
{
    std::str::from_utf8(bytes).ok().map(|s| s.to_owned())
}

/// The pieces of a byte string between the NUL bytes.
pub open spec fn nul_split(s: Seq<u8>) -> Seq<Seq<u8>>
    decreases s.len(),
{
    if s.len() == 0 {
        seq![Seq::<u8>::empty()]
    } else {
        let before = nul_split(s.drop_last());
        if s.last() == 0 {
            before.push(Seq::<u8>::empty())
        } else {
            before.drop_last().push(before.last().push(s.last()))
        }
    }
}

/// The pieces between the NUL bytes that hold anything.
pub open spec fn records(s: Seq<u8>) -> Seq<Seq<u8>> {
    nul_split(s).filter(|p: Seq<u8>| p.len() > 0)
}

/// The contents of a list of byte strings.
pub open spec fn byte_lists(v: Seq<Vec<u8>>) -> Seq<Seq<u8>> {
    Seq::new(v.len(), |i: int| v[i]@)
}

proof fn lemma_kept_push(done: Seq<Seq<u8>>, p: Seq<u8>)
    ensures
        done.push(p).filter(|p: Seq<u8>| p.len() > 0) == if p.len() > 0 {
            done.filter(|p: Seq<u8>| p.len() > 0).push(p)
        } else {
            done.filter(|p: Seq<u8>| p.len() > 0)
        },
{
    reveal(Seq::filter);
    assert(done.push(p).drop_last() =~= done);
}

/// The pieces between the NUL bytes that hold anything.
pub fn records_of(s: &[u8]) -> (r: Vec<Vec<u8>>)
    ensures
        byte_lists(r@) == records(s@),
{
    let mut out: Vec<Vec<u8>> = Vec::new();
    let mut cur: Vec<u8> = Vec::new();
    let ghost mut done: Seq<Seq<u8>> = Seq::empty();
    let mut i: usize = 0;
    proof {
        reveal(Seq::filter);
        assert(s@.take(0) =~= Seq::empty());
        assert(done.push(cur@) =~= nul_split(s@.take(0)));
        assert(byte_lists(out@) =~= done.filter(|p: Seq<u8>| p.len() > 0));
    }
    while i < s.len()
        invariant
            i <= s.len(),
            nul_split(s@.take(i as int)) == done.push(cur@),
            byte_lists(out@) == done.filter(|p: Seq<u8>| p.len() > 0),
        decreases s.len() - i,
    {
        proof {
            assert(s@.take(i + 1).drop_last() =~= s@.take(i as int));
            assert(s@.take(i + 1).last() == s@[i as int]);
            assert(done.push(cur@).drop_last() =~= done);
        }
        let b: u8 = s[i];
        if b == 0 {
            proof {
                lemma_kept_push(done, cur@);
                done = done.push(cur@);
            }
            let ghost before = out@;
            if cur.len() > 0 {
                out.push(cur);
                assert(byte_lists(out@) =~= byte_lists(before).push(out@.last()@));
            }
            cur = Vec::new();
            assert(cur@ =~= Seq::<u8>::empty());
        } else {
            cur.push(b);
        }
        i += 1;
    }
    assert(s@.take(i as int) =~= s@);
    proof {
        lemma_kept_push(done, cur@);
    }
    let ghost before = out@;
    if cur.len() > 0 {
        out.push(cur);
        assert(byte_lists(out@) =~= byte_lists(before).push(out@.last()@));
    }
    out
}

/// The texts of some byte strings.
pub open spec fn lossy_texts(v: Seq<Seq<u8>>) -> Seq<Seq<char>> {
    Seq::new(v.len(), |i: int| lossy_text(v[i]))
}

/// The records of a byte string as texts.
pub fn split_nul(s: &[u8]) -> (r: Vec<String>)
    ensures
        texts(r@) == lossy_texts(records(s@)),
{
    broadcast use lemma_texts_push;

    let pieces = records_of(s);
    let ghost all = records(s@);
    let mut out: Vec<String> = Vec::new();
    let mut i: usize = 0;
    while i < pieces.len()
        invariant
            i <= pieces.len(),
            byte_lists(pieces@) == all,
            texts(out@) =~= lossy_texts(all).take(i as int),
        decreases pieces.len() - i,
    {
        assert(all[i as int] == pieces@[i as int]@);
        out.push(lossy(pieces[i].as_slice()));
        assert(lossy_texts(all).take(i as int).push(lossy_text(all[i as int])) =~= lossy_texts(
            all,
        ).take(i + 1));
        i += 1;
    }
    assert(lossy_texts(all).take(i as int) =~= lossy_texts(all));
    out
}

proof fn lemma_cut_at_nul(done: Seq<u8>, last: Seq<u8>)
    requires
        !last.contains(0),
    ensures
        nul_split(done.push(0) + last) == nul_split(done).push(last),
    decreases last.len(),
{
    let s = done.push(0) + last;
    if last.len() == 0 {
        assert(s =~= done.push(0));
        assert(done.push(0).drop_last() =~= done);
        assert(last =~= Seq::empty());
    } else {
        let front = last.drop_last();
        assert(!front.contains(0)) by {
            if front.contains(0) {
                let i = choose|i: int| 0 <= i < front.len() && front[i] == 0;
                assert(last[i] == 0);
            }
        }
        lemma_cut_at_nul(done, front);
        assert(s.drop_last() =~= done.push(0) + front);
        assert(s.last() == last.last());
        assert(last[last.len() - 1] != 0) by {
            assert(last.contains(last[last.len() - 1]));
        }
        assert(front.push(last.last()) =~= last);
        assert(nul_split(s) =~= nul_split(done).push(last));
    }
}

proof fn lemma_no_nul(s: Seq<u8>)
    requires
        !s.contains(0),
    ensures
        nul_split(s) == seq![s],
    decreases s.len(),
{
    if s.len() > 0 {
        let front = s.drop_last();
        assert(!front.contains(0)) by {
            if front.contains(0) {
                let i = choose|i: int| 0 <= i < front.len() && front[i] == 0;
                assert(s[i] == 0);
            }
        }
        lemma_no_nul(front);
        assert(s.contains(s[s.len() - 1]));
        assert(front.push(s.last()) =~= s);
        assert(nul_split(s) =~= seq![s]);
    } else {
        assert(s =~= Seq::empty());
    }
}

/// Records are cut at every NUL: what stands behind the last one is a record
/// unless it is empty, and those before it are as they were.
pub proof fn law_records_are_cut_at_every_nul(done: Seq<u8>, last: Seq<u8>)
    requires
        !last.contains(0),
    ensures
        last.len() > 0 ==> records(done.push(0) + last) == records(done).push(last),
        last.len() > 0 ==> records(last) == seq![last],
        records(done.push(0)) == records(done),
        records(Seq::empty()) == Seq::<Seq<u8>>::empty(),
{
    lemma_cut_at_nul(done, last);
    lemma_kept_push(nul_split(done), last);
    let none = Seq::<u8>::empty();
    lemma_cut_at_nul(done, none);
    assert(done.push(0) + none =~= done.push(0));
    lemma_kept_push(nul_split(done), none);
    lemma_no_nul(last);
    lemma_no_nul(none);
    let nothing = Seq::<Seq<u8>>::empty();
    reveal(Seq::filter);
    assert(nothing.filter(|p: Seq<u8>| p.len() > 0) =~= nothing);
    lemma_kept_push(nothing, last);
    lemma_kept_push(nothing, none);
    assert(nothing.push(last) =~= seq![last]);
    assert(nothing.push(none) =~= seq![none]);
}

} // verus!
