//! The dictionary order of texts and of byte strings.

use vstd::prelude::*;
use crate::text::chars_of;

verus! {

/// Whether `a` stands before `b` in dictionary order.
pub open spec fn precedes(a: Seq<int>, b: Seq<int>) -> bool
    decreases a.len(),
{
    if b.len() == 0 {
        false
    } else if a.len() == 0 {
        true
    } else {
        a[0] < b[0] || (a[0] == b[0] && precedes(a.skip(1), b.skip(1)))
    }
}

/// The code points of a text.
pub open spec fn codes(s: Seq<char>) -> Seq<int> {
    Seq::new(s.len(), |i: int| s[i] as int)
}

/// The numbers in a byte string.
pub open spec fn octets(s: Seq<u8>) -> Seq<int> {
    Seq::new(s.len(), |i: int| s[i] as int)
}

/// Whether one text stands before another, code point by code point, which is
/// also the order of their UTF-8 bytes.
pub open spec fn text_before(a: Seq<char>, b: Seq<char>) -> bool {
    precedes(codes(a), codes(b))
}

/// Whether one byte string stands before another.
pub open spec fn bytes_before(a: Seq<u8>, b: Seq<u8>) -> bool {
    precedes(octets(a), octets(b))
}

/// Nothing stands before itself.
pub proof fn lemma_irreflexive(a: Seq<int>)
    ensures
        !precedes(a, a),
    decreases a.len(),
{
    if a.len() > 0 {
        lemma_irreflexive(a.skip(1));
    }
}

/// The order is transitive.
pub proof fn lemma_transitive(a: Seq<int>, b: Seq<int>, c: Seq<int>)
    requires
        precedes(a, b),
        precedes(b, c),
    ensures
        precedes(a, c),
    decreases a.len(),
{
    if a.len() > 0 && a[0] == b[0] && b[0] == c[0] {
        lemma_transitive(a.skip(1), b.skip(1), c.skip(1));
    }
}

/// Of two different strings one stands before the other.
pub proof fn lemma_total(a: Seq<int>, b: Seq<int>)
    ensures
        a == b || precedes(a, b) || precedes(b, a),
    decreases a.len(),
{
    if a.len() > 0 && b.len() > 0 && a[0] == b[0] {
        lemma_total(a.skip(1), b.skip(1));
        if a.skip(1) == b.skip(1) {
            assert(a =~= seq![a[0]] + a.skip(1));
            assert(b =~= seq![b[0]] + b.skip(1));
        }
    } else if a.len() == 0 && b.len() == 0 {
        assert(a =~= b);
    }
}

/// Texts with the same code points are the same.
pub proof fn lemma_codes_injective(a: Seq<char>, b: Seq<char>)
    requires
        codes(a) == codes(b),
    ensures
        a == b,
{
    assert(a.len() == codes(a).len() && b.len() == codes(b).len());
    assert forall|i: int| 0 <= i < a.len() implies a[i] == b[i] by {
        assert(codes(a)[i] == a[i] as int);
        assert(codes(b)[i] == b[i] as int);
    }
    assert(a =~= b);
}

/// Whether text `a` stands before text `b`.
pub fn text_precedes(a: &str, b: &str) -> (r: bool)
    ensures
        r == text_before(a@, b@),
{
    let x = chars_of(a);
    let y = chars_of(b);
    let ghost p = codes(a@);
    let ghost q = codes(b@);
    assert(p.skip(0) =~= p && q.skip(0) =~= q);
    let mut i: usize = 0;
    while i < x.len() && i < y.len()
        invariant
            i <= x.len(),
            i <= y.len(),
            x@ == a@,
            y@ == b@,
            p == codes(a@),
            q == codes(b@),
            precedes(p, q) == precedes(p.skip(i as int), q.skip(i as int)),
        decreases x.len() - i,
    {
        assert(p.skip(i as int)[0] == x@[i as int] as int);
        assert(q.skip(i as int)[0] == y@[i as int] as int);
        assert(p.skip(i as int).skip(1) =~= p.skip(i + 1));
        assert(q.skip(i as int).skip(1) =~= q.skip(i + 1));
        if x[i] != y[i] {
            return x[i] < y[i];
        }
        i += 1;
    }
    assert(p.skip(i as int).len() == x@.len() - i);
    assert(q.skip(i as int).len() == y@.len() - i);
    x.len() == i && i < y.len()
}

/// Whether byte string `a` stands before byte string `b`.
pub fn bytes_precede(a: &Vec<u8>, b: &Vec<u8>) -> (r: bool)
    ensures
        r == bytes_before(a@, b@),
{
    let ghost p = octets(a@);
    let ghost q = octets(b@);
    assert(p.skip(0) =~= p && q.skip(0) =~= q);
    let mut i: usize = 0;
    while i < a.len() && i < b.len()
        invariant
            i <= a.len(),
            i <= b.len(),
            p == octets(a@),
            q == octets(b@),
            precedes(p, q) == precedes(p.skip(i as int), q.skip(i as int)),
        decreases a.len() - i,
    {
        assert(p.skip(i as int)[0] == a@[i as int] as int);
        assert(q.skip(i as int)[0] == b@[i as int] as int);
        assert(p.skip(i as int).skip(1) =~= p.skip(i + 1));
        assert(q.skip(i as int).skip(1) =~= q.skip(i + 1));
        if a[i] != b[i] {
            return a[i] < b[i];
        }
        i += 1;
    }
    assert(p.skip(i as int).len() == a@.len() - i);
    assert(q.skip(i as int).len() == b@.len() - i);
    a.len() == i && i < b.len()
}

/// A text goes before another if it starts it, or where they first differ its
/// character is the smaller one.
pub proof fn law_first_difference_decides(same: Seq<int>, a: Seq<int>, b: Seq<int>)
    ensures
        b.len() > 0 ==> precedes(same, same + b),
        a.len() > 0 && b.len() > 0 && a[0] < b[0] ==> precedes(same + a, same + b),
    decreases same.len(),
{
    if same.len() == 0 {
        assert(same + a =~= a);
        assert(same + b =~= b);
        assert(same =~= Seq::empty());
    } else {
        law_first_difference_decides(same.skip(1), a, b);
        assert((same + a).skip(1) =~= same.skip(1) + a);
        assert((same + b).skip(1) =~= same.skip(1) + b);
    }
}

} // verus!
