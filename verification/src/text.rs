//! Text as sequences of characters: the small vocabulary that the rest of the
//! library states its contracts in, each with a function that computes it.

use vstd::prelude::*;
use vstd::string::*;

verus! {

/// The contents of a list of strings.
pub open spec fn texts(v: Seq<String>) -> Seq<Seq<char>> {
    Seq::new(v.len(), |i: int| v[i]@)
}

/// Appending a string appends its text.
pub broadcast proof fn lemma_texts_push(v: Seq<String>, s: String)
    ensures
        #[trigger] texts(v.push(s)) == texts(v).push(s@),
{
    assert(texts(v.push(s)) =~= texts(v).push(s@));
}

/// `String::push` appends one character.
pub assume_specification[ String::push ](s: &mut String, c: char)
    ensures
        final(s)@ == old(s)@.push(c),
;

/// The characters of `s`, in order.
pub fn chars_of(s: &str) -> (r: Vec<char>)
    ensures
        r@ == s@,
{
    let mut out: Vec<char> = Vec::new();
    for c in it: s.chars()
        invariant
            out@ == s@.take(it.index() as int),
            it.seq() == s@,
    {
        assert(s@.take(it.index() as int).push(c) =~= s@.take(it.index() as int + 1));
        out.push(c);
    }
    assert(s@.take(s@.len() as int) =~= s@);
    out
}

/// The string made of `chars[from..to]`.
pub fn string_of(chars: &Vec<char>, from: usize, to: usize) -> (r: String)
    requires
        from <= to <= chars@.len(),
    ensures
        r@ == chars@.subrange(from as int, to as int),
{
    let mut out = String::new();
    let mut i: usize = from;
    while i < to
        invariant
            from <= i <= to <= chars@.len(),
            out@ == chars@.subrange(from as int, i as int),
        decreases to - i,
    {
        assert(chars@.subrange(from as int, i as int).push(chars@[i as int]) =~= chars@.subrange(
            from as int,
            i + 1,
        ));
        out.push(chars[i]);
        i += 1;
    }
    out
}

/// Whether two texts are the same.
pub fn same(a: &str, b: &str) -> (r: bool)
    ensures
        r == (a@ == b@),
{
    let x = a.to_owned();
    let y = b.to_owned();
    x == y
}

/// Whether a list of strings holds `s`.
pub fn holds(list: &Vec<String>, s: &str) -> (r: bool)
    ensures
        r == texts(list@).contains(s@),
{
    let mut i: usize = 0;
    while i < list.len()
        invariant
            i <= list@.len(),
            forall|j: int| 0 <= j < i ==> texts(list@)[j] != s@,
        decreases list@.len() - i,
    {
        if same(list[i].as_str(), s) {
            assert(texts(list@)[i as int] == s@);
            return true;
        }
        i += 1;
    }
    false
}

/// A copy of a list of strings.
pub fn copy_list(list: &Vec<String>) -> (r: Vec<String>)
    ensures
        texts(r@) == texts(list@),
{
    let mut out: Vec<String> = Vec::new();
    let mut i: usize = 0;
    while i < list.len()
        invariant
            i <= list@.len(),
            texts(out@) == texts(list@).take(i as int),
        decreases list@.len() - i,
    {
        broadcast use lemma_texts_push;

        assert(texts(list@).take(i as int).push(list@[i as int]@) =~= texts(list@).take(i + 1));
        out.push(list[i].clone());
        i += 1;
    }
    assert(texts(list@).take(i as int) =~= texts(list@));
    out
}

/// A copy of an optional string.
pub fn copy_option(s: &Option<String>) -> (r: Option<String>)
    ensures
        option_text(r) == option_text(*s),
{
    match s {
        Some(t) => Some(t.clone()),
        None => None,
    }
}

/// The text of an optional string.
pub open spec fn option_text(s: Option<String>) -> Option<Seq<char>> {
    match s {
        Some(t) => Some(t@),
        None => None,
    }
}

/// The text of an optional string slice.
pub open spec fn slice_text(s: Option<&str>) -> Option<Seq<char>> {
    match s {
        Some(t) => Some(t@),
        None => None,
    }
}

/// `a` followed by `b`.
pub fn glue(a: &str, b: &str) -> (r: String)
    ensures
        r@ == a@ + b@,
{
    let mut out = a.to_owned();
    out.append(b);
    out
}

/// `a`, `b` and `c` in a row.
pub fn glue3(a: &str, b: &str, c: &str) -> (r: String)
    ensures
        r@ == a@ + b@ + c@,
{
    let mut out = a.to_owned();
    out.append(b);
    out.append(c);
    out
}

// --- prefixes and suffixes ---------------------------------------------------

/// Whether `s` starts with `p`.
pub open spec fn starts(s: Seq<char>, p: Seq<char>) -> bool {
    p.len() <= s.len() && s.take(p.len() as int) == p
}

/// Whether `chars[at..]` starts with `p`.
pub fn chars_start(chars: &Vec<char>, at: usize, p: &Vec<char>) -> (r: bool)
    requires
        at <= chars@.len(),
    ensures
        r == starts(chars@.skip(at as int), p@),
{
    if chars.len() - at < p.len() {
        return false;
    }
    let mut i: usize = 0;
    while i < p.len()
        invariant
            at + p.len() <= chars.len(),
            i <= p@.len(),
            forall|j: int| 0 <= j < i ==> chars@[at + j] == p@[j],
        decreases p@.len() - i,
    {
        if chars[at + i] != p[i] {
            assert(chars@.skip(at as int).take(p@.len() as int)[i as int] != p@[i as int]);
            return false;
        }
        i += 1;
    }
    assert(chars@.skip(at as int).take(p@.len() as int) =~= p@);
    true
}

/// Whether `s` starts with `p`.
pub fn starts_with(s: &str, p: &str) -> (r: bool)
    ensures
        r == starts(s@, p@),
{
    let chars = chars_of(s);
    assert(chars@.skip(0) =~= chars@);
    chars_start(&chars, 0, &chars_of(p))
}

/// Whether `s` ends with the character `c`.
pub fn ends_with_char(s: &str, c: char) -> (r: bool)
    ensures
        r == (s@.len() > 0 && s@.last() == c),
{
    let chars = chars_of(s);
    chars.len() > 0 && chars[chars.len() - 1] == c
}

/// Whether `s` holds the character `c`.
pub fn has_char(s: &str, c: char) -> (r: bool)
    ensures
        r == s@.contains(c),
{
    let chars = chars_of(s);
    let mut i: usize = 0;
    while i < chars.len()
        invariant
            chars@ == s@,
            i <= chars@.len(),
            forall|j: int| 0 <= j < i ==> chars@[j] != c,
        decreases chars@.len() - i,
    {
        if chars[i] == c {
            assert(s@[i as int] == c);
            return true;
        }
        i += 1;
    }
    false
}

// --- trimming ----------------------------------------------------------------

/// The characters with the Unicode property `White_Space`.
pub open spec fn is_space(c: char) -> bool {
    ||| 0x9 <= c as u32 <= 0xd
    ||| c as u32 == 0x20
    ||| c as u32 == 0x85
    ||| c as u32 == 0xa0
    ||| c as u32 == 0x1680
    ||| 0x2000 <= c as u32 <= 0x200a
    ||| c as u32 == 0x2028
    ||| c as u32 == 0x2029
    ||| c as u32 == 0x202f
    ||| c as u32 == 0x205f
    ||| c as u32 == 0x3000
}

/// Whether `c` has the Unicode property `White_Space`.
pub fn space(c: char) -> (r: bool)
    ensures
        r == is_space(c),
{
    let u = c as u32;
    (0x9 <= u && u <= 0xd) || u == 0x20 || u == 0x85 || u == 0xa0 || u == 0x1680 || (0x2000 <= u
        && u <= 0x200a) || u == 0x2028 || u == 0x2029 || u == 0x202f || u == 0x205f || u == 0x3000
}

/// `s` without its leading characters that satisfy `f`.
pub open spec fn trim_start(s: Seq<char>, f: spec_fn(char) -> bool) -> Seq<char>
    decreases s.len(),
{
    if s.len() > 0 && f(s[0]) {
        trim_start(s.skip(1), f)
    } else {
        s
    }
}

/// `s` without its trailing characters that satisfy `f`.
pub open spec fn trim_end(s: Seq<char>, f: spec_fn(char) -> bool) -> Seq<char>
    decreases s.len(),
{
    if s.len() > 0 && f(s.last()) {
        trim_end(s.drop_last(), f)
    } else {
        s
    }
}

/// `s` without the white space around it.
pub open spec fn trimmed(s: Seq<char>) -> Seq<char> {
    trim_end(trim_start(s, |c: char| is_space(c)), |c: char| is_space(c))
}

/// The predicate that holds of `c` alone.
pub open spec fn only(c: char) -> spec_fn(char) -> bool {
    |x: char| x == c
}

/// `s` without the characters `c` that it ends with.
pub open spec fn without_trailing(s: Seq<char>, c: char) -> Seq<char> {
    trim_end(s, only(c))
}

/// `s` without the characters `c` that it starts with.
pub open spec fn without_leading(s: Seq<char>, c: char) -> Seq<char> {
    trim_start(s, only(c))
}

proof fn lemma_trim_start(s: Seq<char>, f: spec_fn(char) -> bool, i: int)
    requires
        0 <= i <= s.len(),
        forall|k: int| 0 <= k < i ==> f(#[trigger] s[k]),
        i == s.len() || !f(s[i]),
    ensures
        trim_start(s, f) == s.skip(i),
    decreases i,
{
    if i == 0 {
        assert(s.skip(0) =~= s);
    } else {
        let t = s.skip(1);
        assert forall|k: int| 0 <= k < i - 1 implies f(#[trigger] t[k]) by {
            assert(t[k] == s[k + 1]);
        }
        lemma_trim_start(t, f, i - 1);
        assert(t.skip(i - 1) =~= s.skip(i));
    }
}

proof fn lemma_trim_end(s: Seq<char>, f: spec_fn(char) -> bool, i: int)
    requires
        0 <= i <= s.len(),
        forall|k: int| i <= k < s.len() ==> f(#[trigger] s[k]),
        i == 0 || !f(s[i - 1]),
    ensures
        trim_end(s, f) == s.take(i),
    decreases s.len() - i,
{
    if i == s.len() {
        assert(s.take(i) =~= s);
    } else {
        lemma_trim_end(s.drop_last(), f, i);
        assert(s.drop_last().take(i) =~= s.take(i));
    }
}

/// What trimming leaves does not end with a trimmed character.
proof fn lemma_trim_end_last(s: Seq<char>, f: spec_fn(char) -> bool)
    ensures
        trim_end(s, f).len() > 0 ==> !f(trim_end(s, f).last()),
        trim_end(s, f).len() <= s.len(),
        trim_end(s, f) == s.take(trim_end(s, f).len() as int),
    decreases s.len(),
{
    if s.len() > 0 && f(s.last()) {
        lemma_trim_end_last(s.drop_last(), f);
        let n = trim_end(s, f).len() as int;
        assert(s.drop_last().take(n) =~= s.take(n));
    } else {
        assert(s.take(s.len() as int) =~= s);
    }
}

/// `s` without the white space around it.
pub fn trim(s: &str) -> (r: String)
    ensures
        r@ == trimmed(s@),
{
    let chars = chars_of(s);
    let mut i: usize = 0;
    let ghost f = |c: char| is_space(c);
    while i < chars.len() && space(chars[i])
        invariant
            i <= chars@.len(),
            f == |c: char| is_space(c),
            forall|k: int| 0 <= k < i ==> f(#[trigger] chars@[k]),
        decreases chars@.len() - i,
    {
        i += 1;
    }
    proof {
        lemma_trim_start(s@, f, i as int);
    }
    let ghost rest = s@.skip(i as int);
    let mut j: usize = chars.len();
    while j > i && space(chars[j - 1])
        invariant
            i <= j <= chars@.len(),
            chars@ == s@,
            f == |c: char| is_space(c),
            rest == s@.skip(i as int),
            forall|k: int| j - i <= k < rest.len() ==> f(#[trigger] rest[k]),
        decreases j,
    {
        j -= 1;
    }
    proof {
        lemma_trim_end(rest, f, j - i);
        assert(rest.take(j - i) =~= chars@.subrange(i as int, j as int));
    }
    string_of(&chars, i, j)
}

/// `s` without the characters `c` that it ends with.
pub fn trim_end_char(s: &str, c: char) -> (r: String)
    ensures
        r@ == without_trailing(s@, c),
{
    let chars = chars_of(s);
    let ghost f = only(c);
    let mut j: usize = chars.len();
    while j > 0 && chars[j - 1] == c
        invariant
            j <= chars@.len(),
            f == only(c),
            forall|k: int| j <= k < chars@.len() ==> f(#[trigger] chars@[k]),
        decreases j,
    {
        j -= 1;
    }
    proof {
        lemma_trim_end(s@, f, j as int);
        assert(s@.take(j as int) =~= chars@.subrange(0, j as int));
    }
    string_of(&chars, 0, j)
}

/// `s` without the characters `c` that it starts with.
pub fn trim_start_char(s: &str, c: char) -> (r: String)
    ensures
        r@ == without_leading(s@, c),
{
    let chars = chars_of(s);
    let ghost f = only(c);
    let mut i: usize = 0;
    while i < chars.len() && chars[i] == c
        invariant
            i <= chars@.len(),
            f == only(c),
            forall|k: int| 0 <= k < i ==> f(#[trigger] chars@[k]),
        decreases chars@.len() - i,
    {
        i += 1;
    }
    proof {
        lemma_trim_start(s@, f, i as int);
        assert(s@.skip(i as int) =~= chars@.subrange(i as int, chars@.len() as int));
    }
    string_of(&chars, i, chars.len())
}

/// `s` without the copies of `p` that it starts with.
pub open spec fn without_prefixes(s: Seq<char>, p: Seq<char>) -> Seq<char>
    decreases s.len(),
{
    if p.len() > 0 && starts(s, p) {
        without_prefixes(s.skip(p.len() as int), p)
    } else {
        s
    }
}

/// `s` without the copies of `p` that it starts with.
pub fn trim_prefixes(s: &str, p: &str) -> (r: String)
    ensures
        r@ == without_prefixes(s@, p@),
{
    let chars = chars_of(s);
    let pat = chars_of(p);
    let mut i: usize = 0;
    assert(s@.skip(0) =~= s@);
    while pat.len() > 0 && chars_start(&chars, i, &pat)
        invariant
            i <= chars.len(),
            chars@ == s@,
            pat@ == p@,
            without_prefixes(s@, p@) == without_prefixes(s@.skip(i as int), p@),
        decreases chars@.len() - i,
    {
        assert(s@.skip(i as int).skip(p@.len() as int) =~= s@.skip(i + p@.len()));
        i += pat.len();
    }
    assert(s@.skip(i as int) =~= chars@.subrange(i as int, chars@.len() as int));
    string_of(&chars, i, chars.len())
}

// --- ASCII -------------------------------------------------------------------

/// The letters `A` to `Z` and `a` to `z`.
pub open spec fn is_letter(c: char) -> bool {
    ('a' <= c && c <= 'z') || ('A' <= c && c <= 'Z')
}

/// The digits `0` to `9`.
pub open spec fn is_digit(c: char) -> bool {
    '0' <= c && c <= '9'
}

/// The letters, the digits and `_`.
pub open spec fn is_word(c: char) -> bool {
    is_letter(c) || is_digit(c) || c == '_'
}

/// Whether `c` is an ASCII letter.
pub fn letter(c: char) -> (r: bool)
    ensures
        r == is_letter(c),
{
    ('a' <= c && c <= 'z') || ('A' <= c && c <= 'Z')
}

/// Whether `c` is an ASCII digit.
pub fn ascii_digit(c: char) -> (r: bool)
    ensures
        r == is_digit(c),
{
    '0' <= c && c <= '9'
}

/// Whether `c` is an ASCII letter, an ASCII digit or `_`.
pub fn word(c: char) -> (r: bool)
    ensures
        r == is_word(c),
{
    letter(c) || ascii_digit(c) || c == '_'
}

/// Whether all characters of `s` are letters, digits or `_`.
pub fn all_word(s: &str) -> (r: bool)
    ensures
        r == forall|i: int| 0 <= i < s@.len() ==> is_word(#[trigger] s@[i]),
{
    let chars = chars_of(s);
    let mut i: usize = 0;
    while i < chars.len()
        invariant
            chars@ == s@,
            i <= chars.len(),
            forall|j: int| 0 <= j < i ==> is_word(#[trigger] s@[j]),
        decreases chars.len() - i,
    {
        if !word(chars[i]) {
            assert(!is_word(s@[i as int]));
            return false;
        }
        i += 1;
    }
    true
}

/// The capital letter for a small one; any other character as it is.
pub open spec fn capital(c: char) -> char {
    if 'a' <= c && c <= 'z' {
        (c as u32 - 32) as char
    } else {
        c
    }
}

/// `s` with its ASCII letters in capitals.
pub open spec fn capitals(s: Seq<char>) -> Seq<char> {
    Seq::new(s.len(), |i: int| capital(s[i]))
}

/// `s` with its ASCII letters in capitals.
pub fn in_capitals(s: &str) -> (r: String)
    ensures
        r@ == capitals(s@),
{
    let chars = chars_of(s);
    let mut out = String::new();
    let mut i: usize = 0;
    while i < chars.len()
        invariant
            chars@ == s@,
            i <= chars.len(),
            out@ =~= capitals(s@).take(i as int),
        decreases chars.len() - i,
    {
        let c = chars[i];
        let d = if 'a' <= c && c <= 'z' {
            let u = c as u32;
            (u - 32) as u8 as char
        } else {
            c
        };
        assert(d == capital(c));
        assert(capitals(s@).take(i as int).push(d) =~= capitals(s@).take(i + 1));
        out.push(d);
        i += 1;
    }
    assert(capitals(s@).take(i as int) =~= capitals(s@));
    out
}

// --- literals ----------------------------------------------------------------

/// The contents of a list of string slices.
pub open spec fn slices(v: Seq<&str>) -> Seq<Seq<char>> {
    Seq::new(v.len(), |i: int| v[i]@)
}

/// A list of strings with the contents of `v`.
pub fn owned(v: &[&str]) -> (r: Vec<String>)
    ensures
        texts(r@) == slices(v@),
{
    let mut out: Vec<String> = Vec::new();
    let mut i: usize = 0;
    while i < v.len()
        invariant
            i <= v.len(),
            texts(out@) =~= slices(v@).take(i as int),
        decreases v.len() - i,
    {
        broadcast use lemma_texts_push;

        out.push(v[i].to_owned());
        assert(slices(v@).take(i as int).push(v@[i as int]@) =~= slices(v@).take(i + 1));
        i += 1;
    }
    assert(slices(v@).take(i as int) =~= slices(v@));
    out
}

/// Whether a list of string slices holds `s`.
pub fn among(s: &str, v: &[&str]) -> (r: bool)
    ensures
        r == slices(v@).contains(s@),
{
    let mut i: usize = 0;
    while i < v.len()
        invariant
            i <= v.len(),
            forall|j: int| 0 <= j < i ==> slices(v@)[j] != s@,
        decreases v.len() - i,
    {
        if same(v[i], s) {
            assert(slices(v@)[i as int] == s@);
            return true;
        }
        i += 1;
    }
    false
}

/// White space around a text makes no difference once it is trimmed, and a text
/// without any around it stays as it is.
pub proof fn law_trimmed(s: Seq<char>, c: char)
    ensures
        is_space(c) ==> trimmed(seq![c] + s) == trimmed(s),
        is_space(c) ==> trimmed(s.push(c)) == trimmed(s),
        s.len() > 0 && !is_space(s[0]) && !is_space(s.last()) ==> trimmed(s) == s,
    decreases s.len(),
{
    let f = |c: char| is_space(c);
    let lead = seq![c] + s;
    assert(lead.skip(1) =~= s);
    let trail = s.push(c);
    assert(trail.drop_last() =~= s);
    if s.len() == 0 {
        assert(trail.skip(1) =~= s);
    } else if is_space(s[0]) {
        law_trimmed(s.skip(1), c);
        assert(trail.skip(1) =~= s.skip(1).push(c));
    }
}

/// Blanks, tabs and line ends are white space; letters, digits and the other visible
/// characters of ASCII are not.
pub proof fn law_white_space(c: char)
    ensures
        c == ' ' || c == '\t' || c == '\n' || c == '\r' ==> is_space(c),
        '!' <= c <= '~' ==> !is_space(c),
        c == '\u{00a0}' || c == '\u{2003}' || c == '\u{3000}' || c == '\u{0085}' ==> is_space(c),
        is_letter(c) <==> 'a' <= c <= 'z' || 'A' <= c <= 'Z',
        is_digit(c) <==> '0' <= c <= '9',
        is_word(c) <==> is_letter(c) || is_digit(c) || c == '_',
{
}

} // verus!
