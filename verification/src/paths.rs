//! Unix paths as text.

use vstd::prelude::*;
use vstd::string::*;
use crate::pieces::{
    join, join_with, law_split_undoes_join, lemma_split_len, split, split_at_char,
};
use crate::text::{chars_of, glue, glue3, lemma_texts_push, same, string_of, texts};

verus! {

/// Whether a path starts at the root.
pub open spec fn absolute(p: Seq<char>) -> bool {
    p.len() > 0 && p[0] == '/'
}

/// `rel` seen from the directory `base`.
pub open spec fn joined(base: Seq<char>, rel: Seq<char>) -> Seq<char> {
    if absolute(rel) || base.len() == 0 {
        rel
    } else if base.last() == '/' {
        base + rel
    } else {
        base.push('/') + rel
    }
}

/// Whether a piece between slashes names something: neither nothing nor `.`.
pub open spec fn significant(piece: Seq<char>) -> bool {
    piece.len() > 0 && piece != seq!['.']
}

/// The components of a path: `/` for the root, `.` where a relative path starts
/// with it, and the names.
pub open spec fn components(p: Seq<char>) -> Seq<Seq<char>> {
    let head = if absolute(p) {
        seq![seq!['/']]
    } else if split(p, '/')[0] == seq!['.'] {
        seq![seq!['.']]
    } else {
        Seq::empty()
    };
    head + names(split(p, '/'))
}

/// The pieces that name something.
pub open spec fn names(pieces: Seq<Seq<char>>) -> Seq<Seq<char>> {
    pieces.filter(|s: Seq<char>| significant(s))
}

/// Whether two paths have the same components.
pub open spec fn same_components(a: Seq<char>, b: Seq<char>) -> bool {
    components(a) == components(b)
}

/// The last component of a path, where it is a name.
pub open spec fn file_name(p: Seq<char>) -> Option<Seq<char>> {
    let all = names(split(p, '/'));
    if all.len() > 0 && all.last() != seq!['.', '.'] {
        Some(all.last())
    } else {
        None
    }
}

/// The pieces without those at the end that name nothing.
pub open spec fn trim_tail(pieces: Seq<Seq<char>>) -> Seq<Seq<char>>
    decreases pieces.len(),
{
    if pieces.len() > 0 && !significant(pieces.last()) {
        trim_tail(pieces.drop_last())
    } else {
        pieces
    }
}

/// What is left of the pieces after the first `n` that name something, from
/// the next such piece to the last.
pub open spec fn rest_after(pieces: Seq<Seq<char>>, n: nat) -> Seq<Seq<char>>
    decreases pieces.len(),
{
    if pieces.len() == 0 {
        pieces
    } else if !significant(pieces[0]) {
        rest_after(pieces.skip(1), n)
    } else if n > 0 {
        rest_after(pieces.skip(1), (n - 1) as nat)
    } else {
        trim_tail(pieces)
    }
}

/// Whether the components of `prefix`, at least one, start those of `p`.
pub open spec fn under(p: Seq<char>, prefix: Seq<char>) -> bool {
    components(prefix).len() > 0 && components(prefix).is_prefix_of(components(p))
}

/// `file` with the extension of its name replaced by `ext`, or with `ext` added.
pub open spec fn with_extension(file: Seq<char>, ext: Seq<char>) -> Seq<char> {
    match file_name(file) {
        Some(name) => {
            let kept = trim_tail(split(file, '/')).drop_last();
            join(kept.push(stem(name)), seq!['/']).push('.') + ext
        },
        None => file,
    }
}

/// A file name without its extension; a leading dot starts none.
pub open spec fn stem(name: Seq<char>) -> Seq<char> {
    match last_dot(name) {
        Some(i) => if i > 0 {
            name.take(i)
        } else {
            name
        },
        None => name,
    }
}

/// Where the last `.` of a name stands.
pub open spec fn last_dot(name: Seq<char>) -> Option<int>
    decreases name.len(),
{
    if name.len() == 0 {
        None
    } else if name.last() == '.' {
        Some(name.len() - 1)
    } else {
        last_dot(name.drop_last())
    }
}

/// `rel` seen from the directory `base`.
pub fn join_path(base: &str, rel: &str) -> (r: String)
    ensures
        r@ == joined(base@, rel@),
{
    let b = chars_of(base);
    let c = chars_of(rel);
    if (c.len() > 0 && c[0] == '/') || b.len() == 0 {
        rel.to_owned()
    } else if b[b.len() - 1] == '/' {
        glue(base, rel)
    } else {
        proof {
            reveal_strlit("/");
            assert("/"@ =~= seq!['/']);
            assert(base@ + "/"@ =~= base@.push('/'));
        }
        glue3(base, "/", rel)
    }
}

fn is_significant(piece: &str) -> (r: bool)
    ensures
        r == significant(piece@),
{
    proof {
        reveal_strlit(".");
        assert("."@ =~= seq!['.']);
    }
    !piece.is_empty() && !same(piece, ".")
}

proof fn lemma_names_push(s: Seq<Seq<char>>, x: Seq<char>)
    ensures
        names(s.push(x)) == if significant(x) {
            names(s).push(x)
        } else {
            names(s)
        },
{
    reveal(Seq::filter);
    assert(s.push(x).drop_last() =~= s);
}

/// The names among the pieces of a path.
pub fn names_of(pieces: &Vec<String>) -> (r: Vec<String>)
    ensures
        texts(r@) == names(texts(pieces@)),
{
    broadcast use lemma_texts_push;

    let mut out: Vec<String> = Vec::new();
    let mut i: usize = 0;
    proof {
        reveal(Seq::filter);
        assert(texts(out@) =~= names(texts(pieces@).take(0)));
    }
    while i < pieces.len()
        invariant
            i <= pieces.len(),
            texts(out@) == names(texts(pieces@).take(i as int)),
        decreases pieces.len() - i,
    {
        proof {
            lemma_names_push(texts(pieces@).take(i as int), pieces@[i as int]@);
            assert(texts(pieces@).take(i as int).push(pieces@[i as int]@) =~= texts(pieces@).take(
                i + 1,
            ));
        }
        if is_significant(pieces[i].as_str()) {
            out.push(pieces[i].clone());
        }
        i += 1;
    }
    assert(texts(pieces@).take(i as int) =~= texts(pieces@));
    out
}

/// The components of a path.
pub fn components_of(p: &str) -> (r: Vec<String>)
    ensures
        texts(r@) == components(p@),
{
    broadcast use lemma_texts_push;

    let pieces = split_at_char(p, '/');
    proof {
        lemma_split_len(p@, '/');
        reveal_strlit(".");
        reveal_strlit("/");
        assert("."@ =~= seq!['.']);
        assert("/"@ =~= seq!['/']);
        assert(texts(pieces@)[0] == pieces@[0]@);
    }
    let chars = chars_of(p);
    let mut out: Vec<String> = Vec::new();
    if chars.len() > 0 && chars[0] == '/' {
        out.push("/".to_owned());
        assert(texts(out@) =~= seq![seq!['/']]);
    } else if same(pieces[0].as_str(), ".") {
        out.push(".".to_owned());
        assert(texts(out@) =~= seq![seq!['.']]);
    } else {
        assert(texts(out@) =~= Seq::empty());
    }
    let mut tail = names_of(&pieces);
    let ghost a = out@;
    let ghost b = tail@;
    out.append(&mut tail);
    assert(texts(out@) =~= texts(a) + texts(b));
    out
}

/// Whether two lists hold the same texts.
pub fn same_list(a: &Vec<String>, b: &Vec<String>) -> (r: bool)
    ensures
        r == (texts(a@) == texts(b@)),
{
    if a.len() != b.len() {
        assert(texts(a@).len() != texts(b@).len());
        return false;
    }
    let mut i: usize = 0;
    while i < a.len()
        invariant
            i <= a.len(),
            a.len() == b.len(),
            forall|k: int| 0 <= k < i ==> texts(a@)[k] == texts(b@)[k],
        decreases a.len() - i,
    {
        if !same(a[i].as_str(), b[i].as_str()) {
            assert(texts(a@)[i as int] != texts(b@)[i as int]);
            return false;
        }
        i += 1;
    }
    assert(texts(a@) =~= texts(b@));
    true
}

/// Whether two paths have the same components.
pub fn paths_equal(a: &str, b: &str) -> (r: bool)
    ensures
        r == same_components(a@, b@),
{
    same_list(&components_of(a), &components_of(b))
}

/// Whether a list of paths holds one with the components of `p`.
pub fn holds_path(list: &Vec<String>, p: &str) -> (r: bool)
    ensures
        r == exists|i: int| 0 <= i < list@.len() && same_components(#[trigger] list@[i]@, p@),
{
    let mut i: usize = 0;
    while i < list.len()
        invariant
            i <= list.len(),
            forall|j: int| 0 <= j < i ==> !same_components(#[trigger] list@[j]@, p@),
        decreases list.len() - i,
    {
        if paths_equal(list[i].as_str(), p) {
            return true;
        }
        i += 1;
    }
    false
}

/// The last component of a path, where it is a name.
pub fn file_name_of(p: &str) -> (r: Option<String>)
    ensures
        crate::text::option_text(r) == file_name(p@),
{
    let all = names_of(&split_at_char(p, '/'));
    proof {
        reveal_strlit("..");
        assert(".."@ =~= seq!['.', '.']);
    }
    if all.len() == 0 {
        return None;
    }
    let last = all[all.len() - 1].clone();
    assert(last@ == texts(all@).last());
    if same(last.as_str(), "..") {
        None
    } else {
        Some(last)
    }
}

fn drop_tail(pieces: Vec<String>) -> (r: Vec<String>)
    ensures
        texts(r@) == trim_tail(texts(pieces@)),
{
    let mut out = pieces;
    let ghost start = texts(out@);
    while out.len() > 0 && !is_significant(out[out.len() - 1].as_str())
        invariant
            trim_tail(start) == trim_tail(texts(out@)),
        decreases out.len(),
    {
        let ghost before = texts(out@);
        assert(before.last() == out@[out@.len() - 1]@);
        let _ = out.pop();
        assert(texts(out@) =~= before.drop_last());
    }
    assert(out@.len() > 0 ==> texts(out@).last() == out@[out@.len() - 1]@);
    out
}

/// What is left of the pieces after the first `n` that name something.
pub fn rest_of(pieces: &Vec<String>, n: usize) -> (r: Vec<String>)
    ensures
        texts(r@) == rest_after(texts(pieces@), n as nat),
{
    let mut i: usize = 0;
    let mut left: usize = n;
    let ghost all = texts(pieces@);
    assert(all.skip(0) =~= all);
    while i < pieces.len()
        invariant
            i <= pieces.len(),
            all == texts(pieces@),
            rest_after(all, n as nat) == rest_after(all.skip(i as int), left as nat),
        decreases pieces.len() - i,
    {
        assert(all.skip(i as int)[0] == pieces@[i as int]@);
        assert(all.skip(i as int).skip(1) =~= all.skip(i + 1));
        if is_significant(pieces[i].as_str()) {
            if left == 0 {
                let mut out: Vec<String> = Vec::new();
                let mut j: usize = i;
                while j < pieces.len()
                    invariant
                        i <= j <= pieces.len(),
                        all == texts(pieces@),
                        texts(out@) == all.subrange(i as int, j as int),
                    decreases pieces.len() - j,
                {
                    broadcast use lemma_texts_push;

                    assert(all.subrange(i as int, j as int).push(pieces@[j as int]@)
                        =~= all.subrange(i as int, j + 1));
                    out.push(pieces[j].clone());
                    j += 1;
                }
                assert(all.subrange(i as int, j as int) =~= all.skip(i as int));
                return drop_tail(out);
            }
            left -= 1;
        }
        i += 1;
    }
    assert(all.skip(i as int) =~= Seq::empty());
    let out: Vec<String> = Vec::new();
    assert(texts(out@) =~= Seq::empty());
    out
}

/// Whether the components of `prefix`, at least one, start those of `p`.
pub fn is_under(p: &str, prefix: &str) -> (r: bool)
    ensures
        r == under(p@, prefix@),
{
    let a = components_of(p);
    let b = components_of(prefix);
    if b.len() == 0 {
        assert(texts(b@).len() == 0);
        return false;
    }
    if b.len() > a.len() {
        assert(texts(b@).len() > texts(a@).len());
        return false;
    }
    let mut i: usize = 0;
    while i < b.len()
        invariant
            i <= b.len() <= a.len(),
            texts(a@) == components(p@),
            texts(b@) == components(prefix@),
            forall|k: int| 0 <= k < i ==> texts(a@)[k] == texts(b@)[k],
        decreases b.len() - i,
    {
        if !same(a[i].as_str(), b[i].as_str()) {
            assert(texts(a@)[i as int] != texts(b@)[i as int]);
            assert(texts(a@).subrange(0, texts(b@).len() as int)[i as int] != texts(b@)[i as int]);
            return false;
        }
        i += 1;
    }
    assert(texts(a@).subrange(0, texts(b@).len() as int) =~= texts(b@));
    true
}

fn stem_of(name: &str) -> (r: String)
    ensures
        r@ == stem(name@),
{
    let chars = chars_of(name);
    let mut j: usize = chars.len();
    assert(name@.take(j as int) =~= name@);
    while j > 0
        invariant
            j <= chars.len(),
            chars@ == name@,
            last_dot(name@) == last_dot(name@.take(j as int)),
        decreases j,
    {
        assert(name@.take(j as int).last() == chars@[j - 1]);
        assert(name@.take(j as int).drop_last() =~= name@.take(j - 1));
        if chars[j - 1] == '.' {
            if j > 1 {
                assert(chars@.subrange(0, j - 1) =~= name@.take(j - 1));
                return string_of(&chars, 0, j - 1);
            }
            return name.to_owned();
        }
        j -= 1;
    }
    name.to_owned()
}

/// `file` with the extension of its name replaced by `ext`, or with `ext` added.
pub fn set_extension(file: &str, ext: &str) -> (r: String)
    ensures
        r@ == with_extension(file@, ext@),
{
    broadcast use lemma_texts_push;

    match file_name_of(file) {
        Some(name) => {
            let mut kept = drop_tail(split_at_char(file, '/'));
            let ghost all = texts(kept@);
            let _ = kept.pop();
            assert(texts(kept@) =~= all.drop_last()) by {
                lemma_trim_tail_nonempty(split(file@, '/'));
            }
            kept.push(stem_of(name.as_str()));
            proof {
                reveal_strlit("/");
                assert("/"@ =~= seq!['/']);
                reveal_strlit(".");
                assert("."@ =~= seq!['.']);
            }
            let base = join_with(&kept, "/");
            assert(base@ + "."@ =~= base@.push('.'));
            glue3(base.as_str(), ".", ext)
        },
        None => file.to_owned(),
    }
}

proof fn lemma_trim_tail_nonempty(pieces: Seq<Seq<char>>)
    requires
        names(pieces).len() > 0,
    ensures
        trim_tail(pieces).len() > 0,
    decreases pieces.len(),
{
    reveal(Seq::filter);
    if pieces.len() > 0 && !significant(pieces.last()) {
        lemma_trim_tail_nonempty(pieces.drop_last());
    }
}

// --- what holds of every path ------------------------------------------------

/// Whether all of some texts are plain names: not empty, not `.`, and without a
/// slash.
pub open spec fn plain_names(parts: Seq<Seq<char>>) -> bool {
    forall|i: int|
        0 <= i < parts.len() ==> (#[trigger] parts[i]).len() > 0 && parts[i] != seq!['.']
            && !parts[i].contains('/')
}

/// The path from the root through some names.
pub open spec fn from_root(parts: Seq<Seq<char>>) -> Seq<char> {
    seq!['/'] + join(parts, seq!['/'])
}

proof fn lemma_root_joined(parts: Seq<Seq<char>>)
    requires
        parts.len() > 0,
    ensures
        from_root(parts) == join(seq![Seq::<char>::empty()] + parts, seq!['/']),
    decreases parts.len(),
{
    let all = seq![Seq::<char>::empty()] + parts;
    if parts.len() == 1 {
        assert(all.drop_last() =~= seq![Seq::<char>::empty()]);
        assert(join(seq![Seq::<char>::empty()], seq!['/']) =~= Seq::<char>::empty());
        assert(all.last() == parts[0]);
        assert(join(all, seq!['/']) =~= seq!['/'] + parts[0]);
        assert(from_root(parts) =~= seq!['/'] + parts[0]);
    } else {
        lemma_root_joined(parts.drop_last());
        assert(all.drop_last() =~= seq![Seq::<char>::empty()] + parts.drop_last());
        assert(from_root(parts) =~= from_root(parts.drop_last()) + seq!['/'] + parts.last());
    }
}

/// The path from the root through some names is cut at its slashes into those
/// names, behind a first piece that is empty.
pub proof fn lemma_root_split(parts: Seq<Seq<char>>)
    requires
        parts.len() > 0,
        plain_names(parts),
    ensures
        split(from_root(parts), '/') == seq![Seq::<char>::empty()] + parts,
        names(split(from_root(parts), '/')) == parts,
        absolute(from_root(parts)),
{
    let all = seq![Seq::<char>::empty()] + parts;
    lemma_root_joined(parts);
    assert forall|i: int| 0 <= i < all.len() implies !(#[trigger] all[i]).contains('/') by {
        if i > 0 {
            assert(all[i] == parts[i - 1]);
        }
    }
    law_split_undoes_join(all, '/');
    lemma_all_significant(parts);
    Seq::filter_distributes_over_add(
        seq![Seq::<char>::empty()],
        parts,
        |s: Seq<char>| significant(s),
    );
    reveal(Seq::filter);
    let first = seq![Seq::<char>::empty()];
    let none = Seq::<Seq<char>>::empty();
    assert(first.drop_last() =~= none);
    assert(names(none) =~= none);
    assert(!significant(first.last()));
    assert(names(first) =~= none);
    assert(names(all) =~= parts);
}

proof fn lemma_all_significant(parts: Seq<Seq<char>>)
    requires
        plain_names(parts),
    ensures
        names(parts) == parts,
    decreases parts.len(),
{
    reveal(Seq::filter);
    if parts.len() > 0 {
        let front = parts.drop_last();
        assert forall|i: int| 0 <= i < front.len() implies (#[trigger] front[i]).len() > 0
            && front[i] != seq!['.'] && !front[i].contains('/') by {
            assert(front[i] == parts[i]);
        }
        lemma_all_significant(front);
        assert(parts[parts.len() - 1].len() > 0);
        assert(names(parts) =~= parts);
    } else {
        assert(names(parts) =~= parts);
    }
}

/// The components of a path from the root are the root and its names.
pub proof fn law_components_of_a_path(parts: Seq<Seq<char>>)
    requires
        parts.len() > 0,
        plain_names(parts),
    ensures
        components(from_root(parts)) == seq![seq!['/']] + parts,
        parts.last() != seq!['.', '.'] ==> file_name(from_root(parts)) == Some(parts.last()),
{
    lemma_root_split(parts);
}

/// One path lies under another if and only if the names of the other start its
/// own; two are the same if and only if their names are.
pub proof fn law_under_by_names(a: Seq<Seq<char>>, b: Seq<Seq<char>>)
    requires
        a.len() > 0,
        b.len() > 0,
        plain_names(a),
        plain_names(b),
    ensures
        under(from_root(a), from_root(b)) <==> b.is_prefix_of(a),
        same_components(from_root(a), from_root(b)) <==> a == b,
{
    law_components_of_a_path(a);
    law_components_of_a_path(b);
    let root = seq![seq!['/']];
    let x = root + a;
    let y = root + b;
    if y.is_prefix_of(x) {
        assert(b =~= a.subrange(0, b.len() as int)) by {
            assert forall|i: int| 0 <= i < b.len() implies b[i] == a[i] by {
                assert(y[i + 1] == x.subrange(0, y.len() as int)[i + 1]);
                assert(y[i + 1] == b[i] && x[i + 1] == a[i]);
            }
        }
    }
    if b.is_prefix_of(a) {
        assert(y =~= x.subrange(0, y.len() as int)) by {
            assert forall|i: int| 0 <= i < y.len() implies y[i] == x[i] by {
                if i > 0 {
                    assert(y[i] == b[i - 1] && x[i] == a[i - 1]);
                    assert(b[i - 1] == a.subrange(0, b.len() as int)[i - 1]);
                }
            }
        }
    }
    if x == y {
        assert(a =~= b) by {
            assert forall|i: int| 0 <= i < a.len() implies a[i] == b[i] by {
                assert(x[i + 1] == a[i] && y[i + 1] == b[i]);
            }
        }
    }
}

/// A relative path is put behind a directory with exactly one slash between them;
/// an absolute one stands for itself.
pub proof fn law_joined(base: Seq<char>, rel: Seq<char>)
    requires
        base.len() > 0,
        rel.len() > 0,
    ensures
        rel[0] == '/' ==> joined(base, rel) == rel,
        rel[0] != '/' && base.last() != '/' ==> joined(base, rel) == base + seq!['/'] + rel,
        rel[0] != '/' && base.last() == '/' ==> joined(base, rel) == base + rel,
{
    assert(base.push('/') + rel =~= base + seq!['/'] + rel);
}

proof fn lemma_last_dot(base: Seq<char>, old: Seq<char>)
    requires
        !old.contains('.'),
    ensures
        last_dot(base + seq!['.'] + old) == Some(base.len() as int),
    decreases old.len(),
{
    let name = base + seq!['.'] + old;
    if old.len() > 0 {
        let front = old.drop_last();
        assert(!front.contains('.')) by {
            if front.contains('.') {
                let i = choose|i: int| 0 <= i < front.len() && front[i] == '.';
                assert(old[i] == '.');
            }
        }
        lemma_last_dot(base, front);
        assert(name.drop_last() =~= base + seq!['.'] + front);
        assert(old.contains(old[old.len() - 1]));
    }
}

/// The extension of a file, what stands behind the last dot of its name, is
/// replaced, and nothing else of its path.
pub proof fn law_extension_is_replaced(
    dirs: Seq<Seq<char>>,
    base: Seq<char>,
    old: Seq<char>,
    ext: Seq<char>,
)
    requires
        plain_names(dirs),
        base.len() > 0,
        old.len() > 0,
        !base.contains('/'),
        !old.contains('/'),
        !old.contains('.'),
    ensures
        with_extension(from_root(dirs.push(base + seq!['.'] + old)), ext) == from_root(
            dirs.push(base),
        ) + seq!['.'] + ext,
{
    let name = base + seq!['.'] + old;
    let parts = dirs.push(name);
    lemma_dotted_name(base, old);
    lemma_plain_push(dirs, name);
    lemma_root_split(parts);
    lemma_root_joined(dirs.push(base));
    lemma_extension(from_root(parts), dirs, name, base, ext);
}

#[verifier::rlimit(40)]
proof fn lemma_extension(
    file: Seq<char>,
    dirs: Seq<Seq<char>>,
    name: Seq<char>,
    base: Seq<char>,
    ext: Seq<char>,
)
    requires
        split(file, '/') == seq![Seq::<char>::empty()] + dirs.push(name),
        names(split(file, '/')) == dirs.push(name),
        name.len() > 2,
        stem(name) == base,
        from_root(dirs.push(base)) == join(seq![Seq::<char>::empty()] + dirs.push(base), seq!['/']),
    ensures
        with_extension(file, ext) == from_root(dirs.push(base)) + seq!['.'] + ext,
{
    let head = seq![Seq::<char>::empty()];
    let pieces = split(file, '/');
    let start = from_root(dirs.push(base));
    assert(pieces.last() == name && dirs.push(name).last() == name);
    assert(trim_tail(pieces) == pieces);
    assert(name != seq!['.', '.']) by {
        assert(seq!['.', '.'].len() == 2);
    }
    assert(file_name(file) == Some(name));
    assert(pieces.drop_last().push(base) == head + dirs.push(base)) by {
        assert(pieces.drop_last().push(base) =~= head + dirs.push(base));
    }
    assert(with_extension(file, ext) == start.push('.') + ext);
    assert(start.push('.') + ext =~= start + seq!['.'] + ext);
}

proof fn lemma_plain_push(dirs: Seq<Seq<char>>, name: Seq<char>)
    requires
        plain_names(dirs),
        name.len() > 1,
        !name.contains('/'),
    ensures
        plain_names(dirs.push(name)),
{
    let parts = dirs.push(name);
    assert forall|i: int| 0 <= i < parts.len() implies (#[trigger] parts[i]).len() > 0 && parts[i]
        != seq!['.'] && !parts[i].contains('/') by {
        if i < dirs.len() {
            assert(parts[i] == dirs[i]);
        }
    }
}

proof fn lemma_dotted_name(base: Seq<char>, old: Seq<char>)
    requires
        base.len() > 0,
        old.len() > 0,
        !base.contains('/'),
        !old.contains('/'),
        !old.contains('.'),
    ensures
        ({
            let name = base + seq!['.'] + old;
            &&& name.len() > 2
            &&& !name.contains('/')
            &&& stem(name) == base
        }),
{
    let name = base + seq!['.'] + old;
    if name.contains('/') {
        let i = choose|i: int| 0 <= i < name.len() && name[i] == '/';
        if i < base.len() {
            assert(base[i] == '/');
        } else {
            assert(i > base.len());
            assert(old[i - base.len() - 1] == '/');
        }
    }
    lemma_last_dot(base, old);
    assert(name.take(base.len() as int) =~= base);
}

} // verus!
