use std::path::Path;

use herdr_worktree_setup::bytes::{records_of, split_nul};
use herdr_worktree_setup::digits::{count_text, decimal_text, hex_text, signed_text};
use herdr_worktree_setup::order::{bytes_precede, text_precedes};
use herdr_worktree_setup::ostext::{bytes_of_text, legible_text, text_of_bytes};
use herdr_worktree_setup::paths::{
    components_of, file_name_of, is_under, join_path, paths_equal, set_extension,
};
use herdr_worktree_setup::pieces::{
    fields_at_char, join_with, lines_of, replace_char, split_at_char, split_once_at,
};
use herdr_worktree_setup::text::{trim, trim_end_char, trim_prefixes};

#[test]
fn numbers_as_text() {
    assert_eq!(decimal_text(0), "0");
    assert_eq!(decimal_text(u128::MAX), u128::MAX.to_string());
    assert_eq!(count_text(120), "120");
    for n in [0, 7, -7, i32::MAX, i32::MIN] {
        assert_eq!(signed_text(n), n.to_string());
    }
    assert_eq!(hex_text(255, 16), "00000000000000ff");
    assert_eq!(hex_text(u64::MAX, 16), "ffffffffffffffff");
}

#[test]
fn texts_are_split_and_joined() {
    let parts = split_at_char("a//b/", '/');
    assert_eq!(parts, vec!["a", "", "b", ""]);
    assert_eq!(join_with(&parts, "/"), "a//b/");
    assert_eq!(fields_at_char("/a//b/", '/'), vec!["a", "b"]);
    assert_eq!(split_once_at("k=v=w", '='), Some(("k".to_string(), "v=w".to_string())));
    assert_eq!(split_once_at("k", '='), None);
    assert_eq!(replace_char("it's", '\'', "'\\''"), "it'\\''s");
    for s in ["", "a", "a\n", "a\r\nb\n\n", "\n", "a\rb"] {
        let want: Vec<String> = s.lines().map(|l| l.to_string()).collect();
        assert_eq!(lines_of(s), want, "{s:?}");
    }
}

#[test]
fn texts_are_trimmed() {
    for s in ["", "  ", " a b ", "\t\u{a0}x\u{2003}\n", "\u{3000}y"] {
        assert_eq!(trim(s), s.trim(), "{s:?}");
    }
    assert_eq!(trim_end_char("a//", '/'), "a");
    assert_eq!(trim_prefixes("././a", "./"), "a");
}

#[test]
fn paths_join_and_compare_as_std_does() {
    for (a, b) in [("/a", "b"), ("/a/", "b/c"), ("/a", "/b"), ("", "b"), ("a", ""), ("/", "x")] {
        assert_eq!(Path::new(&join_path(a, b)), Path::new(a).join(b), "{a} {b}");
        assert_eq!(join_path(a, b), Path::new(a).join(b).to_str().unwrap(), "{a} {b}");
    }
    for (a, b) in [("/a/./b", "/a/b"), ("/a//b/", "/a/b"), ("a", "/a"), ("./a", "a"), ("", "")] {
        assert_eq!(paths_equal(a, b), Path::new(a) == Path::new(b), "{a} {b}");
    }
    for p in ["/a/b", "/", "a/..", "a/.", "x/", "", "."] {
        let want = Path::new(p).file_name().map(|s| s.to_str().unwrap().to_string());
        assert_eq!(file_name_of(p), want, "{p}");
    }
    for (a, b) in [("/a/b", "/a"), ("/ab", "/a"), ("/a", "/a"), ("a/b", "a"), ("/a/../b", "/a")] {
        assert_eq!(is_under(a, b), Path::new(a).starts_with(b), "{a} {b}");
    }
    for f in ["/j/x.json", "/j/x", "/j/.x", "/j/a.b.c"] {
        let want = Path::new(f).with_extension("pid");
        assert_eq!(set_extension(f, "pid"), want.to_str().unwrap(), "{f}");
    }
    assert_eq!(components_of("/a/./b").len(), 3);
}

#[test]
fn the_order_of_texts_is_that_of_std() {
    let words = ["", "a", "A", "ab", "b", "é", "\u{10000}", "\u{ffff}", "PATH", "_"];
    for a in words {
        for b in words {
            assert_eq!(text_precedes(a, b), a < b, "{a} {b}");
            let (x, y) = (a.as_bytes().to_vec(), b.as_bytes().to_vec());
            assert_eq!(bytes_precede(&x, &y), x < y);
        }
    }
}

#[test]
fn records_between_nul_bytes() {
    assert_eq!(records_of(b"a\0\0bc\0"), vec![b"a".to_vec(), b"bc".to_vec()]);
    assert_eq!(split_nul(b"a\0\xff\xfe\0"), vec!["a".to_string(), "\u{fffd}\u{fffd}".to_string()]);
    assert!(records_of(b"").is_empty());
}

#[test]
fn bytes_that_are_no_text_are_kept() {
    let plain = "/caf\u{e9}/a b";
    assert_eq!(text_of_bytes(plain.as_bytes()), plain);
    assert_eq!(bytes_of_text(plain), plain.as_bytes());
    assert_eq!(legible_text(plain), plain);
    let odd: &[&[u8]] = &[
        b"a/\xff/b",
        b"\xc3",
        b"\xc3\xa9\xc3",
        b"\xf0\x9f\x98\x80\xf0\x9f\x98",
        b"\xed\xa0\x80",
        b"\xc0\xaf",
        b"\xf4\x90\x80\x80",
        b"\0\x80",
        b"",
    ];
    for bytes in odd {
        let text = text_of_bytes(bytes);
        assert_eq!(bytes_of_text(&text), *bytes, "{bytes:?}");
        assert_eq!(bytes_of_text(&format!("{text}/x")), [bytes, b"/x".as_slice()].concat());
    }
    assert_eq!(text_of_bytes(b"a/\xff/b"), "a/\0\u{ff}/b");
    assert_eq!(legible_text("a/\0\u{ff}/b"), "a/\u{fffd}/b");
    assert_eq!(text_of_bytes(b"\xc3\xa9\xc3"), "\u{e9}\0\u{c3}");
}
