//! Names, paths and variables of the system as text. They are bytes that need not
//! be UTF-8, so each byte that is no part of it stands as two characters: a NUL,
//! which no name, path or variable holds, and the character with its number.

use vstd::prelude::*;
use vstd::slice::slice_subrange;
use vstd::string::*;
use vstd::utf8::*;
use crate::bytes::{lossy, lossy_text, utf8_text};
use crate::text::{chars_of, has_char};

verus! {

/// Whether a character stands first in some bytes, as UTF-8, that is no NUL.
pub open spec fn char_first(bytes: Seq<u8>) -> bool {
    valid_first_scalar(bytes) && bytes[0] != 0
}

/// The text that stands for some bytes.
pub open spec fn os_text(bytes: Seq<u8>) -> Seq<char>
    decreases bytes.len(),
{
    if bytes.len() == 0 {
        Seq::empty()
    } else if char_first(bytes) {
        seq![decode_first_scalar(bytes) as char] + os_text(pop_first_scalar(bytes))
    } else {
        seq!['\0', bytes[0] as char] + os_text(bytes.skip(1))
    }
}

/// Whether the first two characters of a text stand for one byte.
pub open spec fn byte_first(text: Seq<char>) -> bool {
    text.len() >= 2 && text[0] == '\0' && (text[1] as u32) < 256
}

/// The bytes that a text stands for.
pub open spec fn os_bytes(text: Seq<char>) -> Seq<u8>
    decreases text.len(),
{
    if text.len() == 0 {
        Seq::empty()
    } else if byte_first(text) {
        seq![text[1] as u8] + os_bytes(text.skip(2))
    } else {
        encode_scalar(text[0] as u32) + os_bytes(text.skip(1))
    }
}

/// What can be shown of a text: characters alone, with a replacement for what is
/// none.
pub open spec fn legible(text: Seq<char>) -> Seq<char> {
    if text.contains('\0') {
        lossy_text(os_bytes(text))
    } else {
        text
    }
}

proof fn lemma_first_alone(bytes: Seq<u8>)
    requires
        valid_first_scalar(bytes),
    ensures
        1 <= length_of_first_scalar(bytes) <= 4,
        length_of_first_scalar(bytes) <= bytes.len(),
        valid_utf8(take_first_scalar(bytes)),
        decode_first_scalar(take_first_scalar(bytes)) == decode_first_scalar(bytes),
        decode_utf8(take_first_scalar(bytes)) == seq![decode_first_scalar(bytes) as char],
        encode_scalar((decode_first_scalar(bytes) as char) as u32) == take_first_scalar(bytes),
{
    let first = take_first_scalar(bytes);
    assert(pop_first_scalar(first) =~= Seq::empty());
    assert(valid_utf8(pop_first_scalar(first)));
    assert(valid_first_scalar(first));
    assert(valid_utf8(first));
    assert(decode_utf8(pop_first_scalar(first)) =~= Seq::empty());
    decode_utf8_first_scalar(first);
    assert(take_first_scalar(first) =~= first);
}

proof fn lemma_behind(bytes: Seq<u8>, more: Seq<char>)
    ensures
        os_bytes(os_text(bytes) + more) == bytes + os_bytes(more),
    decreases bytes.len(),
{
    let text = os_text(bytes) + more;
    if bytes.len() == 0 {
        assert(text =~= more);
        assert(bytes + os_bytes(more) =~= os_bytes(more));
    } else if char_first(bytes) {
        let c = decode_first_scalar(bytes) as char;
        lemma_first_alone(bytes);
        lemma_behind(pop_first_scalar(bytes), more);
        assert(text.skip(1) =~= os_text(pop_first_scalar(bytes)) + more);
        assert(text[0] == c);
        assert(c != '\0') by {
            if c == '\0' {
                assert(take_first_scalar(bytes)[0] == bytes[0]);
                assert(leading_byte_width_1(0) == 0) by (bit_vector);
            }
        }
        assert(os_bytes(text) == take_first_scalar(bytes) + os_bytes(text.skip(1)));
        assert(take_first_scalar(bytes) + pop_first_scalar(bytes) =~= bytes);
        assert(bytes + os_bytes(more) =~= take_first_scalar(bytes) + (pop_first_scalar(bytes)
            + os_bytes(more)));
    } else {
        lemma_behind(bytes.skip(1), more);
        assert(text.skip(2) =~= os_text(bytes.skip(1)) + more);
        assert(text[0] == '\0' && text[1] == bytes[0] as char);
        assert((bytes[0] as char) as u32 == bytes[0] as u32);
        assert((bytes[0] as char) as u8 == bytes[0]);
        assert(bytes + os_bytes(more) =~= seq![bytes[0]] + (bytes.skip(1) + os_bytes(more)));
    }
}

/// The text that stands for some bytes.
pub fn text_of_bytes(bytes: &[u8]) -> (r: String)
    ensures
        r@ == os_text(bytes@),
{
    let mut out = String::new();
    let mut i: usize = 0;
    assert(bytes@.skip(0) =~= bytes@);
    assert(out@ + os_text(bytes@.skip(0)) =~= os_text(bytes@));
    while i < bytes.len()
        invariant
            i <= bytes.len(),
            out@ + os_text(bytes@.skip(i as int)) == os_text(bytes@),
        decreases bytes.len() - i,
    {
        let ghost rest = bytes@.skip(i as int);
        let ghost before = out@;
        let b: u8 = bytes[i];
        assert(b == rest[0]);
        match first_char(slice_subrange(bytes, i, bytes.len())) {
            Some((c, n)) => {
                assert(bytes@.subrange(i as int, bytes@.len() as int) =~= rest);
                out.push(c);
                assert(pop_first_scalar(rest) =~= bytes@.skip(i + n));
                assert(before + os_text(rest) =~= out@ + os_text(bytes@.skip(i + n)));
                i += n;
            },
            None => {
                assert(bytes@.subrange(i as int, bytes@.len() as int) =~= rest);
                out.push('\0');
                out.push(b as char);
                assert(rest.skip(1) =~= bytes@.skip(i + 1));
                assert(before + os_text(rest) =~= out@ + os_text(bytes@.skip(i + 1)));
                i += 1;
            },
        }
    }
    assert(bytes@.skip(i as int) =~= Seq::empty());
    assert(out@ + os_text(bytes@.skip(i as int)) =~= out@);
    out
}

/// The character that stands first in some bytes, unless it is a NUL, and how many
/// of the bytes it takes.
fn first_char(bytes: &[u8]) -> (r: Option<(char, usize)>)
    requires
        bytes@.len() > 0,
    ensures
        match r {
            Some((c, n)) => char_first(bytes@) && c == decode_first_scalar(bytes@) as char && n
                == length_of_first_scalar(bytes@) && 1 <= n <= bytes@.len(),
            None => !char_first(bytes@),
        },
{
    let b: u8 = bytes[0];
    let n: usize = if b < 0x80 {
        1
    } else if 0xc0 <= b && b < 0xe0 {
        2
    } else if 0xe0 <= b && b < 0xf0 {
        3
    } else if 0xf0 <= b && b < 0xf8 {
        4
    } else {
        return None;
    };
    if b == 0 || bytes.len() < n {
        return None;
    }
    let first = slice_subrange(bytes, 0, n);
    match utf8_text(first) {
        Some(s) => {
            let chars = chars_of(s.as_str());
            assert(valid_first_scalar(first@));
            assert(valid_first_scalar(bytes@));
            assert(take_first_scalar(bytes@) =~= first@);
            proof {
                lemma_first_alone(bytes@);
            }
            Some((chars[0], n))
        },
        None => {
            proof {
                if valid_first_scalar(bytes@) {
                    lemma_first_alone(bytes@);
                    assert(take_first_scalar(bytes@) =~= first@);
                }
            }
            None
        },
    }
}

/// The bytes that a text stands for.
pub fn bytes_of_text(text: &str) -> (r: Vec<u8>)
    ensures
        r@ == os_bytes(text@),
{
    let chars = chars_of(text);
    let mut out: Vec<u8> = Vec::new();
    let mut i: usize = 0;
    assert(text@.skip(0) =~= text@);
    assert(out@ + os_bytes(text@.skip(0)) =~= os_bytes(text@));
    while i < chars.len()
        invariant
            i <= chars.len(),
            chars@ == text@,
            out@ + os_bytes(text@.skip(i as int)) == os_bytes(text@),
        decreases chars.len() - i,
    {
        let ghost rest = text@.skip(i as int);
        let ghost before = out@;
        assert(rest[0] == chars@[i as int]);
        if chars[i] == '\0' && chars.len() - i >= 2 && (chars[i + 1] as u32) < 256 {
            assert(rest[1] == chars@[i + 1]);
            out.push(chars[i + 1] as u8);
            assert(rest.skip(2) =~= text@.skip(i + 2));
            assert(before + os_bytes(rest) =~= out@ + os_bytes(text@.skip(i + 2)));
            i += 2;
        } else {
            let mut one = String::new();
            one.push(chars[i]);
            let mut more = one.as_str().as_bytes_vec();
            proof {
                assert(one@ =~= seq![chars@[i as int]]);
                assert(one@.drop_first() =~= Seq::empty());
                assert(encode_utf8(one@.drop_first()) =~= Seq::empty());
                assert(more@ =~= encode_scalar(chars@[i as int] as u32));
                if rest.len() >= 2 {
                    assert(rest[1] == chars@[i + 1]);
                }
                assert(!byte_first(rest));
            }
            out.append(&mut more);
            assert(rest.skip(1) =~= text@.skip(i + 1));
            assert(before + os_bytes(rest) =~= out@ + os_bytes(text@.skip(i + 1)));
            i += 1;
        }
    }
    assert(text@.skip(i as int) =~= Seq::empty());
    assert(out@ + os_bytes(text@.skip(i as int)) =~= out@);
    out
}

/// What can be shown of a text.
pub fn legible_text(text: &str) -> (r: String)
    ensures
        r@ == legible(text@),
{
    if has_char(text, '\0') {
        lossy(bytes_of_text(text).as_slice())
    } else {
        text.to_owned()
    }
}

/// No byte is lost: the text that stands for some bytes stands for those bytes,
/// also where more text follows.
pub proof fn law_bytes_come_back(bytes: Seq<u8>, more: Seq<char>)
    ensures
        os_bytes(os_text(bytes)) == bytes,
        os_bytes(os_text(bytes) + more) == bytes + os_bytes(more),
{
    lemma_behind(bytes, more);
    lemma_behind(bytes, Seq::empty());
    assert(os_text(bytes) + Seq::<char>::empty() =~= os_text(bytes));
    assert(bytes + os_bytes(Seq::<char>::empty()) =~= bytes);
}

/// An ordinary text stands for its UTF-8, and its UTF-8 is that text again.
pub proof fn law_ordinary_text_is_itself(text: Seq<char>)
    requires
        !text.contains('\0'),
    ensures
        os_bytes(text) == encode_utf8(text),
        os_text(encode_utf8(text)) == text,
        legible(text) == text,
    decreases text.len(),
{
    if text.len() > 0 {
        let rest = text.drop_first();
        assert forall|i: int| 0 <= i < rest.len() implies rest[i] != '\0' by {
            assert(rest[i] == text[i + 1]);
        }
        law_ordinary_text_is_itself(rest);
        assert(text.skip(1) =~= rest);
        assert(text.contains(text[0]));
        let bytes = encode_utf8(text);
        encode_utf8_first_scalar(text);
        char_u32_cast(text[0], decode_first_scalar(bytes));
        assert(pop_first_scalar(bytes) =~= encode_utf8(rest));
        lemma_first_alone(bytes);
        assert(bytes[0] != 0) by {
            if bytes[0] == 0 {
                assert(codepoint_width_1(0u8) == 0u32) by (bit_vector);
                assert(text[0] as u32 == 0);
            }
        }
        assert(seq![text[0]] + rest =~= text);
    }
}

/// A text starts with a slash only where its bytes do.
pub proof fn law_no_slash_first(bytes: Seq<u8>)
    requires
        bytes.len() > 0,
        bytes[0] != 47,
    ensures
        os_text(bytes).len() > 0,
        os_text(bytes)[0] != '/',
{
    if char_first(bytes) {
        lemma_first_alone(bytes);
        if os_text(bytes)[0] == '/' {
            assert(take_first_scalar(bytes)[0] == bytes[0]);
            assert(leading_byte_width_1(47) == 47) by (bit_vector);
        }
    }
}

} // verus!
