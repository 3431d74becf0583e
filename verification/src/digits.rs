//! Numbers as text.

use vstd::prelude::*;
use vstd::arithmetic::power::{lemma_pow0, lemma_pow1, lemma_pow_adds, pow};
use vstd::string::*;

verus! {

/// The digit that stands for `d`, in bases up to sixteen.
pub open spec fn digit(d: nat) -> char {
    if d < 10 {
        (48 + d) as char
    } else {
        (87 + d) as char
    }
}

/// `n` in base ten.
pub open spec fn decimal(n: nat) -> Seq<char>
    decreases n,
{
    if n < 10 {
        seq![digit(n)]
    } else {
        decimal(n / 10).push(digit(n % 10))
    }
}

/// `n` in base ten, with a minus sign where it is negative.
pub open spec fn signed_decimal(n: int) -> Seq<char> {
    if n < 0 {
        seq!['-'] + decimal((-n) as nat)
    } else {
        decimal(n as nat)
    }
}

/// The last `width` digits of `n` in base sixteen.
pub open spec fn hex(n: nat, width: nat) -> Seq<char>
    decreases width,
{
    if width == 0 {
        Seq::empty()
    } else {
        hex(n / 16, (width - 1) as nat).push(digit(n % 16))
    }
}

fn digit_char(d: u8) -> (r: char)
    requires
        d < 16,
    ensures
        r == digit(d as nat),
{
    if d < 10 {
        (48 + d) as char
    } else {
        (87 + d) as char
    }
}

/// `n` in base ten.
pub fn decimal_text(n: u128) -> (r: String)
    ensures
        r@ == decimal(n as nat),
    decreases n,
{
    if n < 10 {
        let mut out = String::new();
        out.push(digit_char(n as u8));
        out
    } else {
        let mut out = decimal_text(n / 10);
        out.push(digit_char((n % 10) as u8));
        out
    }
}

/// A count in base ten.
pub fn count_text(n: usize) -> (r: String)
    ensures
        r@ == decimal(n as nat),
{
    decimal_text(n as u128)
}

/// `n` in base ten, with a minus sign where it is negative.
pub fn signed_text(n: i32) -> (r: String)
    ensures
        r@ == signed_decimal(n as int),
{
    if n < 0 {
        let mut out = String::new();
        out.push('-');
        let m: u128 = (-(n as i64)) as u128;
        out.append(decimal_text(m).as_str());
        assert(out@ =~= seq!['-'] + decimal(m as nat));
        out
    } else {
        decimal_text(n as u128)
    }
}

/// The last `width` digits of `n` in base sixteen.
pub fn hex_text(n: u64, width: u8) -> (r: String)
    ensures
        r@ == hex(n as nat, width as nat),
    decreases width,
{
    if width == 0 {
        String::new()
    } else {
        let mut out = hex_text(n / 16, width - 1);
        out.push(digit_char((n % 16) as u8));
        out
    }
}

/// The number that some digits stand for in a base.
pub open spec fn value_of(s: Seq<char>, base: int) -> int
    decreases s.len(),
{
    if s.len() == 0 {
        0
    } else {
        value_of(s.drop_last(), base) * base + if '0' <= s.last() <= '9' {
            s.last() as int - '0' as int
        } else {
            s.last() as int - 'a' as int + 10
        }
    }
}

/// A number in base ten is made of digits, has no zero in front, and reads as the
/// number again.
pub proof fn law_decimal_reads_back(n: nat)
    ensures
        value_of(decimal(n), 10) == n,
        decimal(n).len() > 0,
        n > 0 ==> decimal(n)[0] != '0',
        forall|i: int| 0 <= i < decimal(n).len() ==> '0' <= #[trigger] decimal(n)[i] <= '9',
        signed_decimal(n as int) == decimal(n),
        n > 0 ==> signed_decimal(-(n as int)) == seq!['-'] + decimal(n),
    decreases n,
{
    let s = decimal(n);
    if n < 10 {
        assert(s.drop_last() =~= Seq::empty());
        assert(value_of(s.drop_last(), 10) == 0);
    } else {
        law_decimal_reads_back(n / 10);
        assert(s.drop_last() =~= decimal(n / 10));
        assert(s[0] == decimal(n / 10)[0]);
    }
}

/// A number that has so many digits in base sixteen reads as the number again.
pub proof fn law_hex_reads_back(n: nat, width: nat)
    ensures
        hex(n, width).len() == width,
        n < pow(16, width) ==> value_of(hex(n, width), 16) == n,
    decreases width,
{
    if width > 0 {
        let w = (width - 1) as nat;
        law_hex_reads_back(n / 16, w);
        assert(hex(n, width).drop_last() =~= hex(n / 16, w));
        let bound = pow(16, w);
        lemma_pow1(16);
        lemma_pow_adds(16, 1, w);
        assert(pow(16, width) == 16 * bound);
        if n < 16 * bound {
            assert(n / 16 < bound);
        }
    } else {
        lemma_pow0(16);
    }
}

} // verus!
