//! Decimal numbers as text, and small helpers on strings.

use std::str::FromStr;
use vstd::prelude::*;
use vstd::string::StringExecFns;

verus! {

/// The character of the decimal digit `d`.
pub open spec fn digit_char(d: nat) -> char {
    (48 + d) as char
}

/// The number that the decimal digit `c` stands for.
pub open spec fn digit_value(c: char) -> nat {
    (c as int - 48) as nat
}

/// The digits of `n`, most significant first, without leading zeros.
pub open spec fn digits(n: nat) -> Seq<char>
    decreases n,
{
    if n < 10 {
        seq![digit_char(n)]
    } else {
        digits(n / 10).push(digit_char(n % 10))
    }
}

/// The decimal text of `n`: its digits, behind a minus sign where it is negative.
pub open spec fn decimal_text(n: int) -> Seq<char> {
    if n < 0 {
        seq!['-'] + digits((-n) as nat)
    } else {
        digits(n as nat)
    }
}

/// The number that the digits `s` write; nothing where `s` is empty or holds another character.
pub open spec fn digits_value(s: Seq<char>) -> Option<nat>
    decreases s.len(),
{
    if s.len() == 0 || !('0' <= s.last() <= '9') {
        None
    } else if s.len() == 1 {
        Some(digit_value(s.last()))
    } else {
        match digits_value(s.drop_last()) {
            Some(high) => Some(10 * high + digit_value(s.last())),
            None => None,
        }
    }
}

/// The number that `s` writes: digits behind at most one sign.
pub open spec fn signed_value(s: Seq<char>) -> Option<int> {
    if s.len() > 0 && (s[0] == '-' || s[0] == '+') {
        match digits_value(s.skip(1)) {
            Some(n) => Some(if s[0] == '-' {
                -(n as int)
            } else {
                n as int
            }),
            None => None,
        }
    } else {
        match digits_value(s) {
            Some(n) => Some(n as int),
            None => None,
        }
    }
}

/// The `i32` that `s` writes, where it writes a number in that range.
pub open spec fn parsed_i32(s: Seq<char>) -> Option<i32> {
    match signed_value(s) {
        Some(n) => if i32::MIN <= n <= i32::MAX {
            Some(n as i32)
        } else {
            None
        },
        None => None,
    }
}

/// `i32::from_str`: an optional sign and then digits only, in range; anything else is an error.
#[verifier::external_body]
pub(crate) fn parse_i32(s: &str) -> (n: Option<i32>)
    ensures
        n == parsed_i32(s@),
{
    i32::from_str(s).ok()
}

/// `i128::to_string`: the number in decimal, without leading zeros.
#[verifier::external_body]
pub(crate) fn integer_text(n: i128) -> (s: String)
    ensures
        s@ == decimal_text(n as int),
{
    n.to_string()
}

/// The pieces one after another.
pub open spec fn joined(pieces: Seq<Seq<char>>, separator: Seq<char>) -> Seq<char>
    decreases pieces.len(),
{
    if pieces.len() == 0 {
        seq![]
    } else if pieces.len() == 1 {
        pieces[0]
    } else {
        joined(pieces.drop_last(), separator) + separator + pieces.last()
    }
}

/// The views of the strings.
pub open spec fn texts(strings: Seq<String>) -> Seq<Seq<char>> {
    strings.map_values(|s: String| s@)
}

pub(crate) fn join(pieces: &[String], separator: &str) -> (s: String)
    ensures
        s@ == joined(texts(pieces@), separator@),
{
    let mut s = String::new();
    let mut i: usize = 0;
    while i < pieces.len()
        invariant
            i <= pieces.len(),
            s@ == joined(texts(pieces@).take(i as int), separator@),
        decreases pieces.len() - i,
    {
        if i > 0 {
            s.append(separator);
        }
        s.append(pieces[i].as_str());
        proof {
            let now = texts(pieces@).take(i + 1);
            assert(now.drop_last() =~= texts(pieces@).take(i as int));
            assert(now.last() == pieces@[i as int]@);
        }
        i = i + 1;
    }
    assert(texts(pieces@).take(pieces.len() as int) =~= texts(pieces@));
    s
}

pub(crate) proof fn lemma_digits_read_back(n: nat)
    ensures
        digits(n).len() > 0,
        '0' <= digits(n)[0] <= '9',
        digits_value(digits(n)) == Some(n),
    decreases n,
{
    if n >= 10 {
        lemma_digits_read_back(n / 10);
        assert(digits(n).drop_last() =~= digits(n / 10));
        assert(digits(n)[0] == digits(n / 10)[0]);
    } else {
        assert(digits(n).last() == digit_char(n));
    }
}

/// A number written in decimal reads back as that number.
pub proof fn decimal_text_reads_back(n: i32)
    ensures
        parsed_i32(decimal_text(n as int)) == Some(n),
{
    let magnitude: nat = if n < 0 {
        (-n) as nat
    } else {
        n as nat
    };
    lemma_digits_read_back(magnitude);
    if n < 0 {
        assert(decimal_text(n as int).skip(1) =~= digits(magnitude));
    }
}

} // verus!
