//! Decimal notation of unsigned numbers: writing it and reading it back.

use vstd::prelude::*;
use vstd::string::*;

verus! {

/// The character that writes the digit `d`, for `d` below ten.
pub open spec fn digit(d: nat) -> char
    recommends
        d < 10,
{
    ('0' as nat + d) as char
}

/// Whether `c` is one of the ten decimal digits.
pub open spec fn is_digit(c: char) -> bool {
    '0' <= c && c <= '9'
}

/// The digit that `c` writes.
pub open spec fn digit_value(c: char) -> nat
    recommends
        is_digit(c),
{
    (c as nat - '0' as nat) as nat
}

/// Whether every character of `s` is a decimal digit.
pub open spec fn all_digits(s: Seq<char>) -> bool {
    forall|i: int| 0 <= i < s.len() ==> is_digit(#[trigger] s[i])
}

/// The decimal notation of `n`: its digits from the most significant down,
/// without leading zeros, and the single digit `0` for zero.
pub open spec fn notation(n: nat) -> Seq<char>
    decreases n,
{
    if n < 10 {
        seq![digit(n)]
    } else {
        notation(n / 10).push(digit(n % 10))
    }
}

/// The number that a string of digits denotes, leading zeros allowed. The
/// empty string denotes zero.
pub open spec fn denoted(s: Seq<char>) -> nat
    decreases s.len(),
{
    if s.len() == 0 {
        0
    } else {
        10 * denoted(s.drop_last()) + digit_value(s.last())
    }
}

/// The notation of a number is made of digits, is not empty, and denotes
/// that number.
pub proof fn lemma_notation_denotes(n: nat)
    ensures
        notation(n).len() >= 1,
        all_digits(notation(n)),
        denoted(notation(n)) == n,
    decreases n,
{
    let text = notation(n);
    if n < 10 {
        assert(text.drop_last() =~= Seq::<char>::empty());
        assert(text.last() == digit(n));
        assert(denoted(text.drop_last()) == 0);
    } else {
        lemma_notation_denotes(n / 10);
        assert(text.drop_last() =~= notation(n / 10));
        assert(text.last() == digit(n % 10));
        assert forall|i: int| 0 <= i < text.len() implies is_digit(#[trigger] text[i]) by {
            if i < text.len() - 1 {
                assert(text[i] == notation(n / 10)[i]);
            }
        }
    }
}

/// The one-character text of a digit.
fn digit_text(d: u32) -> (text: &'static str)
    requires
        d < 10,
    ensures
        text@ == seq![digit(d as nat)],
{
    proof {
        reveal_strlit("0");
        reveal_strlit("1");
        reveal_strlit("2");
        reveal_strlit("3");
        reveal_strlit("4");
        reveal_strlit("5");
        reveal_strlit("6");
        reveal_strlit("7");
        reveal_strlit("8");
        reveal_strlit("9");
    }
    let text = match d {
        0 => "0",
        1 => "1",
        2 => "2",
        3 => "3",
        4 => "4",
        5 => "5",
        6 => "6",
        7 => "7",
        8 => "8",
        _ => "9",
    };
    assert(text@ =~= seq![digit(d as nat)]);
    text
}

/// Writes `n` in decimal notation.
pub fn render(n: u32) -> (text: String)
    ensures
        text@ == notation(n as nat),
    decreases n,
{
    if n < 10 {
        String::from_str(digit_text(n))
    } else {
        let mut text = render(n / 10);
        text.append(digit_text(n % 10));
        assert(text@ =~= notation(n as nat));
        text
    }
}

/// Why a text is not the notation of a number that fits in 32 bits.
#[derive(Debug, Clone, Copy, PartialEq, Eq, Structural)]
pub enum NumberError {
    /// The text is empty.
    Empty,
    /// The text holds something else than digits after its optional sign, or
    /// nothing after the sign.
    InvalidDigit,
    /// The text is made of digits and denotes a number above `u32::MAX`.
    Overflow,
}

/// The text without its leading `+`, if it has one.
pub open spec fn unsigned(s: Seq<char>) -> Seq<char> {
    if s.len() > 0 && s[0] == '+' {
        s.skip(1)
    } else {
        s
    }
}

/// What reading `s` as a 32-bit unsigned number gives. An optional `+`, then
/// at least one digit and nothing but digits; leading zeros are taken.
pub open spec fn parsed(s: Seq<char>) -> Result<u32, NumberError> {
    let body = unsigned(s);
    if s.len() == 0 {
        Err(NumberError::Empty)
    } else if body.len() == 0 || !all_digits(body) {
        Err(NumberError::InvalidDigit)
    } else if denoted(body) > u32::MAX {
        Err(NumberError::Overflow)
    } else {
        Ok(denoted(body) as u32)
    }
}

/// Reading the notation of a number gives the number back.
pub proof fn lemma_parsed_notation(n: u32)
    ensures
        parsed(notation(n as nat)) == Ok::<u32, NumberError>(n),
{
    lemma_notation_denotes(n as nat);
    assert(is_digit(notation(n as nat)[0]));
}

/// Reads a 32-bit unsigned number in decimal notation.
pub fn parse(s: &str) -> (result: Result<u32, NumberError>)
    ensures
        result == parsed(s@),
{
    let mut value: u32 = 0;
    let mut empty = true;
    let mut bare = true;
    let mut valid = true;
    let mut overflow = false;
    for c in it: s.chars()
        invariant
            it.seq() == s@,
            empty <==> it.index() == 0,
            bare <==> unsigned(s@.take(it.index() as int)).len() == 0,
            valid <==> all_digits(unsigned(s@.take(it.index() as int))),
            valid && !overflow ==> value == denoted(unsigned(s@.take(it.index() as int))),
            valid ==> (overflow <==> denoted(unsigned(s@.take(it.index() as int))) > u32::MAX),
    {
        let ghost read = unsigned(s@.take(it.index() as int));
        let ghost next = unsigned(s@.take(it.index() + 1));
        assert(s@.take(it.index() + 1) =~= s@.take(it.index() as int).push(c));
        if empty && c == '+' {
            assert(next =~= Seq::<char>::empty());
        } else {
            assert(next =~= read.push(c));
            assert(next.drop_last() =~= read);
            bare = false;
            if '0' <= c && c <= '9' {
                let d: u32 = (c as u32) - ('0' as u32);
                assert(d == digit_value(c));
                if valid && !overflow {
                    if value > (u32::MAX - d) / 10 {
                        overflow = true;
                    } else {
                        value = value * 10 + d;
                    }
                }
            } else {
                assert(!is_digit(next[next.len() - 1]));
                valid = false;
            }
            proof {
                if !all_digits(read) {
                    let i = choose|i: int| 0 <= i < read.len() && !is_digit(read[i]);
                    assert(!is_digit(next[i]));
                }
            }
        }
        empty = false;
    }
    assert(s@.take(s@.len() as int) =~= s@);
    if empty {
        Err(NumberError::Empty)
    } else if bare || !valid {
        Err(NumberError::InvalidDigit)
    } else if overflow {
        Err(NumberError::Overflow)
    } else {
        Ok(value)
    }
}

} // verus!
