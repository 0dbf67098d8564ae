//! Text forms of numbers, ranks and spans of time.

use crate::text::chars_of;
use vstd::prelude::*;
use vstd::string::StringExecFns;

verus! {

/// The character of a decimal digit.
pub open spec fn digit_char(digit: nat) -> char
    recommends
        digit < 10,
{
    if digit == 0 {
        '0'
    } else if digit == 1 {
        '1'
    } else if digit == 2 {
        '2'
    } else if digit == 3 {
        '3'
    } else if digit == 4 {
        '4'
    } else if digit == 5 {
        '5'
    } else if digit == 6 {
        '6'
    } else if digit == 7 {
        '7'
    } else if digit == 8 {
        '8'
    } else {
        '9'
    }
}

/// The decimal digits of `n`, most significant first, without leading zeros.
pub open spec fn decimal(n: nat) -> Seq<char>
    decreases n,
{
    if n < 10 {
        seq![digit_char(n)]
    } else {
        decimal(n / 10).push(digit_char(n % 10))
    }
}

/// The decimal form of `n`, with a minus sign in front where `n` is negative.
pub open spec fn signed_decimal(n: int) -> Seq<char> {
    if n < 0 {
        seq!['-'] + decimal((-n) as nat)
    } else {
        decimal(n as nat)
    }
}

/// The text of one decimal digit.
fn digit_str(digit: u64) -> (s: &'static str)
    requires
        digit < 10,
    ensures
        s@ == seq![digit_char(digit as nat)],
{
    proof {
        reveal_strlit("0");
        reveal_strlit("1");
        reveal_strlit("2");
        reveal_strlit("3");
        reveal_strlit("4");
        reveal_strlit("5");
        reveal_strlit("6");
        reveal_strlit("7");
        reveal_strlit("8");
        reveal_strlit("9");
    }
    let s = if digit == 0 {
        "0"
    } else if digit == 1 {
        "1"
    } else if digit == 2 {
        "2"
    } else if digit == 3 {
        "3"
    } else if digit == 4 {
        "4"
    } else if digit == 5 {
        "5"
    } else if digit == 6 {
        "6"
    } else if digit == 7 {
        "7"
    } else if digit == 8 {
        "8"
    } else {
        "9"
    };
    assert(s@ =~= seq![digit_char(digit as nat)]);
    s
}

/// Appends the decimal digits of `n` to `out`.
pub fn push_decimal(out: &mut String, n: u64)
    ensures
        final(out)@ == old(out)@ + decimal(n as nat),
    decreases n,
{
    if n >= 10 {
        push_decimal(out, n / 10);
    }
    out.append(digit_str(n % 10));
    proof {
        assert(final(out)@ =~= old(out)@ + decimal(n as nat));
    }
}

/// Appends the decimal form of `n` to `out`, with a minus sign in front where `n` is negative.
pub fn push_signed_decimal(out: &mut String, n: i64)
    ensures
        final(out)@ == old(out)@ + signed_decimal(n as int),
{
    if n < 0 {
        out.append("-");
        proof {
            reveal_strlit("-");
        }
        let magnitude: u64 = if n == i64::MIN {
            9_223_372_036_854_775_808
        } else {
            (-n) as u64
        };
        push_decimal(out, magnitude);
        assert(final(out)@ =~= old(out)@ + signed_decimal(n as int));
    } else {
        push_decimal(out, n as u64);
    }
}

/// The decimal digits of `n`.
pub fn decimal_string(n: u64) -> (s: String)
    ensures
        s@ == decimal(n as nat),
{
    let mut s = String::new();
    push_decimal(&mut s, n);
    assert(s@ =~= decimal(n as nat));
    s
}

/// The medal shown with one of the first three ranks, followed by a space; empty for
/// every other rank.
pub open spec fn rank_medal(rank: nat) -> Seq<char> {
    if rank == 1 {
        "🥇 "@
    } else if rank == 2 {
        "🥈 "@
    } else if rank == 3 {
        "🥉 "@
    } else {
        ""@
    }
}

/// The English ordinal suffix of `rank`: "th" where the tens digit is 1, otherwise by the
/// last digit.
pub open spec fn rank_suffix(rank: nat) -> Seq<char> {
    if rank / 10 % 10 == 1 {
        "th"@
    } else if rank % 10 == 1 {
        "st"@
    } else if rank % 10 == 2 {
        "nd"@
    } else if rank % 10 == 3 {
        "rd"@
    } else {
        "th"@
    }
}

/// A rank as shown to users: medal, number, ordinal suffix.
pub open spec fn rank_text(rank: nat) -> Seq<char> {
    rank_medal(rank) + decimal(rank) + rank_suffix(rank)
}

/// A rank as shown to users: "🥇 1st", "🥈 2nd", "🥉 3rd", "4th", "11th", "21st".
pub fn fmt_rank(rank: usize) -> (text: String)
    ensures
        text@ == rank_text(rank as nat),
{
    let medal = if rank == 1 {
        "🥇 "
    } else if rank == 2 {
        "🥈 "
    } else if rank == 3 {
        "🥉 "
    } else {
        ""
    };
    let suffix = if rank / 10 % 10 == 1 {
        "th"
    } else if rank % 10 == 1 {
        "st"
    } else if rank % 10 == 2 {
        "nd"
    } else if rank % 10 == 3 {
        "rd"
    } else {
        "th"
    };
    let mut text = String::new();
    text.append(medal);
    push_decimal(&mut text, rank as u64);
    text.append(suffix);
    assert(text@ =~= rank_text(rank as nat));
    text
}

/// A span of whole seconds as shown to users: days, hours, minutes and seconds, starting
/// at the largest unit that is not zero. A negative span shows only its seconds past the
/// whole minute, with their sign.
pub open spec fn timedelta_text(secs: int) -> Seq<char> {
    if secs >= 86_400 {
        decimal((secs / 86_400) as nat) + "d "@ + decimal((secs / 3_600 % 24) as nat) + "h "@
            + decimal((secs / 60 % 60) as nat) + "m "@ + decimal((secs % 60) as nat) + "s"@
    } else if secs >= 3_600 {
        decimal((secs / 3_600) as nat) + "h "@ + decimal((secs / 60 % 60) as nat) + "m "@
            + decimal((secs % 60) as nat) + "s"@
    } else if secs >= 60 {
        decimal((secs / 60) as nat) + "m "@ + decimal((secs % 60) as nat) + "s"@
    } else if secs >= 0 {
        decimal(secs as nat) + "s"@
    } else {
        signed_decimal(-((-secs) % 60)) + "s"@
    }
}

/// A span of `secs` whole seconds as shown to users: "1d 2h 3m 4s", "2h 0m 5s", "3m 4s", "4s".
pub fn fmt_timedelta(secs: i64) -> (text: String)
    ensures
        text@ == timedelta_text(secs as int),
{
    let mut text = String::new();
    if secs < 0 {
        let back: i128 = -(secs as i128);
        let rest: i64 = (back % 60) as i64;
        push_signed_decimal(&mut text, -rest);
        text.append("s");
        assert(text@ =~= timedelta_text(secs as int));
        return text;
    }
    let total: u64 = secs as u64;
    if total >= 86_400 {
        push_decimal(&mut text, total / 86_400);
        text.append("d ");
    }
    if total >= 3_600 {
        push_decimal(&mut text, if total >= 86_400 { total / 3_600 % 24 } else { total / 3_600 });
        text.append("h ");
    }
    if total >= 60 {
        push_decimal(&mut text, if total >= 3_600 { total / 60 % 60 } else { total / 60 });
        text.append("m ");
    }
    push_decimal(&mut text, if total >= 60 { total % 60 } else { total });
    text.append("s");
    assert(text@ =~= timedelta_text(secs as int));
    text
}

/// The number that a decimal digit stands for; `None` for any other character.
pub open spec fn digit_value(c: char) -> Option<nat> {
    if c == '0' {
        Some(0)
    } else if c == '1' {
        Some(1)
    } else if c == '2' {
        Some(2)
    } else if c == '3' {
        Some(3)
    } else if c == '4' {
        Some(4)
    } else if c == '5' {
        Some(5)
    } else if c == '6' {
        Some(6)
    } else if c == '7' {
        Some(7)
    } else if c == '8' {
        Some(8)
    } else if c == '9' {
        Some(9)
    } else {
        None
    }
}

/// The number that a text of one or more decimal digits stands for; `None` for the empty
/// text and for a text that holds anything but the digits 0 to 9.
pub open spec fn decimal_value(text: Seq<char>) -> Option<nat>
    decreases text.len(),
{
    if text.len() == 0 {
        None
    } else if text.len() == 1 {
        digit_value(text[0])
    } else {
        match (decimal_value(text.drop_last()), digit_value(text.last())) {
            (Some(n), Some(d)) => Some(n * 10 + d),
            _ => None,
        }
    }
}

/// The digits of a number written with or without a plus sign in front.
pub open spec fn unsigned_digits(text: Seq<char>) -> Seq<char> {
    if text.len() > 0 && text[0] == '+' {
        text.subrange(1, text.len() as int)
    } else {
        text
    }
}

/// The number that a text stands for, where it is a decimal number that fits in 64 bits:
/// one or more of the digits 0 to 9, with or without a plus sign in front.
pub open spec fn u64_value(text: Seq<char>) -> Option<u64> {
    match decimal_value(unsigned_digits(text)) {
        Some(n) => if n <= u64::MAX {
            Some(n as u64)
        } else {
            None
        },
        None => None,
    }
}

/// The number that a decimal digit stands for.
fn digit_of(c: char) -> (d: Option<u64>)
    ensures
        d is Some <==> digit_value(c) is Some,
        d matches Some(d) ==> digit_value(c) == Some(d as nat) && d < 10,
{
    if c == '0' {
        Some(0)
    } else if c == '1' {
        Some(1)
    } else if c == '2' {
        Some(2)
    } else if c == '3' {
        Some(3)
    } else if c == '4' {
        Some(4)
    } else if c == '5' {
        Some(5)
    } else if c == '6' {
        Some(6)
    } else if c == '7' {
        Some(7)
    } else if c == '8' {
        Some(8)
    } else if c == '9' {
        Some(9)
    } else {
        None
    }
}

/// A text that holds something other than a digit stands for no number.
proof fn lemma_decimal_value_digits(text: Seq<char>, i: int)
    requires
        0 <= i < text.len(),
        digit_value(text[i]) is None,
    ensures
        decimal_value(text) is None,
    decreases text.len(),
{
    if text.len() > 1 {
        if i < text.len() - 1 {
            assert(text.drop_last()[i] == text[i]);
            lemma_decimal_value_digits(text.drop_last(), i);
        }
    }
}

/// A number does not get smaller by more digits behind it.
proof fn lemma_decimal_value_grows(text: Seq<char>, n: int)
    requires
        1 <= n <= text.len(),
        decimal_value(text) is Some,
    ensures
        decimal_value(text.take(n)) is Some,
        decimal_value(text.take(n))->0 <= decimal_value(text)->0,
    decreases text.len(),
{
    if n == text.len() {
        assert(text.take(n) =~= text);
    } else {
        assert(text.len() > 1);
        assert(text.drop_last().take(n) =~= text.take(n));
        lemma_decimal_value_grows(text.drop_last(), n);
    }
}

/// The number that the characters from `start` on stand for.
fn parse_digits(chars: &Vec<char>, start: usize) -> (n: Option<u64>)
    requires
        start <= chars@.len(),
    ensures
        match decimal_value(chars@.subrange(start as int, chars@.len() as int)) {
            Some(v) => if v <= u64::MAX {
                n == Some(v as u64)
            } else {
                n is None
            },
            None => n is None,
        },
{
    let ghost digits = chars@.subrange(start as int, chars@.len() as int);
    if start == chars.len() {
        return None;
    }
    let mut value: u64 = 0;
    let mut i: usize = start;
    while i < chars.len()
        invariant
            start <= i <= chars@.len(),
            start < chars@.len(),
            digits == chars@.subrange(start as int, chars@.len() as int),
            i > start ==> decimal_value(digits.take(i - start)) == Some(value as nat),
            i == start ==> value == 0,
        decreases chars@.len() - i,
    {
        let digit = match digit_of(chars[i]) {
            Some(digit) => digit,
            None => {
                proof {
                    assert(digits[i - start] == chars@[i as int]);
                    lemma_decimal_value_digits(digits, i - start);
                }
                return None;
            },
        };
        proof {
            assert(digits.take(i - start + 1).drop_last() =~= digits.take(i - start));
            assert(digits.take(i - start + 1).last() == chars@[i as int]);
            if i == start {
                assert(digits.take(1).len() == 1);
            }
        }
        if value > (u64::MAX - digit) / 10 {
            proof {
                assert(value * 10 + digit > u64::MAX);
                if decimal_value(digits) is Some {
                    lemma_decimal_value_grows(digits, i - start + 1);
                }
            }
            return None;
        }
        value = value * 10 + digit;
        i += 1;
    }
    proof {
        assert(digits.take(i - start) =~= digits);
    }
    Some(value)
}

/// The number that `text` stands for: `text` is read as a decimal number of one or more of
/// the digits 0 to 9, with or without a plus sign in front, and the number has to fit in
/// 64 bits.
pub fn parse_u64(text: &str) -> (n: Option<u64>)
    ensures
        n == u64_value(text@),
{
    let chars = chars_of(text);
    let start: usize = if chars.len() > 0 && chars[0] == '+' {
        1
    } else {
        0
    };
    proof {
        if start == 0 {
            assert(chars@.subrange(0, chars@.len() as int) =~= text@);
        }
    }
    parse_digits(&chars, start)
}

/// Reading back the decimal digits of a number gives the number.
pub proof fn lemma_decimal_round_trip(n: nat)
    ensures
        decimal_value(decimal(n)) == Some(n),
    decreases n,
{
    if n >= 10 {
        lemma_decimal_round_trip(n / 10);
        let digits = decimal(n);
        assert(digits.drop_last() =~= decimal(n / 10));
        assert(digits.last() == digit_char(n % 10));
        lemma_decimal_len(n / 10);
    }
}

/// A number has at least one digit.
pub proof fn lemma_decimal_len(n: nat)
    ensures
        decimal(n).len() >= 1,
    decreases n,
{
    if n >= 10 {
        lemma_decimal_len(n / 10);
    }
}

} // verus!
