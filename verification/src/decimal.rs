//! Unsigned integers as decimal text.
//!
//! Election identifiers, counters, tallies and timestamps cross the library's
//! boundary as decimal text, so that hosts whose number type is narrower than
//! 128 bits lose nothing. Reading accepts an optional `+` followed by at least
//! one digit; writing produces the shortest such text.

use vstd::prelude::*;
use vstd::string::*;

verus! {

/// Whether `c` is one of the ten decimal digits.
pub open spec fn is_digit(c: char) -> bool {
    '0' <= c && c <= '9'
}

/// The number that the digit `c` stands for.
pub open spec fn digit_value(c: char) -> nat {
    (c as int - '0' as int) as nat
}

/// The digit that stands for `d`, where `d` is below ten.
pub open spec fn digit_char(d: nat) -> char {
    (d + 48) as char
}

/// Whether every character of `s` is a decimal digit.
pub open spec fn all_digits(s: Seq<char>) -> bool {
    forall|i: int| 0 <= i < s.len() ==> is_digit(#[trigger] s[i])
}

/// The number written by the digits `s`, most significant first.
pub open spec fn digits_value(s: Seq<char>) -> nat
    decreases s.len(),
{
    if s.len() == 0 {
        0
    } else {
        digits_value(s.drop_last()) * 10 + digit_value(s.last())
    }
}

/// `s` without its leading `+`, if it has one.
pub open spec fn unsigned_part(s: Seq<char>) -> Seq<char> {
    if s.len() > 0 && s[0] == '+' {
        s.subrange(1, s.len() as int)
    } else {
        s
    }
}

/// Whether `s` is decimal text: an optional `+`, then one digit or more.
pub open spec fn is_decimal(s: Seq<char>) -> bool {
    unsigned_part(s).len() > 0 && all_digits(unsigned_part(s))
}

/// The number that the decimal text `s` denotes.
pub open spec fn decimal_value(s: Seq<char>) -> nat {
    digits_value(unsigned_part(s))
}

/// Whether `s` is decimal text for a number not above `max`.
pub open spec fn denotes_at_most(s: Seq<char>, max: nat) -> bool {
    is_decimal(s) && decimal_value(s) <= max
}

/// The shortest decimal text for `n`.
pub open spec fn decimal_text(n: nat) -> Seq<char>
    decreases n,
{
    if n < 10 {
        seq![digit_char(n)]
    } else {
        decimal_text(n / 10).push(digit_char(n % 10))
    }
}

/// An ASCII character and the byte that encodes it are the same number.
proof fn lemma_ascii_byte(c: char, b: u8)
    requires
        c <= '\u{7f}',
        b == c as u8,
    ensures
        b as int == c as int,
        is_digit(c) <==> 48 <= b <= 57,
        is_digit(c) ==> digit_value(c) == b - 48,
        c == '+' <==> b == 43,
{
}

/// A prefix of a digit string is worth no more than the whole.
proof fn lemma_prefix_value(s: Seq<char>, k: int)
    requires
        0 <= k <= s.len(),
    ensures
        digits_value(s.subrange(0, k)) <= digits_value(s),
    decreases s.len(),
{
    if k == s.len() {
        assert(s.subrange(0, k) =~= s);
    } else {
        lemma_prefix_value(s.drop_last(), k);
        assert(s.drop_last().subrange(0, k) =~= s.subrange(0, k));
    }
}

/// Reads decimal text as a 128-bit number.
pub fn parse_u128(text: &str) -> (parsed: Option<u128>)
    ensures
        parsed == (if denotes_at_most(text@, u128::MAX as nat) {
            Some(decimal_value(text@) as u128)
        } else {
            None
        }),
{
    broadcast use is_ascii_spec_bytes;

    if !text.is_ascii() {
        proof {
            let i = choose|i: int| 0 <= i < text@.len() && !('\0' <= #[trigger] text@[i] <= '\u{7f}');
            if is_decimal(text@) {
                if text@[0] == '+' {
                    assert(i >= 1);
                    assert(unsigned_part(text@)[i - 1] == text@[i]);
                } else {
                    assert(unsigned_part(text@)[i] == text@[i]);
                }
            }
        }
        return None;
    }
    let bytes = text.as_bytes();
    let n = bytes.len();
    assert(n == text@.len());
    assert(forall|i: int| 0 <= i < n ==> bytes@[i] == text@[i] as u8);
    proof {
        if n > 0 {
            lemma_ascii_byte(text@[0], bytes@[0]);
        }
    }
    let start: usize = if n > 0 && bytes[0] == 43u8 { 1 } else { 0 };
    let ghost body = unsigned_part(text@);
    assert(body =~= text@.subrange(start as int, n as int));
    if start == n {
        return None;
    }
    let mut value: u128 = 0;
    let mut i: usize = start;
    while i < n
        invariant
            start <= i <= n,
            n == text@.len(),
            n == bytes@.len(),
            body == text@.subrange(start as int, n as int),
            body == unsigned_part(text@),
            forall|j: int| 0 <= j < n ==> bytes@[j] == text@[j] as u8,
            forall|j: int| 0 <= j < n ==> text@[j] <= '\u{7f}',
            all_digits(body.subrange(0, i - start)),
            value == digits_value(body.subrange(0, i - start)),
        decreases n - i,
    {
        let b = bytes[i];
        let ghost c = text@[i as int];
        assert(body[i - start] == c);
        proof {
            lemma_ascii_byte(c, b);
        }
        if b < 48 || b > 57 {
            return None;
        }
        let d: u128 = (b - 48) as u128;
        let ghost next = body.subrange(0, i - start + 1);
        assert(next.drop_last() =~= body.subrange(0, i - start));
        assert(next.last() == c);
        assert(all_digits(next)) by {
            assert forall|j: int| 0 <= j < next.len() implies is_digit(#[trigger] next[j]) by {
                if j < i - start {
                    assert(body.subrange(0, i - start)[j] == next[j]);
                }
            }
        }
        assert(digits_value(next) == value * 10 + d);
        if value > (u128::MAX - d) / 10 {
            proof {
                lemma_prefix_value(body, i - start + 1);
            }
            return None;
        }
        value = value * 10 + d;
        i = i + 1;
    }
    assert(body.subrange(0, n - start) =~= body);
    Some(value)
}

/// Reads decimal text as a 64-bit number.
pub fn parse_u64(text: &str) -> (parsed: Option<u64>)
    ensures
        parsed == (if denotes_at_most(text@, u64::MAX as nat) {
            Some(decimal_value(text@) as u64)
        } else {
            None
        }),
{
    match parse_u128(text) {
        Some(value) => if value <= u64::MAX as u128 {
            Some(value as u64)
        } else {
            None
        },
        None => None,
    }
}

/// The text of one digit.
fn digit_text(d: u8) -> (text: &'static str)
    requires
        d < 10,
    ensures
        text@ == seq![digit_char(d as nat)],
{
    proof {
        reveal_strlit("0");
        reveal_strlit("1");
        reveal_strlit("2");
        reveal_strlit("3");
        reveal_strlit("4");
        reveal_strlit("5");
        reveal_strlit("6");
        reveal_strlit("7");
        reveal_strlit("8");
        reveal_strlit("9");
    }
    let text = if d == 0 {
        "0"
    } else if d == 1 {
        "1"
    } else if d == 2 {
        "2"
    } else if d == 3 {
        "3"
    } else if d == 4 {
        "4"
    } else if d == 5 {
        "5"
    } else if d == 6 {
        "6"
    } else if d == 7 {
        "7"
    } else if d == 8 {
        "8"
    } else {
        "9"
    };
    assert(text@ =~= seq![digit_char(d as nat)]);
    text
}

/// Appends the shortest decimal text for `n` to `out`.
fn push_decimal(n: u128, out: &mut String)
    ensures
        final(out)@ == old(out)@ + decimal_text(n as nat),
    decreases n,
{
    if n >= 10 {
        push_decimal(n / 10, out);
    }
    out.append(digit_text((n % 10) as u8));
    proof {
        let head = decimal_text((n / 10) as nat);
        let last = seq![digit_char((n % 10) as nat)];
        if n >= 10 {
            assert(decimal_text(n as nat) =~= head + last);
            assert((old(out)@ + head) + last =~= old(out)@ + (head + last));
        }
    }
}

/// Writes a 128-bit number as its shortest decimal text. The text reads back
/// as the number.
pub fn u128_to_string(n: u128) -> (text: String)
    ensures
        text@ == decimal_text(n as nat),
        denotes_at_most(text@, u128::MAX as nat),
        decimal_value(text@) == n,
{
    let mut text = String::new();
    push_decimal(n, &mut text);
    proof {
        assert(Seq::<char>::empty() + decimal_text(n as nat) =~= decimal_text(n as nat));
        lemma_text_round_trip(n as nat);
    }
    text
}

/// Writes a 64-bit number as its shortest decimal text. The text reads back
/// as the number.
pub fn u64_to_string(n: u64) -> (text: String)
    ensures
        text@ == decimal_text(n as nat),
        denotes_at_most(text@, u64::MAX as nat),
        decimal_value(text@) == n,
{
    u128_to_string(n as u128)
}

/// Writing a number and reading the text back gives the number: the text is
/// decimal, carries no sign, and denotes exactly `n`.
pub proof fn lemma_text_round_trip(n: nat)
    ensures
        decimal_text(n).len() > 0,
        all_digits(decimal_text(n)),
        unsigned_part(decimal_text(n)) == decimal_text(n),
        is_decimal(decimal_text(n)),
        decimal_value(decimal_text(n)) == n,
    decreases n,
{
    let text = decimal_text(n);
    if n < 10 {
        assert(text.drop_last() =~= Seq::<char>::empty());
        assert(digits_value(text.drop_last()) == 0);
        assert(digits_value(text) == n);
    } else {
        lemma_text_round_trip(n / 10);
        let head = decimal_text(n / 10);
        assert(text.drop_last() =~= head);
        assert(text.last() == digit_char(n % 10));
        assert(digits_value(text) == (n / 10) * 10 + n % 10);
        assert forall|i: int| 0 <= i < text.len() implies is_digit(#[trigger] text[i]) by {
            if i < head.len() {
                assert(text[i] == head[i]);
            }
        }
        assert(text[0] == head[0]);
    }
    assert(is_digit(text[0]));
}

/// Two numbers with the same decimal text are the same number.
pub proof fn lemma_text_is_injective(a: nat, b: nat)
    requires
        decimal_text(a) == decimal_text(b),
    ensures
        a == b,
{
    lemma_text_round_trip(a);
    lemma_text_round_trip(b);
}

} // verus!
