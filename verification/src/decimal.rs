//! Unsigned numbers in decimal notation.

use vstd::prelude::*;
use vstd::string::*;

verus! {

/// Whether `c` is one of the ten decimal digits.
pub open spec fn is_digit(c: char) -> bool {
    '0' <= c && c <= '9'
}

/// The number that the digit `c` stands for.
pub open spec fn digit_value(c: char) -> nat
    recommends
        is_digit(c),
{
    (c as u32 - '0' as u32) as nat
}

/// The digit that stands for `d`.
pub open spec fn digit_char(d: nat) -> char
    recommends
        d < 10,
{
    (d + '0' as u32) as u32 as char
}

/// How many digits stand at the front of `s` before its end or another character.
pub open spec fn digit_run(s: Seq<char>) -> nat
    decreases s.len(),
{
    if s.len() > 0 && is_digit(s[0]) {
        1 + digit_run(s.skip(1))
    } else {
        0
    }
}

/// The number that a sequence of digits denotes, the most significant digit first.
pub open spec fn decimal_value(digits: Seq<char>) -> nat
    decreases digits.len(),
{
    if digits.len() == 0 {
        0
    } else {
        decimal_value(digits.drop_last()) * 10 + digit_value(digits.last())
    }
}

/// The digits of `n`, the most significant first and without leading zeros.
pub open spec fn decimal_text(n: nat) -> Seq<char>
    decreases n,
{
    if n < 10 {
        seq![digit_char(n)]
    } else {
        decimal_text(n / 10).push(digit_char(n % 10))
    }
}

/// A sequence that begins with `n` digits and then ends or goes on with another
/// character has a digit run of `n`.
pub proof fn lemma_digit_run_is(s: Seq<char>, n: nat)
    requires
        n <= s.len(),
        forall|j: int| 0 <= j < n ==> is_digit(#[trigger] s[j]),
        n == s.len() || !is_digit(s[n as int]),
    ensures
        digit_run(s) == n,
    decreases n,
{
    if n > 0 {
        let t = s.skip(1);
        assert forall|j: int| 0 <= j < n - 1 implies is_digit(#[trigger] t[j]) by {
            assert(t[j] == s[j + 1]);
        }
        lemma_digit_run_is(t, (n - 1) as nat);
    }
}

/// The digit run of a sequence is made of digits and cannot be made longer.
pub proof fn lemma_digit_run_bounds(s: Seq<char>)
    ensures
        digit_run(s) <= s.len(),
        forall|j: int| 0 <= j < digit_run(s) ==> is_digit(#[trigger] s[j]),
        digit_run(s) == s.len() || !is_digit(s[digit_run(s) as int]),
    decreases s.len(),
{
    if s.len() > 0 && is_digit(s[0]) {
        let t = s.skip(1);
        lemma_digit_run_bounds(t);
        assert forall|j: int| 0 <= j < digit_run(s) implies is_digit(#[trigger] s[j]) by {
            if j > 0 {
                assert(s[j] == t[j - 1]);
            }
        }
        if digit_run(s) != s.len() {
            assert(s[digit_run(s) as int] == t[digit_run(t) as int]);
        }
    }
}

/// A digit run that has ended stays as it is when the sequence goes on, and so
/// does one that reached the end, if what follows begins with no digit.
pub proof fn lemma_digit_run_followed(s: Seq<char>, more: Seq<char>)
    requires
        digit_run(s) < s.len() || more.len() == 0 || !is_digit(more[0]),
    ensures
        digit_run(s + more) == digit_run(s),
        (s + more).take(digit_run(s) as int) == s.take(digit_run(s) as int),
        (s + more).skip(digit_run(s) as int) == s.skip(digit_run(s) as int) + more,
{
    let n = digit_run(s);
    lemma_digit_run_bounds(s);
    lemma_digit_run_is(s + more, n);
    assert((s + more).take(n as int) =~= s.take(n as int));
    assert((s + more).skip(n as int) =~= s.skip(n as int) + more);
}

/// The text of a number is made of digits, at least one.
pub proof fn lemma_decimal_text_digits(n: nat)
    ensures
        decimal_text(n).len() >= 1,
        forall|j: int| 0 <= j < decimal_text(n).len() ==> is_digit(#[trigger] decimal_text(n)[j]),
    decreases n,
{
    if n >= 10 {
        lemma_decimal_text_digits(n / 10);
    }
}

/// The text of a number denotes that number.
pub proof fn lemma_decimal_text_value(n: nat)
    ensures
        decimal_value(decimal_text(n)) == n,
    decreases n,
{
    let t = decimal_text(n);
    if n < 10 {
        assert(t.drop_last() =~= Seq::<char>::empty());
        assert(decimal_value(t.drop_last()) == 0);
    } else {
        lemma_decimal_text_value(n / 10);
        assert(t.drop_last() =~= decimal_text(n / 10));
    }
}

/// Reading the text of a number, followed by nothing or by something that is no
/// digit, finds all of its digits and its value.
pub proof fn lemma_decimal_text_scan(n: nat, rest: Seq<char>)
    requires
        rest.len() == 0 || !is_digit(rest[0]),
    ensures
        digit_run(decimal_text(n) + rest) == decimal_text(n).len(),
        (decimal_text(n) + rest).take(decimal_text(n).len() as int) == decimal_text(n),
        (decimal_text(n) + rest).skip(decimal_text(n).len() as int) == rest,
        decimal_value(decimal_text(n)) == n,
{
    let t = decimal_text(n);
    lemma_decimal_text_digits(n);
    lemma_decimal_text_value(n);
    lemma_digit_run_is(t + rest, t.len());
    assert((t + rest).take(t.len() as int) =~= t);
    assert((t + rest).skip(t.len() as int) =~= rest);
}

/// Whether `c` is one of the ten decimal digits.
pub fn is_decimal_digit(c: char) -> (b: bool)
    ensures
        b == is_digit(c),
{
    '0' <= c && c <= '9'
}

/// Counts the digits at the front of `input` and computes the number that they
/// denote, if it fits in 64 bits.
pub fn scan_decimal(input: &str) -> (r: (usize, Option<u64>))
    ensures
        r.0 == digit_run(input@),
        r.1 == if decimal_value(input@.take(r.0 as int)) <= u64::MAX {
            Some(decimal_value(input@.take(r.0 as int)) as u64)
        } else {
            None
        },
{
    let len = input.unicode_len();
    let mut count: usize = 0;
    let mut value: u64 = 0;
    let mut fits = true;
    assert(input@.take(0) =~= Seq::<char>::empty());
    while count < len
        invariant
            len == input@.len(),
            count <= len,
            forall|j: int| 0 <= j < count ==> is_digit(#[trigger] input@[j]),
            fits ==> value == decimal_value(input@.take(count as int)),
            !fits ==> decimal_value(input@.take(count as int)) > u64::MAX,
        ensures
            count == len || !is_digit(input@[count as int]),
        decreases len - count,
    {
        let c = input.get_char(count);
        if !is_decimal_digit(c) {
            break ;
        }
        let digit: u64 = (c as u32 - '0' as u32) as u64;
        proof {
            let longer = input@.take(count + 1);
            assert(longer.drop_last() =~= input@.take(count as int));
            assert(longer.last() == c);
            assert(digit == digit_value(c));
        }
        if fits {
            if value <= (u64::MAX - digit) / 10 {
                value = value * 10 + digit;
            } else {
                fits = false;
            }
        }
        count = count + 1;
    }
    proof {
        lemma_digit_run_is(input@, count as nat);
    }
    (count, if fits { Some(value) } else { None })
}

/// The one-character text of a digit.
fn digit_text(d: u64) -> (s: &'static str)
    requires
        d < 10,
    ensures
        s@ == seq![digit_char(d as nat)],
{
    proof {
        reveal_strlit("0");
        reveal_strlit("1");
        reveal_strlit("2");
        reveal_strlit("3");
        reveal_strlit("4");
        reveal_strlit("5");
        reveal_strlit("6");
        reveal_strlit("7");
        reveal_strlit("8");
        reveal_strlit("9");
    }
    let s = if d == 0 {
        "0"
    } else if d == 1 {
        "1"
    } else if d == 2 {
        "2"
    } else if d == 3 {
        "3"
    } else if d == 4 {
        "4"
    } else if d == 5 {
        "5"
    } else if d == 6 {
        "6"
    } else if d == 7 {
        "7"
    } else if d == 8 {
        "8"
    } else {
        "9"
    };
    assert(s@ =~= seq![digit_char(d as nat)]);
    s
}

/// Appends the decimal text of `value` to `out`.
pub fn push_decimal(value: u64, out: &mut String)
    ensures
        final(out)@ == old(out)@ + decimal_text(value as nat),
    decreases value,
{
    if value >= 10 {
        push_decimal(value / 10, out);
    }
    out.append(digit_text(value % 10));
    proof {
        let n = value as nat;
        if n >= 10 {
            assert(decimal_text(n) =~= decimal_text(n / 10) + seq![digit_char(n % 10)]);
        }
        assert(final(out)@ =~= old(out)@ + decimal_text(n));
    }
}

} // verus!
