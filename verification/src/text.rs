//! Decimal text, text comparison and decimal parsing over `str` and `String`.

use vstd::prelude::*;

verus! {

/// The character of the decimal digit `d` (`d < 10`).
pub open spec fn digit_char(d: nat) -> char {
    if d == 0 {
        '0'
    } else if d == 1 {
        '1'
    } else if d == 2 {
        '2'
    } else if d == 3 {
        '3'
    } else if d == 4 {
        '4'
    } else if d == 5 {
        '5'
    } else if d == 6 {
        '6'
    } else if d == 7 {
        '7'
    } else if d == 8 {
        '8'
    } else {
        '9'
    }
}

/// Decimal text of a natural number, without leading zeros ("0" for zero).
pub open spec fn decimal_text(n: nat) -> Seq<char>
    decreases n,
{
    if n < 10 {
        seq![digit_char(n)]
    } else {
        decimal_text(n / 10).push(digit_char(n % 10))
    }
}

/// Decimal text of an integer, with a leading '-' when it is negative.
pub open spec fn signed_decimal_text(i: int) -> Seq<char> {
    if i < 0 {
        seq!['-'] + decimal_text((-i) as nat)
    } else {
        decimal_text(i as nat)
    }
}

fn digit_str(d: u64) -> (s: &'static str)
    requires
        d < 10,
    ensures
        s@ == seq![digit_char(d as nat)],
{
    proof {
        reveal_strlit("0");
        reveal_strlit("1");
        reveal_strlit("2");
        reveal_strlit("3");
        reveal_strlit("4");
        reveal_strlit("5");
        reveal_strlit("6");
        reveal_strlit("7");
        reveal_strlit("8");
        reveal_strlit("9");
    }
    if d == 0 {
        "0"
    } else if d == 1 {
        "1"
    } else if d == 2 {
        "2"
    } else if d == 3 {
        "3"
    } else if d == 4 {
        "4"
    } else if d == 5 {
        "5"
    } else if d == 6 {
        "6"
    } else if d == 7 {
        "7"
    } else if d == 8 {
        "8"
    } else {
        "9"
    }
}

/// Appends the decimal text of `n` to `out`.
pub fn append_decimal(out: &mut String, n: u64)
    ensures
        final(out)@ == old(out)@ + decimal_text(n as nat),
    decreases n,
{
    if n >= 10 {
        append_decimal(out, n / 10);
        out.append(digit_str(n % 10));
        assert(out@ =~= old(out)@ + decimal_text(n as nat));
    } else {
        out.append(digit_str(n));
    }
}

/// Appends the decimal text of `n` to `out`, with a leading '-' when it is negative.
pub fn append_signed_decimal(out: &mut String, n: i64)
    ensures
        final(out)@ == old(out)@ + signed_decimal_text(n as int),
{
    if n < 0 {
        proof {
            reveal_strlit("-");
        }
        out.append("-");
        let magnitude: u64 = if n == i64::MIN {
            9223372036854775808u64
        } else {
            (-n) as u64
        };
        append_decimal(out, magnitude);
        assert(out@ =~= old(out)@ + signed_decimal_text(n as int));
    } else {
        append_decimal(out, n as u64);
    }
}

/// Whether two texts hold the same characters.
pub fn same_text(a: &str, b: &str) -> (same: bool)
    ensures
        same == (a@ == b@),
{
    let n = a.unicode_len();
    if n != b.unicode_len() {
        return false;
    }
    let mut i: usize = 0;
    while i < n
        invariant
            n == a@.len(),
            n == b@.len(),
            i <= n,
            forall|j: int| 0 <= j < i ==> a@[j] == b@[j],
        decreases n - i,
    {
        if a.get_char(i) != b.get_char(i) {
            return false;
        }
        i = i + 1;
    }
    assert(a@ =~= b@);
    true
}

/// Whether `text` begins with `prefix`.
pub fn has_prefix(text: &str, prefix: &str) -> (found: bool)
    ensures
        found == prefix@.is_prefix_of(text@),
{
    let n = prefix.unicode_len();
    if n > text.unicode_len() {
        return false;
    }
    let mut i: usize = 0;
    while i < n
        invariant
            n == prefix@.len(),
            n <= text@.len(),
            i <= n,
            forall|j: int| 0 <= j < i ==> prefix@[j] == text@[j],
        decreases n - i,
    {
        if prefix.get_char(i) != text.get_char(i) {
            return false;
        }
        i = i + 1;
    }
    assert(text@.subrange(0, n as int) =~= prefix@);
    true
}

/// Digits of a decimal text as a number, most significant first.
pub open spec fn digits_value(s: Seq<char>) -> nat
    decreases s.len(),
{
    if s.len() == 0 {
        0
    } else {
        digits_value(s.drop_last()) * 10 + digit_value(s.last())
    }
}

/// Value of a decimal digit character.
pub open spec fn digit_value(c: char) -> nat {
    if '0' <= c <= '9' {
        (c as int - '0' as int) as nat
    } else {
        0
    }
}

/// Whether every character is a decimal digit.
pub open spec fn all_digits(s: Seq<char>) -> bool {
    forall|i: int| 0 <= i < s.len() ==> '0' <= #[trigger] s[i] <= '9'
}

/// The number that Rust's `from_str` for an unsigned integer type reads from a text, before
/// the type's range is checked: an optional '+' followed by at least one decimal digit.
pub open spec fn unsigned_text_value(s: Seq<char>) -> Option<nat> {
    let digits = if s.len() > 0 && s[0] == '+' {
        s.drop_first()
    } else {
        s
    };
    if digits.len() > 0 && all_digits(digits) {
        Some(digits_value(digits))
    } else {
        None
    }
}

/// Reads an unsigned decimal number no greater than `max`, as Rust's `from_str` for `u32`
/// (with `max` = `u32::MAX`) or `u16` (with `max` = `u16::MAX`) does.
pub fn parse_unsigned(text: &str, max: u32) -> (value: Option<u32>)
    ensures
        value == (match unsigned_text_value(text@) {
            Some(v) => if v <= max {
                Some(v as u32)
            } else {
                None
            },
            None => None,
        }),
{
    let n = text.unicode_len();
    let mut start: usize = 0;
    if n > 0 && text.get_char(0) == '+' {
        start = 1;
    }
    let ghost digits = text@.subrange(start as int, n as int);
    assert(start == 1 ==> digits =~= text@.drop_first());
    assert(start == 0 ==> digits =~= text@);
    if start >= n {
        assert(digits.len() == 0);
        if start == 1 {
            assert(text@[0] == '+');
            assert(text@.drop_first().len() == 0);
        }
        assert(unsigned_text_value(text@) is None);
        return None;
    }
    assert(unsigned_text_value(text@) == if digits.len() > 0 && all_digits(digits) {
        Some(digits_value(digits))
    } else {
        None::<nat>
    });
    // Values at or above this bound are all out of range; the sum is held there.
    let cap: u64 = 4294967296;
    let mut acc: u64 = 0;
    let mut i: usize = start;
    while i < n
        invariant
            n == text@.len(),
            start <= i <= n,
            digits == text@.subrange(start as int, n as int),
            acc as int == if digits_value(text@.subrange(start as int, i as int)) < cap as int {
                digits_value(text@.subrange(start as int, i as int)) as int
            } else {
                cap as int
            },
            all_digits(text@.subrange(start as int, i as int)),
            cap == 4294967296,
            digits.len() > 0,
            unsigned_text_value(text@) == if all_digits(digits) {
                Some(digits_value(digits))
            } else {
                None::<nat>
            },
        decreases n - i,
    {
        let c = text.get_char(i);
        let ghost prefix = text@.subrange(start as int, i as int);
        let ghost next = text@.subrange(start as int, i + 1);
        assert(next.drop_last() =~= prefix);
        if c < '0' || c > '9' {
            assert(!all_digits(digits)) by {
                assert(digits[i - start] == c);
            }
            return None;
        }
        let d: u64 = (c as u32 - '0' as u32) as u64;
        let stepped: u64 = acc * 10 + d;
        acc = if stepped < cap {
            stepped
        } else {
            cap
        };
        i = i + 1;
    }
    assert(text@.subrange(start as int, n as int) =~= digits);
    if acc <= max as u64 {
        Some(acc as u32)
    } else {
        None
    }
}

proof fn lemma_digit_char_value(d: nat)
    requires
        d < 10,
    ensures
        digit_value(digit_char(d)) == d,
        '0' <= digit_char(d) <= '9',
{
    assert('1' as int == '0' as int + 1);
    assert('9' as int == '0' as int + 9);
    if d == 0 {
    } else if d == 1 {
    } else if d == 2 {
        assert('2' as int == '0' as int + 2);
    } else if d == 3 {
        assert('3' as int == '0' as int + 3);
    } else if d == 4 {
        assert('4' as int == '0' as int + 4);
    } else if d == 5 {
        assert('5' as int == '0' as int + 5);
    } else if d == 6 {
        assert('6' as int == '0' as int + 6);
    } else if d == 7 {
        assert('7' as int == '0' as int + 7);
    } else if d == 8 {
        assert('8' as int == '0' as int + 8);
    } else {
    }
}

pub(crate) proof fn lemma_decimal_text_digits(n: nat)
    ensures
        decimal_text(n).len() > 0,
        all_digits(decimal_text(n)),
        digits_value(decimal_text(n)) == n,
        decimal_text(n)[0] != '+',
    decreases n,
{
    lemma_digit_char_value(n % 10);
    if n < 10 {
        assert(n % 10 == n);
        assert(seq![digit_char(n)].drop_last() =~= Seq::<char>::empty());
        assert(digits_value(Seq::<char>::empty()) == 0);
        assert(digits_value(seq![digit_char(n)]) == digit_value(digit_char(n)));
    } else {
        lemma_decimal_text_digits(n / 10);
        let t = decimal_text(n);
        assert(t.drop_last() =~= decimal_text(n / 10));
        assert(t.last() == digit_char(n % 10));
        assert(digits_value(t) == digits_value(decimal_text(n / 10)) * 10 + digit_value(
            digit_char(n % 10),
        ));
        assert((n / 10) * 10 + n % 10 == n) by (nonlinear_arith);
        assert(t.drop_last() =~= decimal_text(n / 10));
        assert(t[0] == decimal_text(n / 10)[0]);
        assert forall|i: int| 0 <= i < t.len() implies '0' <= #[trigger] t[i] <= '9' by {
            if i < t.len() - 1 {
                assert(t[i] == decimal_text(n / 10)[i]);
            }
        }
    }
}

/// The decimal text of a number reads back as that number.
pub proof fn lemma_decimal_text_reads_back(n: nat)
    ensures
        unsigned_text_value(decimal_text(n)) == Some(n),
{
    lemma_decimal_text_digits(n);
}

} // verus!
