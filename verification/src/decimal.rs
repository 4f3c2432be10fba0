//! Reading decimal integers.
use crate::text;
use vstd::prelude::*;
use vstd::string::*;

verus! {

/// The ASCII digits.
pub open spec fn is_digit(c: char) -> bool {
    '0' <= c && c <= '9'
}

/// One or more digits and nothing else.
pub open spec fn all_digits(s: Seq<char>) -> bool {
    s.len() > 0 && forall|i: int| 0 <= i < s.len() ==> is_digit(#[trigger] s[i])
}

/// The number that the digits `s` write in base ten.
pub open spec fn decimal_value(s: Seq<char>) -> nat
    decreases s.len(),
{
    if s.len() == 0 {
        0
    } else {
        10 * decimal_value(s.drop_last()) + (s.last() as nat - '0' as nat) as nat
    }
}

/// `s` without its first character where that is one of `signs`.
pub open spec fn unsigned_part(s: Seq<char>, signs: Set<char>) -> Seq<char> {
    if s.len() > 0 && signs.contains(s[0]) {
        s.skip(1)
    } else {
        s
    }
}

/// The `u64` that `s` writes: an optional plus sign and then only digits.
pub open spec fn read_u64(s: Seq<char>) -> Option<u64> {
    let digits = unsigned_part(s, set!['+']);
    if all_digits(digits) && decimal_value(digits) <= u64::MAX {
        Some(decimal_value(digits) as u64)
    } else {
        None
    }
}

/// The `i64` that `s` writes: an optional sign and then only digits.
pub open spec fn read_i64(s: Seq<char>) -> Option<i64> {
    let digits = unsigned_part(s, set!['+', '-']);
    let value = if s.len() > 0 && s[0] == '-' {
        -decimal_value(digits)
    } else {
        decimal_value(digits) as int
    };
    if all_digits(digits) && i64::MIN <= value <= i64::MAX {
        Some(value as i64)
    } else {
        None
    }
}

proof fn lemma_decimal_value_grows(s: Seq<char>, n: int)
    requires
        0 <= n <= s.len(),
        all_digits(s),
    ensures
        decimal_value(s.take(n)) <= decimal_value(s),
    decreases s.len(),
{
    if n == s.len() {
        assert(s.take(n) == s);
    } else if s.len() > 1 {
        lemma_decimal_value_grows(s.drop_last(), n);
        assert(s.drop_last().take(n) == s.take(n));
    } else {
        assert(s.take(n).len() == 0);
    }
}

/// The number that the characters from `from` on write in base ten, where they
/// are digits only and the number fits.
fn read_magnitude(chars: &Vec<char>, from: usize) -> (r: Option<u64>)
    requires
        from <= chars@.len(),
    ensures
        ({
            let digits = chars@.skip(from as int);
            r == if all_digits(digits) && decimal_value(digits) <= u64::MAX {
                Some(decimal_value(digits) as u64)
            } else {
                None
            }
        }),
{
    let ghost digits = chars@.skip(from as int);
    let n: usize = chars.len();
    if from == n {
        return None;
    }
    let mut value: u64 = 0;
    let mut i: usize = from;
    while i < n
        invariant
            from <= i <= n,
            from < n,
            n == chars@.len(),
            digits == chars@.skip(from as int),
            forall|j: int| 0 <= j < i - from ==> is_digit(#[trigger] digits[j]),
            value == decimal_value(digits.take(i - from)),
        decreases n - i,
    {
        let c: char = chars[i];
        assert(c == digits[i - from]);
        assert(digits.take(i + 1 - from).drop_last() == digits.take(i - from));
        if c < '0' || '9' < c {
            assert(!all_digits(digits));
            return None;
        }
        let digit: u64 = (c as u32 - '0' as u32) as u64;
        let next: u128 = 10 * (value as u128) + digit as u128;
        assert(next == decimal_value(digits.take(i + 1 - from)));
        if next > u64::MAX as u128 {
            proof {
                if all_digits(digits) {
                    lemma_decimal_value_grows(digits, i + 1 - from);
                }
            }
            return None;
        }
        value = next as u64;
        i = i + 1;
    }
    assert(digits.take(n - from) == digits);
    Some(value)
}

/// Reads an unsigned integer.
pub fn parse_u64(s: &str) -> (r: Option<u64>)
    ensures
        r == read_u64(s@),
{
    let chars = text::chars_of(s);
    assert(chars@.skip(0) == chars@);
    if chars.len() > 0 && chars[0] == '+' {
        read_magnitude(&chars, 1)
    } else {
        read_magnitude(&chars, 0)
    }
}

/// Reads a signed integer.
pub fn parse_i64(s: &str) -> (r: Option<i64>)
    ensures
        r == read_i64(s@),
{
    let chars = text::chars_of(s);
    assert(chars@.skip(0) == chars@);
    let negative: bool = chars.len() > 0 && chars[0] == '-';
    let signed: bool = negative || (chars.len() > 0 && chars[0] == '+');
    let from: usize = if signed {
        1
    } else {
        0
    };
    match read_magnitude(&chars, from) {
        None => None,
        Some(magnitude) => if negative {
            if magnitude <= 0x8000_0000_0000_0000 {
                Some((-(magnitude as i128)) as i64)
            } else {
                None
            }
        } else if magnitude <= 0x7fff_ffff_ffff_ffff {
            Some(magnitude as i64)
        } else {
            None
        },
    }
}

/// The decimal digits of `n`, without leading zeros.
pub open spec fn decimal_text(n: nat) -> Seq<char>
    decreases n,
{
    let digit = ('0' as u32 + n % 10) as char;
    if n < 10 {
        seq![digit]
    } else {
        decimal_text(n / 10).push(digit)
    }
}

/// The digits of a number write that number.
pub proof fn law_decimal_text_has_its_value(n: nat)
    ensures
        all_digits(decimal_text(n)),
        decimal_value(decimal_text(n)) == n,
    decreases n,
{
    let digit = ('0' as u32 + n % 10) as char;
    if n < 10 {
        assert(decimal_text(n).last() == digit);
        assert(decimal_value(decimal_text(n).drop_last()) == 0);
    } else {
        assert(decimal_text(n).last() == digit);
        law_decimal_text_has_its_value(n / 10);
        assert(decimal_text(n).drop_last() =~= decimal_text(n / 10));
        assert forall|i: int| 0 <= i < decimal_text(n).len() implies is_digit(
            #[trigger] decimal_text(n)[i],
        ) by {
            if i < decimal_text(n / 10).len() {
                assert(decimal_text(n)[i] == decimal_text(n / 10)[i]);
            }
        }
    }
}

/// Reading undoes writing: the digits of a `u64` read as that number.
pub proof fn law_read_u64_of_its_text(value: u64)
    ensures
        read_u64(decimal_text(value as nat)) == Some(value),
{
    law_decimal_text_has_its_value(value as nat);
    assert(is_digit(decimal_text(value as nat)[0]));
}

/// Reading undoes writing below zero: a minus sign and the digits of the
/// magnitude read as that `i64`, and not as a `u64`.
pub proof fn law_read_i64_of_its_text(value: i64)
    requires
        value < 0,
    ensures
        read_i64(seq!['-'] + decimal_text(-value as nat)) == Some(value),
        read_u64(seq!['-'] + decimal_text(-value as nat)) is None,
{
    let digits = decimal_text(-value as nat);
    let s = seq!['-'] + digits;
    law_decimal_text_has_its_value(-value as nat);
    assert(s.skip(1) =~= digits);
    assert(s[0] == '-');
    assert(!is_digit('-'));
    assert(set!['+', '-'].contains('-'));
    assert(!set!['+'].contains('-'));
}

/// `n` zeros.
pub open spec fn zeros(n: nat) -> Seq<char> {
    Seq::new(n, |i: int| '0')
}

proof fn lemma_decimal_value_of_zeros(n: nat, digits: Seq<char>)
    ensures
        decimal_value(zeros(n) + digits) == decimal_value(digits),
    decreases digits.len(), n,
{
    let s = zeros(n) + digits;
    if digits.len() > 0 {
        assert(s.drop_last() =~= zeros(n) + digits.drop_last());
        assert(s.last() == digits.last());
        lemma_decimal_value_of_zeros(n, digits.drop_last());
    } else if n > 0 {
        let none = Seq::<char>::empty();
        assert(digits =~= none);
        assert(s.drop_last() =~= zeros((n - 1) as nat) + none);
        assert(s.last() == '0');
        lemma_decimal_value_of_zeros((n - 1) as nat, none);
    } else {
        assert(s =~= digits);
    }
}

/// How digits relate to the number they write: they are its digits behind some
/// number of zeros.
proof fn lemma_digits_are_zeros_and_text(s: Seq<char>)
    requires
        all_digits(s),
    ensures
        exists|n: nat| s == #[trigger] zeros(n) + decimal_text(decimal_value(s)),
    decreases s.len(),
{
    let last = s.last();
    assert(is_digit(s[s.len() - 1]));
    let digit = (last as nat - '0' as nat) as nat;
    assert(0 <= digit < 10);
    assert(('0' as u32 + digit) as char == last);
    let v = decimal_value(s);
    if s.len() == 1 {
        assert(decimal_value(s.drop_last()) == 0);
        assert(v == digit);
        assert(v % 10 == digit);
        assert(decimal_text(v) =~= seq![last]);
        assert(zeros(0) + decimal_text(v) =~= s);
    } else {
        let shorter = s.drop_last();
        assert forall|i: int| 0 <= i < shorter.len() implies is_digit(#[trigger] shorter[i]) by {
            assert(shorter[i] == s[i]);
        }
        lemma_digits_are_zeros_and_text(shorter);
        let w = decimal_value(shorter);
        let n = choose|n: nat| shorter == #[trigger] zeros(n) + decimal_text(w);
        assert(v == 10 * w + digit);
        assert(v % 10 == digit && v / 10 == w);
        assert(shorter.push(last) =~= s);
        if w == 0 {
            assert(decimal_text(0) =~= seq!['0']);
            assert(decimal_text(v) =~= seq![last]);
            assert(zeros(n + 1) + decimal_text(v) =~= s);
        } else {
            assert(decimal_text(v) =~= decimal_text(w).push(last));
            assert(zeros(n) + decimal_text(v) =~= s);
        }
    }
}

/// What reads as a `u64`: exactly the texts that are an optional plus sign, any
/// number of zeros, and the digits of the number.
pub proof fn law_what_reads_as_u64(s: Seq<char>, value: u64)
    ensures
        read_u64(s) == Some(value) <==> exists|n: nat|
            s == #[trigger] zeros(n) + decimal_text(value as nat) || s == seq!['+'] + (zeros(n)
                + decimal_text(value as nat)),
{
    let digits = unsigned_part(s, set!['+']);
    law_decimal_text_has_its_value(value as nat);
    if read_u64(s) == Some(value) {
        lemma_digits_are_zeros_and_text(digits);
        let n = choose|n: nat| digits == #[trigger] zeros(n) + decimal_text(value as nat);
        assert(digits == zeros(n) + decimal_text(value as nat));
        if s.len() > 0 && s[0] == '+' {
            assert(s =~= seq!['+'] + digits);
        }
    }
    if exists|n: nat|
        s == #[trigger] zeros(n) + decimal_text(value as nat) || s == seq!['+'] + (zeros(n)
            + decimal_text(value as nat)) {
        let n = choose|n: nat|
            s == #[trigger] zeros(n) + decimal_text(value as nat) || s == seq!['+'] + (zeros(n)
                + decimal_text(value as nat));
        let d = zeros(n) + decimal_text(value as nat);
        lemma_padded_digits(n, value as nat);
        assert(is_digit(d[0]));
        if s == d {
            assert(digits == d);
        } else {
            assert((seq!['+'] + d).skip(1) =~= d);
            assert(s[0] == '+');
            assert(set!['+'].contains('+'));
            assert(digits == d);
        }
    }
}

proof fn lemma_padded_digits(n: nat, value: nat)
    ensures
        all_digits(zeros(n) + decimal_text(value)),
        decimal_value(zeros(n) + decimal_text(value)) == value,
{
    let text = decimal_text(value);
    let d = zeros(n) + text;
    law_decimal_text_has_its_value(value);
    lemma_decimal_value_of_zeros(n, text);
    assert forall|i: int| 0 <= i < d.len() implies is_digit(#[trigger] d[i]) by {
        if i >= n {
            assert(d[i] == text[i - n]);
        }
    }
}

/// What reads as an `i64`: exactly the texts that are a sign or none, any number
/// of zeros, and the digits of the magnitude; the minus sign stands before
/// negative numbers and may stand before zero.
pub proof fn law_what_reads_as_i64(s: Seq<char>, value: i64)
    ensures
        read_i64(s) == Some(value) <==> exists|n: nat|
            {
                let magnitude = if value < 0 {
                    -value
                } else {
                    value as int
                };
                let digits = #[trigger] zeros(n) + decimal_text(magnitude as nat);
                ||| value >= 0 && s == digits
                ||| value >= 0 && s == seq!['+'] + digits
                ||| value <= 0 && s == seq!['-'] + digits
            },
{
    let magnitude = if value < 0 {
        -value
    } else {
        value as int
    };
    let part = unsigned_part(s, set!['+', '-']);
    assert(set!['+', '-'].contains('+'));
    assert(set!['+', '-'].contains('-'));
    assert(forall|c: char| set!['+', '-'].contains(c) ==> c == '+' || c == '-');
    if read_i64(s) == Some(value) {
        assert(decimal_value(part) == magnitude);
        lemma_digits_are_zeros_and_text(part);
        let n = choose|n: nat| part == #[trigger] zeros(n) + decimal_text(magnitude as nat);
        let digits = zeros(n) + decimal_text(magnitude as nat);
        assert(part == digits);
        if s.len() > 0 && (s[0] == '+' || s[0] == '-') {
            assert(s =~= seq![s[0]] + part);
        }
    }
    if exists|n: nat|
        {
            let digits = #[trigger] zeros(n) + decimal_text(magnitude as nat);
            ||| value >= 0 && s == digits
            ||| value >= 0 && s == seq!['+'] + digits
            ||| value <= 0 && s == seq!['-'] + digits
        } {
        let n = choose|n: nat|
            {
                let digits = #[trigger] zeros(n) + decimal_text(magnitude as nat);
                ||| value >= 0 && s == digits
                ||| value >= 0 && s == seq!['+'] + digits
                ||| value <= 0 && s == seq!['-'] + digits
            };
        let digits = zeros(n) + decimal_text(magnitude as nat);
        lemma_padded_digits(n, magnitude as nat);
        assert(is_digit(digits[0]));
        assert((seq!['+'] + digits).skip(1) =~= digits);
        assert((seq!['-'] + digits).skip(1) =~= digits);
        assert(part == digits);
    }
}

/// A digit put behind others counts once, and they count ten times as much.
pub proof fn law_value_of_an_appended_digit(s: Seq<char>, digit: char)
    requires
        is_digit(digit),
    ensures
        decimal_value(Seq::empty()) == 0,
        decimal_value(s.push(digit)) == 10 * decimal_value(s) + (digit as int - 0x30),
        0 <= digit as int - 0x30 <= 9,
{
    assert(s.push(digit).drop_last() =~= s);
}

} // verus!
