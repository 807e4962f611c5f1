//! Recognition and reading of decimal numbers in text.

use vstd::prelude::*;
use crate::text::chars_of;

verus! {

/// Whether `c` is one of the ten decimal digits.
pub open spec fn is_digit(c: char) -> bool {
    '0' <= c && c <= '9'
}

/// Whether `c` is a plus or a minus sign.
pub open spec fn is_sign(c: char) -> bool {
    c == '+' || c == '-'
}

/// Whether `c` introduces an exponent.
pub open spec fn is_exponent_mark(c: char) -> bool {
    c == 'e' || c == 'E'
}

/// The number that the digit `c` stands for.
pub open spec fn digit_value(c: char) -> int {
    c as u32 - '0' as u32
}

/// Whether every element of `s` is a decimal digit.
pub open spec fn all_digits(s: Seq<char>) -> bool {
    forall|i: int| 0 <= i < s.len() ==> is_digit(#[trigger] s[i])
}

/// The number of leading decimal digits of `s`.
pub open spec fn digit_run(s: Seq<char>) -> nat
    decreases s.len(),
{
    if s.len() == 0 || !is_digit(s[0]) {
        0
    } else {
        1 + digit_run(s.drop_first())
    }
}

/// The number that the digits `s` write in base ten.
pub open spec fn digits_value(s: Seq<char>) -> int
    decreases s.len(),
{
    if s.len() == 0 {
        0
    } else {
        digits_value(s.drop_last()) * 10 + digit_value(s.last())
    }
}

/// `s` without its leading sign, if it has one.
pub open spec fn strip_sign(s: Seq<char>) -> Seq<char> {
    if s.len() > 0 && is_sign(s[0]) {
        s.skip(1)
    } else {
        s
    }
}

/// Whether `s` is an exponent: the mark, an optional sign, and at least one
/// digit.
pub open spec fn is_exponent(s: Seq<char>) -> bool {
    &&& s.len() > 0
    &&& is_exponent_mark(s[0])
    &&& strip_sign(s.skip(1)).len() > 0
    &&& all_digits(strip_sign(s.skip(1)))
}

/// Whether `s` is what may follow the digits of a decimal number: nothing, or
/// an exponent.
pub open spec fn is_decimal_tail(s: Seq<char>) -> bool {
    s.len() == 0 || is_exponent(s)
}

/// Whether `s` writes a decimal number without a sign: digits, which a single
/// point may precede, follow or divide, and an optional exponent. At least one
/// digit stands before the exponent.
pub open spec fn is_unsigned_decimal(s: Seq<char>) -> bool {
    let whole = digit_run(s);
    let rest = s.skip(whole as int);
    if rest.len() > 0 && rest[0] == '.' {
        let fraction = digit_run(rest.skip(1));
        whole + fraction >= 1 && is_decimal_tail(rest.skip(1 + fraction as int))
    } else {
        whole >= 1 && is_decimal_tail(rest)
    }
}

/// Whether `s` writes a decimal number: an optional sign, then a decimal
/// number without one.
pub open spec fn is_decimal(s: Seq<char>) -> bool {
    is_unsigned_decimal(strip_sign(s))
}

/// The integer that `s` writes: an optional sign and at least one digit, with
/// nothing before, between or after. `None` where `s` is not of that form.
pub open spec fn parse_int(s: Seq<char>) -> Option<int> {
    let digits = strip_sign(s);
    if digits.len() > 0 && all_digits(digits) {
        if s[0] == '-' {
            Some(-digits_value(digits))
        } else {
            Some(digits_value(digits))
        }
    } else {
        None
    }
}

/// `k` digits followed by something else, or by the end of `s`, are exactly
/// the leading digits of `s`.
pub proof fn lemma_digit_run_is(s: Seq<char>, k: int)
    requires
        0 <= k <= s.len(),
        forall|j: int| 0 <= j < k ==> is_digit(s[j]),
        k < s.len() ==> !is_digit(s[k]),
    ensures
        digit_run(s) == k,
    decreases k,
{
    if k > 0 {
        let t = s.drop_first();
        assert forall|j: int| 0 <= j < k - 1 implies is_digit(t[j]) by {
            assert(t[j] == s[j + 1]);
        }
        lemma_digit_run_is(t, k - 1);
    }
}

/// The leading digits of `s` are digits, and what follows them is not.
pub proof fn lemma_digit_run_bounds(s: Seq<char>)
    ensures
        digit_run(s) <= s.len(),
        forall|j: int| 0 <= j < digit_run(s) ==> is_digit(s[j]),
        digit_run(s) < s.len() ==> !is_digit(s[digit_run(s) as int]),
    decreases s.len(),
{
    if s.len() != 0 && is_digit(s[0]) {
        let t = s.drop_first();
        lemma_digit_run_bounds(t);
        assert forall|j: int| 0 <= j < digit_run(s) implies is_digit(s[j]) by {
            if j > 0 {
                assert(s[j] == t[j - 1]);
            }
        }
        if digit_run(s) < s.len() {
            assert(s[digit_run(s) as int] == t[digit_run(t) as int]);
        }
    }
}

/// A sequence is all digits exactly when its leading digits are all of it.
pub proof fn lemma_all_digits_is_full_run(s: Seq<char>)
    ensures
        all_digits(s) <==> digit_run(s) == s.len(),
{
    lemma_digit_run_bounds(s);
    if all_digits(s) {
        lemma_digit_run_is(s, s.len() as int);
    }
}

/// The value of a run of digits is never negative, and at least that of each
/// of its prefixes.
pub proof fn lemma_digits_value_grows(s: Seq<char>, k: int)
    requires
        0 <= k <= s.len(),
        all_digits(s),
    ensures
        0 <= digits_value(s.take(k)) <= digits_value(s),
    decreases s.len(),
{
    if s.len() == 0 {
        assert(s.take(k) =~= s);
    } else {
        let front = s.drop_last();
        assert(is_digit(s[s.len() - 1]));
        lemma_digits_value_grows(front, front.len() as int);
        assert(front.take(front.len() as int) =~= front);
        if k == s.len() {
            assert(s.take(k) =~= s);
        } else {
            assert(s.take(k) =~= front.take(k));
            lemma_digits_value_grows(front, k);
        }
    }
}

/// Whether `c` is a decimal digit.
fn digit(c: char) -> (yes: bool)
    ensures
        yes == is_digit(c),
{
    '0' <= c && c <= '9'
}

/// The end of the digits of `v` that start at `from`.
fn skip_digits(v: &Vec<char>, from: usize) -> (to: usize)
    requires
        from <= v.len(),
    ensures
        from <= to <= v.len(),
        to - from == digit_run(v@.skip(from as int)),
{
    let mut to = from;
    while to < v.len() && digit(v[to])
        invariant
            from <= to <= v.len(),
            forall|j: int| from <= j < to ==> is_digit(v@[j]),
        decreases v.len() - to,
    {
        to += 1;
    }
    proof {
        let rest = v@.skip(from as int);
        assert forall|j: int| 0 <= j < to - from implies is_digit(rest[j]) by {
            assert(rest[j] == v@[from + j]);
        }
        lemma_digit_run_is(rest, to - from);
    }
    to
}

/// The end of the sign of `v` at `from`, if one stands there.
fn skip_sign(v: &Vec<char>, from: usize) -> (to: usize)
    requires
        from <= v.len(),
    ensures
        from <= to <= v.len(),
        v@.skip(to as int) == strip_sign(v@.skip(from as int)),
{
    let to = if from < v.len() && (v[from] == '+' || v[from] == '-') {
        from + 1
    } else {
        from
    };
    assert(v@.skip(to as int) =~= strip_sign(v@.skip(from as int)));
    to
}

/// Whether what stands in `v` from `from` on is nothing or an exponent.
fn decimal_tail_at(v: &Vec<char>, from: usize) -> (yes: bool)
    requires
        from <= v.len(),
    ensures
        yes == is_decimal_tail(v@.skip(from as int)),
{
    let n = v.len();
    if from == n {
        return true;
    }
    let ghost tail = v@.skip(from as int);
    assert(tail[0] == v@[from as int]);
    if !(v[from] == 'e' || v[from] == 'E') {
        return false;
    }
    assert(tail.skip(1) =~= v@.skip(from + 1));
    let begin = skip_sign(v, from + 1);
    let end = skip_digits(v, begin);
    proof {
        lemma_all_digits_is_full_run(v@.skip(begin as int));
    }
    begin < n && end == n
}

/// Whether what stands in `v` from `from` on is a decimal number without a
/// sign.
fn unsigned_decimal_at(v: &Vec<char>, from: usize) -> (yes: bool)
    requires
        from <= v.len(),
    ensures
        yes == is_unsigned_decimal(v@.skip(from as int)),
{
    let n = v.len();
    let whole_end = skip_digits(v, from);
    let ghost s = v@.skip(from as int);
    let ghost rest = s.skip(whole_end - from);
    assert(rest =~= v@.skip(whole_end as int));
    if whole_end < n && v[whole_end] == '.' {
        assert(rest[0] == v@[whole_end as int]);
        assert(rest.skip(1) =~= v@.skip(whole_end + 1));
        let fraction_end = skip_digits(v, whole_end + 1);
        assert(rest.skip(1 + (fraction_end - (whole_end + 1))) =~= v@.skip(fraction_end as int));
        let tail = decimal_tail_at(v, fraction_end);
        (whole_end - from) + (fraction_end - (whole_end + 1)) >= 1 && tail
    } else {
        assert(rest.len() > 0 ==> rest[0] == v@[whole_end as int]);
        let tail = decimal_tail_at(v, whole_end);
        whole_end - from >= 1 && tail
    }
}

/// Whether `text` writes a decimal number.
pub fn is_decimal_text(text: &str) -> (yes: bool)
    ensures
        yes == is_decimal(text@),
{
    let v = chars_of(text);
    assert(v@.skip(0) =~= v@);
    let begin = skip_sign(&v, 0);
    unsigned_decimal_at(&v, begin)
}

/// The largest magnitude that reading digits keeps track of: no `isize` lies
/// further from zero.
pub const MAGNITUDE_LIMIT: i128 = 0x8000_0000_0000_0000;

/// The value of the digits that stand in `v` from `from` on, where they are
/// all digits and their value is at most `MAGNITUDE_LIMIT`.
fn read_digits(v: &Vec<char>, from: usize) -> (out: Option<i128>)
    requires
        from <= v.len(),
    ensures
        match out {
            Some(value) => all_digits(v@.skip(from as int)) && value == digits_value(
                v@.skip(from as int),
            ) && 0 <= value <= MAGNITUDE_LIMIT,
            None => all_digits(v@.skip(from as int)) ==> digits_value(v@.skip(from as int))
                > MAGNITUDE_LIMIT,
        },
{
    let n = v.len();
    let ghost digits = v@.skip(from as int);
    let mut total: i128 = 0;
    let mut i = from;
    proof {
        assert(digits.take(0) =~= Seq::empty());
    }
    while i < n
        invariant
            from <= i <= n,
            n == v.len(),
            digits == v@.skip(from as int),
            forall|j: int| 0 <= j < i - from ==> is_digit(#[trigger] digits[j]),
            total == digits_value(digits.take(i - from)),
            0 <= total <= MAGNITUDE_LIMIT,
        decreases n - i,
    {
        let c = v[i];
        assert(digits[i - from] == c);
        if !digit(c) {
            return None;
        }
        let d = (c as u32 - '0' as u32) as i128;
        proof {
            let next = digits.take(i - from + 1);
            assert(next.drop_last() =~= digits.take(i - from));
            assert(next.last() == c);
        }
        total = total * 10 + d;
        i += 1;
        if total > MAGNITUDE_LIMIT {
            proof {
                if all_digits(digits) {
                    lemma_digits_value_grows(digits, i - from);
                }
            }
            return None;
        }
    }
    proof {
        assert(digits.take(i - from) =~= digits);
    }
    Some(total)
}

/// The integer that `text` writes, where it writes one that an `isize` holds.
pub fn parse_isize(text: &str) -> (out: Option<isize>)
    ensures
        match parse_int(text@) {
            Some(value) => if isize::MIN <= value <= isize::MAX {
                out == Some(value as isize)
            } else {
                out is None
            },
            None => out is None,
        },
{
    let v = chars_of(text);
    let n = v.len();
    assert(v@.skip(0) =~= v@);
    let begin = skip_sign(&v, 0);
    if begin == n {
        return None;
    }
    let negative = v[0] == '-';
    match read_digits(&v, begin) {
        Some(total) => {
            let value = if negative { -total } else { total };
            if value < isize::MIN as i128 || value > isize::MAX as i128 {
                None
            } else {
                Some(value as isize)
            }
        },
        None => None,
    }
}

} // verus!
