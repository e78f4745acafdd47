//! Whole numbers as a numeric domain: 64-bit integers with exact
//! arithmetic. An operation whose result is no 64-bit integer is undefined
//! rather than wrapped or rounded.

use crate::calculator::number::Number;
use crate::calculator::token::operator::Operator;
use crate::text::to_chars;
use vstd::prelude::*;
use vstd::string::StringExecFns;

verus! {

/// Whether `c` is one of the ten decimal digits.
pub open spec fn is_digit(c: char) -> bool {
    '0' <= c <= '9'
}

/// The value of the decimal digit `c`.
pub open spec fn digit_value(c: char) -> int {
    c as int - '0' as int
}

/// The decimal digit for `value`.
pub open spec fn digit_char(value: int) -> char {
    if value == 0 {
        '0'
    } else if value == 1 {
        '1'
    } else if value == 2 {
        '2'
    } else if value == 3 {
        '3'
    } else if value == 4 {
        '4'
    } else if value == 5 {
        '5'
    } else if value == 6 {
        '6'
    } else if value == 7 {
        '7'
    } else if value == 8 {
        '8'
    } else {
        '9'
    }
}

/// Whether `digits` is a run of decimal digits, at least one.
pub open spec fn is_numeral(digits: Seq<char>) -> bool {
    digits.len() > 0 && forall|i: int| 0 <= i < digits.len() ==> is_digit(#[trigger] digits[i])
}

/// The number that the decimal digits `digits` spell.
pub open spec fn numeral_value(digits: Seq<char>) -> int
    decreases digits.len(),
{
    if digits.len() == 0 {
        0
    } else {
        10 * numeral_value(digits.drop_last()) + digit_value(digits.last())
    }
}

/// The integer that `text` spells: decimal digits, after a minus sign its
/// negative.
pub open spec fn integer_of(text: Seq<char>) -> Option<int> {
    if text.len() > 0 && text[0] == '-' {
        if is_numeral(text.skip(1)) {
            Some(-numeral_value(text.skip(1)))
        } else {
            None
        }
    } else if is_numeral(text) {
        Some(numeral_value(text))
    } else {
        None
    }
}

/// The decimal digits of `value`, without leading zeros.
pub open spec fn numeral_of(value: nat) -> Seq<char>
    decreases value,
{
    if value < 10 {
        seq![digit_char(value as int)]
    } else {
        numeral_of(value / 10).push(digit_char((value % 10) as int))
    }
}

/// `base` multiplied with itself `exponent` times.
pub open spec fn raised(base: int, exponent: nat) -> int
    decreases exponent,
{
    if exponent == 0 {
        1
    } else {
        base * raised(base, (exponent - 1) as nat)
    }
}

/// Whether `value` is a 64-bit integer.
pub open spec fn fits(value: int) -> bool {
    i64::MIN <= value <= i64::MAX
}

/// The absolute value of `value`.
pub open spec fn magnitude(value: int) -> int {
    if value < 0 {
        -value
    } else {
        value
    }
}

/// A longer numeral is worth no less than the numeral it begins with.
pub proof fn lemma_numeral_grows(digits: Seq<char>, n: int)
    requires
        0 <= n <= digits.len(),
        forall|i: int| 0 <= i < digits.len() ==> is_digit(#[trigger] digits[i]),
    ensures
        0 <= numeral_value(digits.take(n)) <= numeral_value(digits),
    decreases digits.len() - n,
{
    lemma_numeral_positive(digits.take(n));
    if n < digits.len() {
        assert(digits.take(n + 1).drop_last() =~= digits.take(n));
        assert(is_digit(digits[n]));
        lemma_numeral_grows(digits, n + 1);
    } else {
        assert(digits.take(n) =~= digits);
    }
}

/// A numeral is worth nothing negative.
pub proof fn lemma_numeral_positive(digits: Seq<char>)
    requires
        forall|i: int| 0 <= i < digits.len() ==> is_digit(#[trigger] digits[i]),
    ensures
        0 <= numeral_value(digits),
    decreases digits.len(),
{
    if digits.len() > 0 {
        assert(is_digit(digits[digits.len() - 1]));
        assert forall|i: int| 0 <= i < digits.drop_last().len() implies is_digit(
            #[trigger] digits.drop_last()[i],
        ) by {
            assert(digits.drop_last()[i] == digits[i]);
        }
        lemma_numeral_positive(digits.drop_last());
    }
}

/// Powers of a base of magnitude two or more at least double from one
/// exponent to the next, and are never zero.
pub proof fn lemma_raised_doubles(base: int, lower: nat, upper: nat)
    requires
        magnitude(base) >= 2,
        lower <= upper,
    ensures
        magnitude(raised(base, lower)) >= 1,
        lower < upper ==> magnitude(raised(base, upper)) >= 2 * magnitude(raised(base, lower)),
        magnitude(raised(base, upper)) >= magnitude(raised(base, lower)),
    decreases upper,
{
    if lower < upper {
        let before = raised(base, (upper - 1) as nat);
        lemma_raised_doubles(base, lower, (upper - 1) as nat);
        assert(magnitude(base * before) >= 2 * magnitude(before)) by (nonlinear_arith)
            requires
                magnitude(base) >= 2,
        ;
    } else if lower > 0 {
        lemma_raised_doubles(base, (lower - 1) as nat, (lower - 1) as nat);
        let before = raised(base, (lower - 1) as nat);
        assert(magnitude(base * before) >= 2 * magnitude(before)) by (nonlinear_arith)
            requires
                magnitude(base) >= 2,
        ;
    }
}

/// The powers of 0, 1 and -1.
pub proof fn lemma_raised_small(base: int, exponent: nat)
    requires
        -1 <= base <= 1,
    ensures
        raised(base, exponent) == (if exponent == 0 {
            1
        } else if base == 0 {
            0
        } else if base == 1 || exponent % 2 == 0 {
            1
        } else {
            -1
        }),
    decreases exponent,
{
    if exponent > 0 {
        lemma_raised_small(base, (exponent - 1) as nat);
        let before = raised(base, (exponent - 1) as nat);
        if base == 0 {
            assert(0 * before == 0);
        } else if base == 1 {
            assert(1 * before == before);
        } else {
            assert((-1) * before == -before);
        }
    }
}

/// The decimal digits of a number spell that number.
pub proof fn lemma_numeral_of(value: nat)
    ensures
        is_numeral(numeral_of(value)),
        numeral_value(numeral_of(value)) == value,
    decreases value,
{
    let digit = digit_char((value % 10) as int);
    assert(is_digit(digit) && digit_value(digit) == value % 10);
    if value < 10 {
        assert(seq![digit].drop_last() =~= Seq::<char>::empty());
        assert(numeral_value(seq![digit].drop_last()) == 0);
    } else {
        lemma_numeral_of(value / 10);
        let front = numeral_of(value / 10);
        assert(front.push(digit).drop_last() =~= front);
        assert forall|i: int| 0 <= i < front.push(digit).len() implies is_digit(
            #[trigger] front.push(digit)[i],
        ) by {
            if i < front.len() {
                assert(front.push(digit)[i] == front[i]);
            }
        }
    }
}

/// A lone minus is no whole number.
pub proof fn lemma_minus_is_no_number()
    ensures
        <i64 as Number>::parsed(seq!['-']) is None,
{
    assert(seq!['-'].skip(1).len() == 0);
}

/// What a whole number is shown as reads back as that number.
pub proof fn lemma_shown_number_reads_back(number: i64)
    ensures
        <i64 as Number>::parsed(number.rendered()) == Some(number),
{
    if number < 0 {
        let digits = numeral_of((-number) as nat);
        lemma_numeral_of((-number) as nat);
        let text = seq!['-'] + digits;
        assert(text.skip(1) =~= digits);
        assert(text[0] == '-');
    } else {
        let digits = numeral_of(number as nat);
        lemma_numeral_of(number as nat);
        assert(is_digit(digits[0]));
    }
}

fn digit_text(value: u8) -> (text: &'static str)
    requires
        value < 10,
    ensures
        text@ == seq![digit_char(value as int)],
{
    proof {
        reveal_strlit("0");
        reveal_strlit("1");
        reveal_strlit("2");
        reveal_strlit("3");
        reveal_strlit("4");
        reveal_strlit("5");
        reveal_strlit("6");
        reveal_strlit("7");
        reveal_strlit("8");
        reveal_strlit("9");
    }
    let text = if value == 0 {
        "0"
    } else if value == 1 {
        "1"
    } else if value == 2 {
        "2"
    } else if value == 3 {
        "3"
    } else if value == 4 {
        "4"
    } else if value == 5 {
        "5"
    } else if value == 6 {
        "6"
    } else if value == 7 {
        "7"
    } else if value == 8 {
        "8"
    } else {
        "9"
    };
    assert(text@ =~= seq![digit_char(value as int)]);
    text
}

/// Reads a run of decimal digits from `chars`, starting at `from`, as long
/// as its value stays within `limit`.
fn read_numeral(chars: &Vec<char>, from: usize, limit: u64) -> (value: Option<u64>)
    requires
        from <= chars.len(),
        limit <= 0x8000_0000_0000_0000,
    ensures
        match value {
            Some(total) => is_numeral(chars@.skip(from as int)) && total == numeral_value(
                chars@.skip(from as int),
            ) && total <= limit,
            None => !(is_numeral(chars@.skip(from as int)) && numeral_value(
                chars@.skip(from as int),
            ) <= limit),
        },
{
    let ghost digits = chars@.skip(from as int);
    if from == chars.len() {
        return None;
    }
    let mut total: u64 = 0;
    let mut i: usize = from;
    assert(digits.take(0) =~= Seq::empty());
    while i < chars.len()
        invariant
            from <= i <= chars.len(),
            digits == chars@.skip(from as int),
            limit <= 0x8000_0000_0000_0000,
            total == numeral_value(digits.take(i - from)),
            total <= limit,
            forall|j: int| 0 <= j < i - from ==> is_digit(#[trigger] digits[j]),
        decreases chars.len() - i,
    {
        let c = chars[i];
        assert(digits[i - from] == c);
        if !('0' <= c && c <= '9') {
            return None;
        }
        let digit: u64 = (c as u32 - '0' as u32) as u64;
        proof {
            assert(digits.take(i - from + 1).drop_last() =~= digits.take(i - from));
        }
        let next: u128 = total as u128 * 10 + digit as u128;
        if next > limit as u128 {
            proof {
                if is_numeral(digits) {
                    lemma_numeral_grows(digits, i - from + 1);
                }
            }
            return None;
        }
        total = next as u64;
        i += 1;
    }
    assert(digits.take(digits.len() as int) =~= digits);
    Some(total)
}

impl Number for i64 {
    /// Decimal digits, with a minus sign in front for a negative number.
    open spec fn parsed(text: Seq<char>) -> Option<i64> {
        match integer_of(text) {
            Some(value) => if fits(value) {
                Some(value as i64)
            } else {
                None
            },
            None => None,
        }
    }

    fn parse(text: &str) -> (number: Option<i64>) {
        let chars = to_chars(text);
        if chars.len() > 0 && chars[0] == '-' {
            match read_numeral(&chars, 1, 0x8000_0000_0000_0000) {
                Some(value) => {
                    if value == 0x8000_0000_0000_0000 {
                        Some(i64::MIN)
                    } else {
                        Some(-(value as i64))
                    }
                },
                None => None,
            }
        } else {
            assert(chars@.skip(0) =~= chars@);
            match read_numeral(&chars, 0, 0x7fff_ffff_ffff_ffff) {
                Some(value) => Some(value as i64),
                None => None,
            }
        }
    }

    /// Sums, differences, products and powers are defined where they are
    /// 64-bit integers, a power for no negative exponent. A quotient is cut
    /// off towards zero and undefined for a zero divisor.
    open spec fn applied(op: Operator, a: i64, b: i64) -> Option<i64> {
        match op {
            Operator::Addition => a.checked_add(b),
            Operator::Subtraction => a.checked_sub(b),
            Operator::Multiplication => a.checked_mul(b),
            Operator::Division => a.checked_div(b),
            Operator::Exponent => if b >= 0 && fits(raised(a as int, b as nat)) {
                Some(raised(a as int, b as nat) as i64)
            } else {
                None
            },
            _ => None,
        }
    }

    fn apply(op: Operator, a: i64, b: i64) -> (value: Option<i64>) {
        match op {
            Operator::Addition => a.checked_add(b),
            Operator::Subtraction => a.checked_sub(b),
            Operator::Multiplication => a.checked_mul(b),
            Operator::Division => a.checked_div(b),
            Operator::Exponent => power(a, b),
            _ => None,
        }
    }

    /// Decimal digits without leading zeros, with a minus sign in front for
    /// a negative number.
    open spec fn rendered(&self) -> Seq<char> {
        if *self < 0 {
            seq!['-'] + numeral_of((-*self) as nat)
        } else {
            numeral_of(*self as nat)
        }
    }

    fn render(&self) -> (text: String) {
        let wide: i128 = *self as i128;
        let mut rest: u64 = if wide < 0 {
            (-wide) as u64
        } else {
            wide as u64
        };
        let ghost whole = rest as nat;
        let mut digits: Vec<u8> = Vec::new();
        let ghost mut tail: Seq<char> = Seq::empty();
        loop
            invariant_except_break
                numeral_of(whole) == numeral_of(rest as nat) + tail,
            invariant
                digits.len() == tail.len(),
                forall|j: int|
                    0 <= j < digits.len() ==> digits[j] < 10 && tail[digits.len() - 1 - j]
                        == digit_char(#[trigger] digits[j] as int),
            ensures
                numeral_of(whole) == tail,
                digits.len() > 0,
            decreases rest,
        {
            let digit: u8 = (rest % 10) as u8;
            let ghost before = tail;
            digits.push(digit);
            proof {
                tail = seq![digit_char(digit as int)] + before;
                assert forall|j: int| 0 <= j < digits.len() implies digits[j] < 10 && tail[
                    digits.len() - 1 - j] == digit_char(#[trigger] digits[j] as int) by {
                    if j < digits.len() - 1 {
                        assert(tail[digits.len() - 1 - j] == before[digits.len() - 2 - j]);
                    }
                }
            }
            if rest < 10 {
                assert(numeral_of(rest as nat) + before =~= tail);
                break ;
            }
            assert(numeral_of(rest as nat) + before =~= numeral_of((rest / 10) as nat) + tail);
            rest = rest / 10;
        }
        let mut text = if wide < 0 {
            String::from_str("-")
        } else {
            String::new()
        };
        proof {
            reveal_strlit("-");
            assert("-"@ =~= seq!['-']);
        }
        let ghost sign = text@;
        let mut i: usize = digits.len();
        while i > 0
            invariant
                i <= digits.len(),
                digits.len() == tail.len(),
                text@ =~= sign + tail.take(digits.len() - i),
                forall|j: int|
                    0 <= j < digits.len() ==> digits[j] < 10 && tail[digits.len() - 1 - j]
                        == digit_char(#[trigger] digits[j] as int),
            decreases i,
        {
            i -= 1;
            let ghost done = tail.take(digits.len() - i - 1);
            text.append(digit_text(digits[i]));
            assert(tail.take(digits.len() - i) =~= done.push(tail[digits.len() - 1 - i]));
        }
        assert(tail.take(digits.len() as int) =~= tail);
        text
    }
}

/// `base` to the power of `exponent`, where that is a 64-bit integer.
fn power(base: i64, exponent: i64) -> (value: Option<i64>)
    ensures
        value == (if exponent >= 0 && fits(raised(base as int, exponent as nat)) {
            Some(raised(base as int, exponent as nat) as i64)
        } else {
            None
        }),
{
    if exponent < 0 {
        return None;
    }
    if -1 <= base && base <= 1 {
        proof {
            lemma_raised_small(base as int, exponent as nat);
        }
        return Some(
            if exponent == 0 {
                1
            } else if base == 0 {
                0
            } else if base == 1 || exponent % 2 == 0 {
                1
            } else {
                -1
            },
        );
    }
    let mut result: i64 = 1;
    let mut done: i64 = 0;
    while done < exponent
        invariant
            0 <= done <= exponent,
            magnitude(base as int) >= 2,
            result == raised(base as int, done as nat),
        decreases exponent - done,
    {
        proof {
            assert(raised(base as int, (done + 1) as nat) == base * raised(
                base as int,
                done as nat,
            ));
            assert(result * base == base * result) by (nonlinear_arith);
        }
        match result.checked_mul(base) {
            Some(next) => {
                result = next;
            },
            None => {
                proof {
                    lemma_raised_doubles(base as int, (done + 1) as nat, exponent as nat);
                }
                return None;
            },
        }
        done += 1;
    }
    Some(result)
}

} // verus!
