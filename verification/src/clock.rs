//! Clock times as they are written: hours, minutes and seconds, each a decimal number.
use crate::text::{
    all_digits, chars_of, chars_range, digits_value, find_char, first_pos, is_digit, lemma_first_pos, lowered,
    parse_digits, same_text, stripped, text_of_range, to_ascii_lowercase, trim, trimmed_end,
    trimmed_start, CharClass,
};
use vstd::arithmetic::div_mod::{lemma_div_denominator, lemma_hoist_over_denominator};
use vstd::arithmetic::power::{
    lemma_pow0, lemma_pow_adds, lemma_pow_increases, lemma_pow_positive, pow,
};
use vstd::prelude::*;
use vstd::string::*;

verus! {

/// The microseconds of an hour.
pub const HOUR_US: u64 = 3_600_000_000;

/// The microseconds of a minute.
pub const MINUTE_US: u64 = 60_000_000;

/// The microseconds of a second.
pub const SECOND_US: u64 = 1_000_000;

/// The exponent above which the exact one does not matter.
const FAR: i128 = 1_000_000_000_000_000_000_000_000_000_000;

/// More than a text has digits.
const MANY: i128 = 1_000_000_000_000_000_000_000;

/// What a token says of the time.
#[derive(Debug, Clone, Copy, PartialEq, Eq, Structural)]
pub enum ClockTime {
    /// It spells no clock time.
    Nothing,
    /// It spells a time, in microseconds from the start.
    At(u64),
    /// It spells a time before the start, or one whose microseconds cannot be counted.
    OutOfRange,
}

/// A decimal number: its digits, and by how many places the decimal point stands behind them.
pub struct Numeral {
    pub negative: bool,
    pub digits: Seq<char>,
    pub shift: int,
}

/// Whether a sign stands at the front.
pub open spec fn has_sign(s: Seq<char>) -> bool {
    s.len() > 0 && (s[0] == '-' || s[0] == '+')
}

/// What stands behind the sign.
pub open spec fn unsigned(s: Seq<char>) -> Seq<char> {
    if has_sign(s) {
        s.skip(1)
    } else {
        s
    }
}

/// Where the first of two characters stands; the length where neither does.
pub open spec fn first_of(s: Seq<char>, a: char, b: char) -> nat {
    let p = first_pos(s, a);
    let q = first_pos(s, b);
    if p <= q {
        p
    } else {
        q
    }
}

/// The exponent that is written behind an `e`.
pub open spec fn exponent_of(s: Seq<char>) -> Option<int> {
    if !all_digits(unsigned(s)) {
        None
    } else if s[0] == '-' {
        Some(-digits_value(unsigned(s)))
    } else {
        Some(digits_value(unsigned(s)) as int)
    }
}

/// The decimal number that `s` spells: a sign, digits with a point or a comma among them, and an
/// exponent; only the digits have to be there.
pub open spec fn numeral_of(s: Seq<char>) -> Option<Numeral> {
    let body = unsigned(s);
    let e = first_of(body, 'e', 'E') as int;
    let mantissa = body.take(e);
    let p = first_of(mantissa, '.', ',') as int;
    let fraction = if p < mantissa.len() {
        mantissa.skip(p + 1)
    } else {
        Seq::empty()
    };
    let digits = mantissa.take(p) + fraction;
    let exponent = if e < body.len() {
        exponent_of(body.skip(e + 1))
    } else {
        Some(0)
    };
    match exponent {
        Some(x) if all_digits(digits) => Some(
            Numeral {
                negative: has_sign(s) && s[0] == '-',
                digits,
                shift: x - fraction.len(),
            },
        ),
        _ => None,
    }
}

/// Whether `s` spells a number that is not finite.
pub open spec fn is_endless(s: Seq<char>) -> bool {
    let word = lowered(unsigned(s));
    word == "inf"@ || word == "infinity"@ || word == "nan"@
}

/// How often a unit goes into a number of larger ones, `unit` to each; what is left of the unit is
/// cut off.
pub open spec fn scaled(digits: Seq<char>, shift: int, unit: int) -> int {
    let d = digits_value(digits) * unit;
    if shift >= 0 {
        d * pow(10, shift as nat)
    } else {
        d / pow(10, (-shift) as nat)
    }
}

/// What a part of a clock time counts in microseconds: nothing where it is no number, and no count
/// where there are too many.
pub open spec fn part_us(s: Seq<char>, unit: u64) -> Option<Option<int>> {
    if is_endless(s) {
        Some(None)
    } else {
        match numeral_of(s) {
            Some(n) => {
                let count = scaled(n.digits, n.shift, unit as int);
                Some(
                    if count > u64::MAX {
                        None
                    } else if n.negative {
                        Some(-count)
                    } else {
                        Some(count)
                    },
                )
            },
            None => None,
        }
    }
}

/// The time that hours, minutes and seconds make up.
pub open spec fn time_of(hours: Seq<char>, minutes: Seq<char>, seconds: Seq<char>) -> ClockTime {
    match (part_us(hours, HOUR_US), part_us(minutes, MINUTE_US), part_us(seconds, SECOND_US)) {
        (Some(h), Some(m), Some(s)) => match (h, m, s) {
            (Some(x), Some(y), Some(z)) => if 0 <= x + y + z <= u64::MAX {
                ClockTime::At((x + y + z) as u64)
            } else {
                ClockTime::OutOfRange
            },
            _ => ClockTime::OutOfRange,
        },
        _ => ClockTime::Nothing,
    }
}

/// The clock time that `token` spells as hours, minutes and seconds between colons. What stands
/// behind a third colon is not read.
pub open spec fn clock_time(token: Seq<char>) -> ClockTime {
    let t = stripped(token);
    let a = first_pos(t, ':') as int;
    let after_hours = t.skip(a + 1);
    let b = first_pos(after_hours, ':') as int;
    let after_minutes = after_hours.skip(b + 1);
    let c = first_pos(after_minutes, ':') as int;
    if a >= t.len() || b >= after_hours.len() {
        ClockTime::Nothing
    } else {
        time_of(t.take(a), after_hours.take(b), after_minutes.take(c))
    }
}

/// Whether `s` is made of decimal digits; it may be empty.
spec fn only_digits(s: Seq<char>) -> bool {
    forall|i: int| 0 <= i < s.len() ==> is_digit(#[trigger] s[i])
}

/// Digits in a row spell the number of the first, moved by the count of the others, and the number
/// of these.
proof fn lemma_digits_concat(a: Seq<char>, b: Seq<char>)
    ensures
        digits_value(a + b) == digits_value(a) * pow(10, b.len()) + digits_value(b),
    decreases b.len(),
{
    if b.len() == 0 {
        assert(a + b =~= a);
        lemma_pow0(10);
    } else {
        let c = b.drop_last();
        lemma_digits_concat(a, c);
        assert((a + b).drop_last() =~= a + c);
        assert((a + b).last() == b.last());
        lemma_pow_adds(10, c.len(), 1);
        vstd::arithmetic::power::lemma_pow1(10);
        let p = pow(10, c.len());
        let x = digits_value(a);
        assert((x * p) * 10 == x * (p * 10)) by (nonlinear_arith);
    }
}

/// Digits spell a number below the power of ten of their count.
proof fn lemma_digits_bound(s: Seq<char>)
    requires
        only_digits(s),
    ensures
        digits_value(s) < pow(10, s.len()),
    decreases s.len(),
{
    if s.len() == 0 {
        lemma_pow0(10);
    } else {
        let t = s.drop_last();
        assert forall|i: int| 0 <= i < t.len() implies is_digit(#[trigger] t[i]) by {
            assert(t[i] == s[i]);
        }
        lemma_digits_bound(t);
        assert(is_digit(s[s.len() - 1]));
        lemma_pow_adds(10, t.len(), 1);
        vstd::arithmetic::power::lemma_pow1(10);
    }
}

/// Putting a digit before a decimal fraction.
proof fn lemma_fraction_step(d: int, x: int, q: int, unit: int)
    requires
        0 <= d,
        0 <= x,
        0 < q,
        0 < unit,
    ensures
        ((d * q + x) * unit) / (q * 10) == (d * unit + (x * unit) / q) / 10,
{
    let c = d * unit;
    let y = x * unit;
    assert(0 <= y) by (nonlinear_arith)
        requires
            y == x * unit,
            0 <= x,
            0 < unit,
    ;
    assert(0 <= c * q) by (nonlinear_arith)
        requires
            c == d * unit,
            0 <= d,
            0 < unit,
            0 < q,
    ;
    assert((d * q + x) * unit == y + c * q) by (nonlinear_arith)
        requires
            c == d * unit,
            y == x * unit,
    ;
    lemma_hoist_over_denominator(y, c, q as nat);
    lemma_div_denominator(y + c * q, q, 10);
}

/// How often the unit goes into the fraction that the digits from `from` on spell.
fn count_fraction(v: &Vec<char>, from: usize, unit: u64) -> (r: u64)
    requires
        from <= v@.len(),
        only_digits(v@),
        0 < unit <= HOUR_US,
    ensures
        r == (digits_value(v@.skip(from as int)) * unit) / pow(10, (v@.len() - from) as nat),
        r < unit,
{
    let mut i: usize = v.len();
    let mut r: u64 = 0;
    proof {
        assert(v@.skip(i as int) =~= Seq::<char>::empty());
        lemma_pow0(10);
        assert(0 * unit == 0) by (nonlinear_arith);
    }
    while i > from
        invariant
            from <= i <= v@.len(),
            only_digits(v@),
            0 < unit <= HOUR_US,
            r == (digits_value(v@.skip(i as int)) * unit) / pow(10, (v@.len() - i) as nat),
            r < unit,
        decreases i,
    {
        let ghost rest = v@.skip(i as int);
        let ghost first = seq![v@[i - 1]];
        assert(is_digit(v@[i - 1]));
        let d: u8 = v[i - 1] as u8 - 48;
        proof {
            let n = rest.len();
            assert(v@.skip(i - 1) =~= first + rest);
            lemma_digits_concat(first, rest);
            assert(first.drop_last() =~= Seq::<char>::empty());
            assert(digits_value(first.drop_last()) == 0);
            assert(digits_value(first) == d);
            lemma_pow_positive(10, n);
            lemma_pow_adds(10, n, 1);
            vstd::arithmetic::power::lemma_pow1(10);
            lemma_fraction_step(
                d as int,
                digits_value(rest) as int,
                pow(10, n),
                unit as int,
            );
            assert(d * unit <= 9 * unit) by (nonlinear_arith)
                requires
                    d <= 9,
            ;
        }
        r = (d as u64 * unit + r) / 10;
        i -= 1;
    }
    r
}

/// How often the unit goes into a whole number, moved by `shift` places; `None` where that is too
/// often.
fn count_whole(v: &Vec<char>, shift: usize, unit: u64) -> (r: Option<u64>)
    requires
        all_digits(v@),
        shift <= 20,
        SECOND_US <= unit <= HOUR_US,
    ensures
        match r {
            Some(n) => n == scaled(v@, shift as int, unit as int),
            None => scaled(v@, shift as int, unit as int) > u64::MAX,
        },
{
    let ghost d0 = digits_value(v@) as int;
    let ghost p = pow(10, shift as nat);
    proof {
        lemma_pow_positive(10, shift as nat);
        lemma_product_grows(d0, unit as int, p);
    }
    let d: u64 = match parse_digits(v, 1_000_000_000_000_000_000) {
        None => {
            return None;
        },
        Some(d) => d,
    };
    let ghost du = d0 * unit;
    proof {
        lemma_pow0(10);
        assert(0 <= du <= 1_000_000_000_000_000_000 * HOUR_US) by (nonlinear_arith)
            requires
                du == d0 * unit,
                0 <= d0 <= 1_000_000_000_000_000_000,
                0 <= unit <= HOUR_US,
        ;
        assert(du * 1 == du);
    }
    let mut n: u128 = d as u128 * unit as u128;
    let mut k: usize = 0;
    while k < shift
        invariant
            k <= shift <= 20,
            0 <= du,
            du == d0 * unit,
            d0 == digits_value(v@),
            n == du * pow(10, k as nat),
            n <= 3_600_000_000_000_000_000_000_000_000,
        decreases shift - k,
    {
        proof {
            lemma_pow_adds(10, k as nat, 1);
            vstd::arithmetic::power::lemma_pow1(10);
            let q = pow(10, k as nat);
            assert(du * (q * 10) == (du * q) * 10) by (nonlinear_arith);
        }
        if n > u64::MAX as u128 {
            proof {
                lemma_pow_increases(10, k as nat, shift as nat);
                let q = pow(10, k as nat);
                let w = pow(10, shift as nat);
                assert(du * q <= du * w) by (nonlinear_arith)
                    requires
                        du >= 0,
                        q <= w,
                ;
            }
            return None;
        }
        n = n * 10;
        k += 1;
    }
    if n > u64::MAX as u128 {
        return None;
    }
    Some(n as u64)
}

/// A product is at least as large as each of its factors.
proof fn lemma_product_grows(a: int, b: int, c: int)
    requires
        a >= 0,
        b >= 1_000_000,
        c >= 1,
    ensures
        (a * b) * c >= a * 1_000_000,
        a >= 1 ==> (a * b) * c >= c,
        a == 0 ==> (a * b) * c == 0,
{
    assert((a * b) * c >= a * 1_000_000 && (a >= 1 ==> (a * b) * c >= c) && (a == 0 ==> (a * b) * c
        == 0)) by (nonlinear_arith)
        requires
            a >= 0,
            b >= 1_000_000,
            c >= 1,
    ;
}

/// Where a number is moved by twenty places or more, it is nothing or too large.
proof fn lemma_far_up(digits: Seq<char>, shift: int, unit: int)
    requires
        shift >= 20,
        unit >= SECOND_US,
    ensures
        digits_value(digits) == 0 ==> scaled(digits, shift, unit) == 0,
        digits_value(digits) > 0 ==> scaled(digits, shift, unit) > u64::MAX,
{
    lemma_pow_increases(10, 20, shift as nat);
    assert(pow(10, 20) > u64::MAX) by {
        reveal_with_fuel(pow, 21);
    }
    lemma_product_grows(digits_value(digits) as int, unit, pow(10, shift as nat));
}

/// Where a number is moved down by ten places more than it has digits, nothing of it is left.
proof fn lemma_far_down(digits: Seq<char>, shift: int, unit: int)
    requires
        only_digits(digits),
        shift <= -(digits.len() + 10),
        0 < unit <= HOUR_US,
    ensures
        scaled(digits, shift, unit) == 0,
{
    let n = digits.len();
    let d = digits_value(digits) as int;
    let p = pow(10, n);
    lemma_digits_bound(digits);
    lemma_pow_adds(10, n, 10);
    lemma_pow_increases(10, n + 10, (-shift) as nat);
    assert(pow(10, 10) == 10_000_000_000) by {
        reveal_with_fuel(pow, 11);
    }
    assert(0 <= d * unit < p * 10_000_000_000) by (nonlinear_arith)
        requires
            0 <= d < p,
            0 < unit <= 3_600_000_000,
    ;
    vstd::arithmetic::div_mod::lemma_basic_div(d * unit, pow(10, (-shift) as nat));
}

/// Where the point stands among the digits, those before it are whole and those behind it a
/// fraction.
proof fn lemma_point_within(digits: Seq<char>, whole: nat, unit: int)
    requires
        only_digits(digits),
        whole <= digits.len(),
        0 < unit,
    ensures
        ({
            let m = (digits.len() - whole) as nat;
            let fraction = digits.skip(whole as int);
            (digits_value(digits) * unit) / pow(10, m) == digits_value(digits.take(whole as int))
                * unit + (digits_value(fraction) * unit) / pow(10, m)
        }),
{
    let m = (digits.len() - whole) as nat;
    let head = digits.take(whole as int);
    let fraction = digits.skip(whole as int);
    assert(head + fraction =~= digits);
    lemma_digits_concat(head, fraction);
    lemma_pow_positive(10, m);
    let a = digits_value(head) as int;
    let b = digits_value(fraction) as int;
    let q = pow(10, m);
    assert((a * q + b) * unit == b * unit + (a * unit) * q) by (nonlinear_arith);
    lemma_hoist_over_denominator(b * unit, a * unit, q as nat);
}

/// Whether a shift is the exact one, or both are beyond all digits on the same side.
spec fn stands_for(shift: i128, exact: int) -> bool {
    ||| shift == exact
    ||| shift >= MANY && exact >= MANY
    ||| shift <= -MANY && exact <= -MANY
}

/// How often the unit goes into a number; `None` where that is too often.
fn count_number(v: &Vec<char>, shift: i128, Ghost(exact): Ghost<int>, unit: u64) -> (r: Option<u64>)
    requires
        all_digits(v@),
        stands_for(shift, exact),
        -2 * FAR <= shift <= 2 * FAR,
        SECOND_US <= unit <= HOUR_US,
    ensures
        match r {
            Some(n) => n == scaled(v@, exact, unit as int),
            None => scaled(v@, exact, unit as int) > u64::MAX,
        },
{
    let len: usize = v.len();
    if shift >= 0 {
        let up: usize = if shift >= 20 {
            20
        } else {
            shift as usize
        };
        proof {
            if shift >= 20 {
                lemma_far_up(v@, exact, unit as int);
                lemma_far_up(v@, 20, unit as int);
            }
        }
        return count_whole(v, up, unit);
    }
    let down: i128 = -shift;
    if down >= len as i128 + 10 {
        proof {
            lemma_far_down(v@, exact, unit as int);
        }
        return Some(0);
    }
    if down <= len as i128 {
        let whole: usize = len - down as usize;
        proof {
            lemma_point_within(v@, whole as nat, unit as int);
        }
        let fraction: u64 = count_fraction(v, whole, unit);
        if whole == 0 {
            assert(v@.take(0).len() == 0);
            assert(0 * unit == 0) by (nonlinear_arith);
            return Some(fraction);
        }
        let head: Vec<char> = chars_range(v, 0, whole);
        proof {
            assert(head@ =~= v@.take(whole as int));
            assert(all_digits(head@));
            lemma_pow0(10);
            let h = digits_value(head@) * unit;
            assert(h * 1 == h);
            assert(scaled(head@, 0, unit as int) == h);
        }
        return match count_whole(&head, 0, unit) {
            Some(n) => n.checked_add(fraction),
            None => None,
        };
    }
    let mut r: u64 = count_fraction(v, 0, unit);
    let mut k: i128 = len as i128;
    let ghost all = digits_value(v@) * unit;
    proof {
        assert(v@.skip(0) =~= v@);
        assert(0 <= all) by (nonlinear_arith)
            requires
                all == digits_value(v@) * unit,
                0 <= digits_value(v@),
                0 <= unit,
        ;
    }
    while k < down
        invariant
            len <= k <= down < len + 10,
            len == v@.len(),
            0 <= all,
            r == all / pow(10, k as nat),
        decreases down - k,
    {
        proof {
            lemma_pow_positive(10, k as nat);
            lemma_pow_adds(10, k as nat, 1);
            vstd::arithmetic::power::lemma_pow1(10);
            lemma_div_denominator(all, pow(10, k as nat), 10);
        }
        r = r / 10;
        k += 1;
    }
    Some(r)
}

/// The number that digits spell, as far as it matters for an exponent; `None` where they are not all
/// digits.
fn read_count(v: &Vec<char>) -> (r: Option<i128>)
    ensures
        match r {
            Some(n) => all_digits(v@) && 0 <= n <= FAR && (n == digits_value(v@) || (n == FAR
                && digits_value(v@) >= FAR)),
            None => !all_digits(v@),
        },
{
    if v.len() == 0 {
        return None;
    }
    let mut n: i128 = 0;
    let mut i: usize = 0;
    while i < v.len()
        invariant
            i <= v@.len(),
            forall|k: int| 0 <= k < i ==> is_digit(#[trigger] v@[k]),
            0 <= n <= FAR,
            n == digits_value(v@.take(i as int)) || (n == FAR && digits_value(v@.take(i as int))
                >= FAR),
        decreases v@.len() - i,
    {
        if !is_digit(v[i]) {
            return None;
        }
        assert(v@.take(i + 1).drop_last() =~= v@.take(i as int));
        assert(v@.take(i + 1).last() == v@[i as int]);
        let d: u8 = v[i] as u8 - 48;
        n = n * 10 + d as i128;
        if n > FAR {
            n = FAR;
        }
        i += 1;
    }
    assert(v@.take(i as int) =~= v@);
    Some(n)
}

/// The characters behind the sign.
fn without_sign(v: &Vec<char>) -> (r: Vec<char>)
    ensures
        r@ == unsigned(v@),
{
    let from: usize = if v.len() > 0 && (v[0] == '-' || v[0] == '+') {
        1
    } else {
        0
    };
    let r: Vec<char> = chars_range(v, from, v.len());
    assert(r@ =~= unsigned(v@));
    r
}

/// The exponent that is written behind an `e`, as far as it matters.
fn read_exponent(v: &Vec<char>) -> (r: Option<i128>)
    ensures
        match r {
            Some(n) => exponent_of(v@) matches Some(x) && -FAR <= n <= FAR && (n == x || (n == FAR
                && x >= FAR) || (n == -FAR && x <= -FAR)),
            None => exponent_of(v@) is None,
        },
{
    let digits: Vec<char> = without_sign(v);
    match read_count(&digits) {
        Some(n) => if v[0] == '-' {
            Some(-n)
        } else {
            Some(n)
        },
        None => None,
    }
}

/// Where the first of two characters stands; the length where neither does.
fn find_first_of(v: &Vec<char>, a: char, b: char) -> (n: usize)
    ensures
        n == first_of(v@, a, b),
        n <= v@.len(),
{
    let p: usize = find_char(v, a);
    let q: usize = find_char(v, b);
    proof {
        lemma_first_pos(v@, a);
        lemma_first_pos(v@, b);
    }
    if p <= q {
        p
    } else {
        q
    }
}

/// What a part of a clock time counts in microseconds.
fn read_part(v: &Vec<char>, unit: u64) -> (r: Option<Option<i128>>)
    requires
        SECOND_US <= unit <= HOUR_US,
    ensures
        match r {
            Some(Some(n)) => part_us(v@, unit) == Some(Some(n as int)) && -u64::MAX <= n
                <= u64::MAX,
            Some(None) => part_us(v@, unit) == Some(None::<int>),
            None => part_us(v@, unit) is None,
        },
{
    let body: Vec<char> = without_sign(v);
    let text: String = text_of_range(&body, 0, body.len());
    assert(text@ =~= body@);
    let word: String = to_ascii_lowercase(text.as_str());
    if same_text(word.as_str(), "inf") || same_text(word.as_str(), "infinity") || same_text(
        word.as_str(),
        "nan",
    ) {
        return Some(None);
    }
    let e: usize = find_first_of(&body, 'e', 'E');
    let mantissa: Vec<char> = chars_range(&body, 0, e);
    assert(mantissa@ =~= body@.take(e as int));
    let p: usize = find_first_of(&mantissa, '.', ',');
    let mut digits: Vec<char> = chars_range(&mantissa, 0, p);
    assert(digits@ =~= mantissa@.take(p as int));
    let ghost head = digits@;
    let behind: usize = if p < mantissa.len() {
        p + 1
    } else {
        p
    };
    let mut fraction: Vec<char> = chars_range(&mantissa, behind, mantissa.len());
    let places: usize = fraction.len();
    let ghost tail = fraction@;
    assert(tail =~= if p < mantissa@.len() {
        mantissa@.skip(p + 1)
    } else {
        Seq::empty()
    });
    digits.append(&mut fraction);
    assert(digits@ =~= head + tail);
    let exponent: Option<i128> = if e < body.len() {
        let written: Vec<char> = chars_range(&body, e + 1, body.len());
        assert(written@ =~= body@.skip(e + 1));
        read_exponent(&written)
    } else {
        Some(0)
    };
    if read_count(&digits).is_none() {
        return None;
    }
    match exponent {
        Some(x) => {
            let shift: i128 = x - places as i128;
            let ghost exact = numeral_of(v@)->0.shift;
            Some(
                match count_number(&digits, shift, Ghost(exact), unit) {
                    Some(n) => if v.len() > 0 && v[0] == '-' {
                        Some(-(n as i128))
                    } else {
                        Some(n as i128)
                    },
                    None => None,
                },
            )
        },
        None => None,
    }
}

/// The clock time that `token` spells as hours, minutes and seconds.
pub fn parse_time_to_us(token: &str) -> (r: ClockTime)
    ensures
        r == clock_time(token@),
{
    let v: Vec<char> = chars_of(trim(token));
    let a: usize = find_char(&v, ':');
    proof {
        lemma_first_pos(v@, ':');
    }
    if a >= v.len() {
        return ClockTime::Nothing;
    }
    let rest: Vec<char> = chars_range(&v, a + 1, v.len());
    assert(rest@ =~= v@.skip(a + 1));
    let b: usize = find_char(&rest, ':');
    proof {
        lemma_first_pos(rest@, ':');
    }
    if b >= rest.len() {
        return ClockTime::Nothing;
    }
    let last: Vec<char> = chars_range(&rest, b + 1, rest.len());
    assert(last@ =~= rest@.skip(b + 1));
    let c: usize = find_char(&last, ':');
    proof {
        lemma_first_pos(last@, ':');
    }
    let hours: Vec<char> = chars_range(&v, 0, a);
    let minutes: Vec<char> = chars_range(&rest, 0, b);
    let seconds: Vec<char> = chars_range(&last, 0, c);
    assert(hours@ =~= v@.take(a as int));
    assert(minutes@ =~= rest@.take(b as int));
    assert(seconds@ =~= last@.take(c as int));
    match (
        read_part(&hours, HOUR_US),
        read_part(&minutes, MINUTE_US),
        read_part(&seconds, SECOND_US),
    ) {
        (Some(Some(x)), Some(Some(y)), Some(Some(z))) => {
            let sum: i128 = x + y + z;
            if 0 <= sum && sum <= u64::MAX as i128 {
                ClockTime::At(sum as u64)
            } else {
                ClockTime::OutOfRange
            }
        },
        (Some(_), Some(_), Some(_)) => ClockTime::OutOfRange,
        _ => ClockTime::Nothing,
    }
}

/// Digits alone count as many units as they spell.
pub proof fn lemma_digits_count(s: Seq<char>, unit: u64)
    requires
        all_digits(s),
        digits_value(s) * unit <= u64::MAX,
    ensures
        part_us(s, unit) == Some(Some(digits_value(s) * unit)),
{
    reveal_strlit("inf");
    reveal_strlit("infinity");
    reveal_strlit("nan");
    assert(is_digit(s[0]));
    assert(lowered(s)[0] == s[0]);
    lemma_no_mark(s, 'e');
    lemma_no_mark(s, 'E');
    assert(s.take(s.len() as int) =~= s);
    lemma_no_mark(s, '.');
    lemma_no_mark(s, ',');
    assert(s + Seq::<char>::empty() =~= s);
    lemma_pow0(10);
    let n = digits_value(s) * unit;
    assert(n * 1 == n);
}

/// Digits hold no mark.
proof fn lemma_no_mark(s: Seq<char>, mark: char)
    requires
        all_digits(s),
        !is_digit(mark),
    ensures
        first_pos(s, mark) == s.len(),
{
    lemma_first_pos(s, mark);
    let n = first_pos(s, mark) as int;
    if n < s.len() {
        assert(is_digit(s[n]));
    }
}

/// Digits with a point or a comma among them count the units that their whole part spells and the part
/// of a unit that their fraction spells, cut off.
pub proof fn lemma_fraction_counts(whole: Seq<char>, fraction: Seq<char>, mark: char, unit: u64)
    requires
        all_digits(whole),
        all_digits(fraction),
        mark == '.' || mark == ',',
        digits_value(whole + fraction) * unit / pow(10, fraction.len()) <= u64::MAX,
    ensures
        part_us(whole.push(mark) + fraction, unit) == Some(
            Some(digits_value(whole + fraction) * unit / pow(10, fraction.len())),
        ),
{
    let s = whole.push(mark) + fraction;
    reveal_strlit("inf");
    reveal_strlit("infinity");
    reveal_strlit("nan");
    assert(is_digit(whole[0]));
    assert(s[0] == whole[0]);
    assert(lowered(s)[0] == s[0]);
    assert(unsigned(s) == s);
    lemma_first_pos(s, 'e');
    lemma_first_pos(s, 'E');
    lemma_first_pos(s, '.');
    lemma_first_pos(s, ',');
    assert forall|i: int| 0 <= i < s.len() implies s[i] != 'e' && s[i] != 'E' && (i != whole.len()
        ==> s[i] != '.' && s[i] != ',') by {
        if i < whole.len() {
            assert(is_digit(whole[i]));
        } else if i > whole.len() {
            assert(is_digit(fraction[i - whole.len() - 1]));
        }
    }
    assert(s[whole.len() as int] == mark);
    assert(s.take(s.len() as int) =~= s);
    assert(first_of(s, '.', ',') == whole.len());
    assert(s.take(whole.len() as int) =~= whole);
    assert(s.skip((whole.len() + 1) as int) =~= fraction);
    let digits = whole + fraction;
    assert forall|i: int| 0 <= i < digits.len() implies is_digit(#[trigger] digits[i]) by {
        if i < whole.len() {
            assert(is_digit(whole[i]));
        } else {
            assert(is_digit(fraction[i - whole.len()]));
        }
    }
    let places = fraction.len() as int;
    assert(places > 0);
    assert((-(0 - places)) as nat == fraction.len());
}

/// A token that has fewer than two colons spells no clock time, and neither does one with a part that
/// is no number.
pub proof fn lemma_no_clock_time(a: Seq<char>, b: Seq<char>)
    requires
        !a.contains(':'),
        !b.contains(':'),
    ensures
        clock_time(a) == ClockTime::Nothing,
        stripped(a.push(':') + b) == a.push(':') + b ==> clock_time(a.push(':') + b)
            == ClockTime::Nothing,
        part_us(a, HOUR_US) is None ==> time_of(a, b, b) == ClockTime::Nothing,
        part_us(a, MINUTE_US) is None ==> time_of(b, a, b) == ClockTime::Nothing,
        part_us(a, SECOND_US) is None ==> time_of(b, b, a) == ClockTime::Nothing,
{
    lemma_stripped_part(a);
    let t = stripped(a);
    lemma_first_pos(t, ':');
    let n = first_pos(t, ':') as int;
    if n < t.len() {
        assert(t.contains(t[n]));
    }
    let s = a.push(':') + b;
    lemma_first_pos(s, ':');
    let p = first_pos(s, ':') as int;
    assert(s[a.len() as int] == ':');
    if p < a.len() {
        assert(a[p] == s[p]);
        assert(a.contains(a[p]));
    }
    assert(s.skip(p + 1) =~= b);
    lemma_first_pos(b, ':');
    let q = first_pos(b, ':') as int;
    if q < b.len() {
        assert(b.contains(b[q]));
    }
}

/// A text without the white space around it holds nothing that the text does not.
proof fn lemma_stripped_part(s: Seq<char>)
    ensures
        forall|c: char| #[trigger] stripped(s).contains(c) ==> s.contains(c),
{
    lemma_trimmed_start_part(s);
    lemma_trimmed_end_part(trimmed_start(s, CharClass::White));
}

/// Trimming the start of a text adds nothing.
proof fn lemma_trimmed_start_part(s: Seq<char>)
    ensures
        forall|c: char| #[trigger] trimmed_start(s, CharClass::White).contains(c) ==> s.contains(c),
    decreases s.len(),
{
    if s.len() > 0 && CharClass::White.has(s[0]) {
        let rest = s.drop_first();
        lemma_trimmed_start_part(rest);
        assert forall|c: char| #[trigger] rest.contains(c) implies s.contains(c) by {
            let i = choose|i: int| 0 <= i < rest.len() && rest[i] == c;
            assert(s[i + 1] == c);
        }
        assert forall|c: char| #[trigger] trimmed_start(
            s,
            CharClass::White,
        ).contains(c) implies s.contains(c) by {
            assert(trimmed_start(rest, CharClass::White).contains(c));
            assert(rest.contains(c));
        }
    }
}

/// Trimming the end of a text adds nothing.
proof fn lemma_trimmed_end_part(s: Seq<char>)
    ensures
        forall|c: char| #[trigger] trimmed_end(s, CharClass::White).contains(c) ==> s.contains(c),
    decreases s.len(),
{
    if s.len() > 0 && CharClass::White.has(s.last()) {
        let rest = s.drop_last();
        lemma_trimmed_end_part(rest);
        assert forall|c: char| #[trigger] rest.contains(c) implies s.contains(c) by {
            let i = choose|i: int| 0 <= i < rest.len() && rest[i] == c;
            assert(s[i] == c);
        }
        assert forall|c: char| #[trigger] trimmed_end(
            s,
            CharClass::White,
        ).contains(c) implies s.contains(c) by {
            assert(trimmed_end(rest, CharClass::White).contains(c));
            assert(rest.contains(c));
        }
    }
}

/// The time that three parts make up is the sum of what they count, with an hour of 3600 seconds and
/// a minute of 60; a sum below the start or beyond what can be counted is out of range.
pub proof fn lemma_time_is_sum(hours: Seq<char>, minutes: Seq<char>, seconds: Seq<char>)
    requires
        part_us(hours, 3_600_000_000) matches Some(Some(_)),
        part_us(minutes, 60_000_000) matches Some(Some(_)),
        part_us(seconds, 1_000_000) matches Some(Some(_)),
    ensures
        ({
            let sum = part_us(hours, 3_600_000_000)->0->0 + part_us(minutes, 60_000_000)->0->0
                + part_us(seconds, 1_000_000)->0->0;
            &&& 0 <= sum <= u64::MAX ==> time_of(hours, minutes, seconds) == ClockTime::At(
                sum as u64,
            )
            &&& sum < 0 || sum > u64::MAX ==> time_of(hours, minutes, seconds)
                == ClockTime::OutOfRange
        }),
{
}

} // verus!
