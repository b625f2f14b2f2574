//! Sizes and times as they are shown.
use crate::devices::lemma_decimal_digits;
use crate::paths::{last_pos, lemma_last_pos};
use crate::clock::{
    clock_time, lemma_digits_count, ClockTime, HOUR_US, MINUTE_US, SECOND_US,
};
use crate::text::{
    all_digits, cat2, cat3, cat4, cat5, chars_of, chars_range, contains_text, decimal, decimal_text,
    digits_value, find_text, first_pos, first_text_pos, is_digit, is_white, lemma_first_pos,
    lemma_leading_zeros, lowered, occurs_in, remove_class, same_text, split_whitespace, stands_at, stripped,
    text_of_range, to_ascii_lowercase, trim, trimmed_end, trimmed_start, views, without, words,
    zero_filled, zero_filled_text, CharClass,
};
use vstd::prelude::*;
use vstd::string::*;

verus! {

/// How many units of `q` come closest to `n`; of two that are as close, the even one.
pub open spec fn nearest_count(n: nat, q: nat) -> nat {
    let d = n / q;
    let r = n % q;
    if 2 * r < q || (2 * r == q && d % 2 == 0) {
        d
    } else {
        d + 1
    }
}

/// The distance between two neighbouring doubles around `n`, for a whole `n`.
pub open spec fn double_step(n: nat) -> nat
    decreases n,
{
    if n < 0x20_0000_0000_0000 {
        1
    } else {
        2 * double_step(n / 2)
    }
}

/// The double that comes closest to the whole number `n`.
pub open spec fn as_double(n: nat) -> nat {
    nearest_count(n, double_step(n)) * double_step(n)
}

/// A number of bytes in units of `unit` bytes, with two decimals.
pub open spec fn in_units(bytes: nat, unit: nat) -> Seq<char> {
    let hundredths = nearest_count(as_double(bytes) * 100, unit);
    decimal(hundredths / 100) + "."@ + zero_filled(hundredths % 100, 2)
}

/// A number of bytes in the largest binary unit of which there is at least one.
pub open spec fn size_text(bytes: nat) -> Seq<char> {
    if bytes >= 0x4000_0000 {
        in_units(bytes, 0x4000_0000) + " GiB"@
    } else if bytes >= 0x10_0000 {
        in_units(bytes, 0x10_0000) + " MiB"@
    } else if bytes >= 0x400 {
        in_units(bytes, 0x400) + " KiB"@
    } else {
        decimal(bytes) + " B"@
    }
}

/// How many units of `q` come closest to `n`; of two that are as close, the even one.
fn nearest_units(n: u128, q: u128) -> (r: u128)
    requires
        0 < q <= 0x1_0000_0000_0000_0000,
    ensures
        r == nearest_count(n as nat, q as nat),
        r <= n / q + 1,
{
    let d: u128 = n / q;
    let r: u128 = n % q;
    if 2 * r < q || (2 * r == q && d % 2 == 0) {
        d
    } else {
        assert(n < u128::MAX || q > 1 || r == 0) by {
            assert(q == 1 ==> n % 1 == 0);
        }
        assert(q >= 2) by {
            if q == 1 {
                assert(n % 1 == 0);
            }
        }
        assert(n / q <= n / 2) by (nonlinear_arith)
            requires
                q >= 2,
                n >= 0,
        ;
        d + 1
    }
}

/// The distance between two neighbouring doubles around `n`.
fn step_of(n: u64) -> (r: u64)
    ensures
        r == double_step(n as nat),
        0 < r,
        n < 0x20_0000_0000_0000 ==> r == 1,
        r <= n / 0x10_0000_0000_0000 || r == 1,
    decreases n,
{
    if n < 0x20_0000_0000_0000 {
        1
    } else {
        let half: u64 = step_of(n / 2);
        2 * half
    }
}

/// A number of bytes in units of `unit` bytes, with two decimals.
fn units_text(bytes: u64, unit: u64) -> (r: String)
    requires
        0 < unit,
        0x400 <= unit,
    ensures
        r@ == in_units(bytes as nat, unit as nat),
{
    let step: u64 = step_of(bytes);
    let count: u128 = nearest_units(bytes as u128, step as u128);
    assert(count * step <= bytes + step) by (nonlinear_arith)
        requires
            count <= bytes as u128 / step as u128 + 1,
            step > 0,
    ;
    let double: u128 = count * (step as u128);
    let scaled: u128 = double * 100;
    let hundredths: u128 = nearest_units(scaled, unit as u128);
    assert(scaled as int / unit as int <= scaled as int / 0x400) by (nonlinear_arith)
        requires
            unit >= 0x400,
    ;
    let whole: u64 = (hundredths / 100) as u64;
    let rest: u64 = (hundredths % 100) as u64;
    let a: String = decimal_text(whole);
    let b: String = zero_filled_text(rest, 2);
    cat3(a.as_str(), ".", b.as_str())
}

/// A number of bytes in the largest binary unit of which there is at least one.
pub fn format_size(bytes: u64) -> (r: String)
    ensures
        r@ == size_text(bytes as nat),
{
    if bytes >= 0x4000_0000 {
        let n: String = units_text(bytes, 0x4000_0000);
        cat2(n.as_str(), " GiB")
    } else if bytes >= 0x10_0000 {
        let n: String = units_text(bytes, 0x10_0000);
        cat2(n.as_str(), " MiB")
    } else if bytes >= 0x400 {
        let n: String = units_text(bytes, 0x400);
        cat2(n.as_str(), " KiB")
    } else {
        let n: String = decimal_text(bytes);
        cat2(n.as_str(), " B")
    }
}

/// The size of a model as it is shown.
pub fn human_model_size(bytes: u64) -> (r: String)
    ensures
        r@ == size_text(bytes as nat),
{
    format_size(bytes)
}

/// Hours, minutes and seconds with at least two digits each.
pub open spec fn hms(seconds: nat) -> Seq<char> {
    zero_filled(seconds / 3600, 2) + ":"@ + zero_filled((seconds % 3600) / 60, 2) + ":"@
        + zero_filled(seconds % 60, 2)
}

/// A number of whole seconds as hours, minutes and seconds.
pub fn secs_to_hms(seconds: u64) -> (r: String)
    ensures
        r@ == hms(seconds as nat),
{
    let h: String = zero_filled_text(seconds / 3600, 2);
    let m: String = zero_filled_text((seconds % 3600) / 60, 2);
    let s: String = zero_filled_text(seconds % 60, 2);
    cat5(h.as_str(), ":", m.as_str(), ":", s.as_str())
}

/// The time of day, given the number of seconds since the epoch.
pub fn log_timestamp_hms(epoch_seconds: u64) -> (r: String)
    ensures
        r@ == hms(epoch_seconds as nat % 86_400),
{
    secs_to_hms(epoch_seconds % 86_400)
}

/// How far a download has come, as it is shown.
pub open spec fn download_text(label: Seq<char>, done: nat, total: Option<u64>, speed: nat) -> Seq<
    char,
> {
    let amount = match total {
        Some(n) => if n > 0 {
            size_text(done) + " / "@ + size_text(n as nat)
        } else {
            size_text(done)
        },
        None => size_text(done),
    };
    "Downloading "@ + label + ": "@ + amount + " at "@ + size_text(speed) + "/s"@
}

/// How far a download has come, as it is shown.
pub fn download_status_text(label: &str, done: u64, total: Option<u64>, speed: u64) -> (r: String)
    ensures
        r@ == download_text(label@, done as nat, total, speed as nat),
{
    let so_far: String = format_size(done);
    let amount: String = match total {
        Some(n) => if n > 0 {
            let all: String = format_size(n);
            cat3(so_far.as_str(), " / ", all.as_str())
        } else {
            so_far
        },
        None => so_far,
    };
    let rate: String = format_size(speed);
    let mut r: String = cat4("Downloading ", label, ": ", amount.as_str());
    r.append(" at ");
    r.append(rate.as_str());
    r.append("/s");
    r
}

/// A size as it is written: its number, and how many bytes its unit stands for.
#[derive(Debug)]
pub struct SizeToken {
    pub number: String,
    pub unit: u64,
}

/// What a written size holds.
#[verifier::ext_equal]
pub struct TokenView {
    pub number: Seq<char>,
    pub unit: nat,
}

impl SizeToken {
    /// What the size holds.
    pub open spec fn view(self) -> TokenView {
        TokenView { number: self.number@, unit: self.unit as nat }
    }
}

/// How many bytes a unit of size stands for.
pub open spec fn unit_bytes(unit: Seq<char>) -> Option<nat> {
    if unit == "b"@ {
        Some(1)
    } else if unit == "kb"@ || unit == "kib"@ {
        Some(0x400)
    } else if unit == "mb"@ || unit == "mib"@ {
        Some(0x10_0000)
    } else if unit == "gb"@ || unit == "gib"@ {
        Some(0x4000_0000)
    } else if unit == "tb"@ || unit == "tib"@ {
        Some(0x100_0000_0000)
    } else {
        None
    }
}

/// A size such as `1.5 GiB`, taken apart. Commas do not count, and a size without a unit is in
/// bytes.
pub open spec fn size_token(token: Seq<char>) -> Option<TokenView> {
    let parts = words(without(stripped(token), CharClass::Comma));
    if parts.len() == 0 {
        None
    } else {
        let unit = if parts.len() > 1 {
            lowered(parts[1])
        } else {
            "b"@
        };
        match unit_bytes(unit) {
            Some(size) => Some(TokenView { number: parts[0], unit: size }),
            None => None,
        }
    }
}

/// What stands behind the last `c`; everything where there is none.
pub open spec fn after_last(s: Seq<char>, c: char) -> Seq<char> {
    match last_pos(s, c) {
        Some(n) => s.skip((n + 1) as int),
        None => s,
    }
}

/// How far the download has come of which a status line speaks: what is done and what there is to
/// do.
pub open spec fn download_progress(status: Seq<char>) -> Option<(TokenView, TokenView)> {
    let head = status.take(first_text_pos(status, " at "@) as int);
    match last_pos(head, '/') {
        Some(slash) => if occurs_in("downloading"@, lowered(status)) {
            match (
                size_token(after_last(head.take(slash as int), ':')),
                size_token(head.skip((slash + 1) as int)),
            ) {
                (Some(done), Some(total)) => Some((done, total)),
                _ => None,
            }
        } else {
            None
        },
        None => None,
    }
}

/// How many bytes a unit of size stands for.
fn parse_unit(unit: &str) -> (r: Option<u64>)
    ensures
        match r {
            Some(n) => unit_bytes(unit@) == Some(n as nat),
            None => unit_bytes(unit@) is None,
        },
{
    if same_text(unit, "b") {
        Some(1)
    } else if same_text(unit, "kb") || same_text(unit, "kib") {
        Some(0x400)
    } else if same_text(unit, "mb") || same_text(unit, "mib") {
        Some(0x10_0000)
    } else if same_text(unit, "gb") || same_text(unit, "gib") {
        Some(0x4000_0000)
    } else if same_text(unit, "tb") || same_text(unit, "tib") {
        Some(0x100_0000_0000)
    } else {
        None
    }
}

/// A size such as `1.5 GiB`, taken apart.
pub fn parse_size_token_bytes(token: &str) -> (r: Option<SizeToken>)
    ensures
        match r {
            Some(size) => size_token(token@) == Some(size@),
            None => size_token(token@) is None,
        },
{
    let cleaned: String = remove_class(trim(token), CharClass::Comma);
    let mut parts: Vec<String> = split_whitespace(cleaned.as_str());
    assert(views(parts@).len() == parts@.len());
    if parts.len() == 0 {
        return None;
    }
    assert(views(parts@)[0] == parts@[0]@);
    let unit: String = if parts.len() > 1 {
        assert(views(parts@)[1] == parts@[1]@);
        to_ascii_lowercase(parts[1].as_str())
    } else {
        "b".to_owned()
    };
    match parse_unit(unit.as_str()) {
        Some(size) => Some(SizeToken { number: parts.remove(0), unit: size }),
        None => None,
    }
}

/// How many characters stand before the last `c`.
fn find_last(v: &Vec<char>, c: char) -> (r: Option<usize>)
    ensures
        match r {
            Some(n) => last_pos(v@, c) == Some(n as nat) && n < v.len(),
            None => last_pos(v@, c) is None,
        },
{
    let mut n: usize = v.len();
    assert(v@.take(n as int) =~= v@);
    while n > 0
        invariant
            n <= v@.len(),
            last_pos(v@, c) == last_pos(v@.take(n as int), c),
        decreases n,
    {
        assert(v@.take(n as int).drop_last() =~= v@.take(n - 1));
        if v[n - 1] == c {
            return Some(n - 1);
        }
        n -= 1;
    }
    None
}

/// How far the download has come of which a status line speaks: what is done and what there is to
/// do.
pub fn parse_download_fraction(status: &str) -> (r: Option<(SizeToken, SizeToken)>)
    ensures
        match r {
            Some((done, total)) => download_progress(status@) == Some((done@, total@)),
            None => download_progress(status@) is None,
        },
{
    let lower: String = to_ascii_lowercase(status);
    if !contains_text(lower.as_str(), "downloading") {
        return None;
    }
    let v: Vec<char> = chars_of(status);
    let at: Vec<char> = chars_of(" at ");
    let end: usize = find_text(&v, &at);
    let head: Vec<char> = chars_range(&v, 0, end);
    assert(head@ =~= v@.take(end as int));
    let slash: usize = match find_last(&head, '/') {
        Some(n) => n,
        None => {
            return None;
        },
    };
    let left: Vec<char> = chars_range(&head, 0, slash);
    assert(left@ =~= head@.take(slash as int));
    let from: usize = match find_last(&left, ':') {
        Some(n) => n + 1,
        None => 0,
    };
    let done_part: String = text_of_range(&left, from, left.len());
    let total_part: String = text_of_range(&head, slash + 1, head.len());
    assert(done_part@ =~= after_last(left@, ':'));
    assert(total_part@ =~= head@.skip(slash + 1));
    match (parse_size_token_bytes(done_part.as_str()), parse_size_token_bytes(total_part.as_str())) {
        (Some(done), Some(total)) => Some((done, total)),
        _ => None,
    }
}

/// A number of bytes as `size_text` writes it, taken apart.
pub open spec fn size_parts(bytes: nat) -> TokenView {
    if bytes >= 0x4000_0000 {
        TokenView { number: in_units(bytes, 0x4000_0000), unit: 0x4000_0000 }
    } else if bytes >= 0x10_0000 {
        TokenView { number: in_units(bytes, 0x10_0000), unit: 0x10_0000 }
    } else if bytes >= 0x400 {
        TokenView { number: in_units(bytes, 0x400), unit: 0x400 }
    } else {
        TokenView { number: decimal(bytes), unit: 1 }
    }
}

/// Whether `s` is made of decimal digits and points.
spec fn is_plain(s: Seq<char>) -> bool {
    s.len() > 0 && forall|i: int| 0 <= i < s.len() ==> is_digit(#[trigger] s[i]) || s[i] == '.'
}

/// A number that is filled up with zeros is made of digits, which spell it.
proof fn lemma_zero_filled(n: nat, width: nat)
    ensures
        all_digits(zero_filled(n, width)),
        digits_value(zero_filled(n, width)) == n,
    decreases width,
{
    lemma_decimal_digits(n);
    let d = decimal(n);
    if d.len() < width {
        lemma_leading_zeros((width - d.len()) as nat, d);
        let s = zero_filled(n, width);
        assert forall|i: int| 0 <= i < s.len() implies is_digit(#[trigger] s[i]) by {
            if i >= width - d.len() {
                assert(s[i] == d[i - (width - d.len())]);
            }
        }
    }
}

/// A size is written as its number, a space and its unit.
proof fn lemma_size_text(bytes: nat)
    ensures
        is_plain(size_parts(bytes).number),
        exists|unit: Seq<char>|
            {
                &&& size_text(bytes) == #[trigger] sized(size_parts(bytes).number, unit)
                &&& is_unit(unit)
                &&& unit_bytes(lowered(unit)) == Some(size_parts(bytes).unit)
            },
{
    reveal_strlit(" GiB");
    reveal_strlit(" MiB");
    reveal_strlit(" KiB");
    reveal_strlit(" B");
    reveal_strlit("b");
    reveal_strlit("kb");
    reveal_strlit("kib");
    reveal_strlit("mb");
    reveal_strlit("mib");
    reveal_strlit("gb");
    reveal_strlit("gib");
    let number = size_parts(bytes).number;
    if bytes >= 0x400 {
        lemma_in_units_plain(bytes, size_parts(bytes).unit);
    } else {
        lemma_decimal_digits(bytes);
    }
    let unit = if bytes >= 0x4000_0000 {
        seq!['G', 'i', 'B']
    } else if bytes >= 0x10_0000 {
        seq!['M', 'i', 'B']
    } else if bytes >= 0x400 {
        seq!['K', 'i', 'B']
    } else {
        seq!['B']
    };
    assert(size_text(bytes) =~= sized(number, unit));
    if bytes >= 0x4000_0000 {
        assert(lowered(unit) =~= "gib"@);
        assert(lowered(unit).len() == 3);
        assert("kib"@[0] == 'k' && "mib"@[0] == 'm' && lowered(unit)[0] == 'g');
    } else if bytes >= 0x10_0000 {
        assert(lowered(unit) =~= "mib"@);
        assert("kib"@[0] == 'k' && lowered(unit)[0] == 'm');
    } else if bytes >= 0x400 {
        assert(lowered(unit) =~= "kib"@);
    } else {
        assert(lowered(unit) =~= "b"@);
    }
}

/// A number, a space and a unit.
spec fn sized(number: Seq<char>, unit: Seq<char>) -> Seq<char> {
    number + seq![' '] + unit
}

/// Whether `unit` is made of the letters of units.
spec fn is_unit(unit: Seq<char>) -> bool {
    unit.len() > 0 && forall|i: int|
        0 <= i < unit.len() ==> {
            let c = #[trigger] unit[i];
            c == 'G' || c == 'M' || c == 'K' || c == 'i' || c == 'B'
        }
}

/// A number of units is written with digits and a point.
proof fn lemma_in_units_plain(bytes: nat, unit: nat)
    ensures
        is_plain(in_units(bytes, unit)),
{
    let hundredths = nearest_count(as_double(bytes) * 100, unit);
    lemma_decimal_digits(hundredths / 100);
    lemma_zero_filled(hundredths % 100, 2);
    reveal_strlit(".");
    let a = decimal(hundredths / 100);
    let b = zero_filled(hundredths % 100, 2);
    let s = in_units(bytes, unit);
    assert forall|i: int| 0 <= i < s.len() implies is_digit(#[trigger] s[i]) || s[i] == '.' by {
        if i < a.len() {
            assert(s[i] == a[i]);
        } else if i > a.len() {
            assert(s[i] == b[i - a.len() - 1]);
        }
    }
}

/// A run of characters other than white space behind white space is one word more.
proof fn lemma_one_more_word(s: Seq<char>, w: Seq<char>)
    requires
        s.len() == 0 || is_white(s.last()),
        w.len() > 0,
        forall|i: int| 0 <= i < w.len() ==> !is_white(#[trigger] w[i]),
    ensures
        words(s + w) == words(s).push(w),
    decreases w.len(),
{
    let t = s + w;
    assert(t.last() == w[w.len() - 1]);
    if w.len() == 1 {
        assert(t.drop_last() =~= s);
        assert(w =~= seq![w[0]]);
        if s.len() > 0 {
            assert(t[t.len() - 2] == s.last());
        }
    } else {
        let v = w.drop_last();
        assert forall|i: int| 0 <= i < v.len() implies !is_white(#[trigger] v[i]) by {
            assert(v[i] == w[i]);
        }
        lemma_one_more_word(s, v);
        assert(t.drop_last() =~= s + v);
        assert(t[t.len() - 2] == w[w.len() - 2]);
        let before = words(s).push(v);
        assert(v.push(w.last()) =~= w);
        assert(before.update(before.len() - 1, before.last().push(w.last())) =~= words(s).push(w));
    }
}

/// A text without commas stays as it is when they are removed.
proof fn lemma_without_commas(s: Seq<char>)
    requires
        forall|i: int| 0 <= i < s.len() ==> #[trigger] s[i] != ',',
    ensures
        without(s, CharClass::Comma) == s,
    decreases s.len(),
{
    if s.len() > 0 {
        let t = s.drop_last();
        assert forall|i: int| 0 <= i < t.len() implies #[trigger] t[i] != ',' by {
            assert(t[i] == s[i]);
        }
        lemma_without_commas(t);
        assert(s[s.len() - 1] != ',');
        assert(t.push(s.last()) =~= s);
    }
}

/// White space around a text that neither begins nor ends with any does not count.
proof fn lemma_stripped(s: Seq<char>)
    requires
        s.len() > 0,
        !is_white(s[0]),
        !is_white(s.last()),
    ensures
        stripped(seq![' '] + s) == s,
        stripped(seq![' '] + s + seq![' ']) == s,
        stripped(s) == s,
{
    let a = seq![' '] + s;
    let b = a + seq![' '];
    reveal_with_fuel(trimmed_start, 3);
    reveal_with_fuel(trimmed_end, 3);
    assert(a.drop_first() =~= s);
    assert(b.drop_first() =~= s + seq![' ']);
    assert((s + seq![' ']).drop_last() =~= s);
}

/// A written size is read as the number and the unit that were written, whatever space stands
/// around it.
proof fn lemma_size_is_read_back(bytes: nat, token: Seq<char>)
    requires
        stripped(token) == size_text(bytes),
    ensures
        size_token(token) == Some(size_parts(bytes)),
{
    lemma_size_text(bytes);
    let number = size_parts(bytes).number;
    let unit = choose|unit: Seq<char>|
        {
            &&& size_text(bytes) == #[trigger] sized(number, unit)
            &&& is_unit(unit)
            &&& unit_bytes(lowered(unit)) == Some(size_parts(bytes).unit)
        };
    let s = sized(number, unit);
    assert forall|i: int| 0 <= i < s.len() implies #[trigger] s[i] != ',' by {
        if i < number.len() {
            assert(s[i] == number[i]);
        } else if i > number.len() {
            assert(s[i] == unit[i - number.len() - 1]);
        }
    }
    lemma_without_commas(s);
    let spaced = number + seq![' '];
    assert forall|i: int| 0 <= i < number.len() implies !is_white(#[trigger] number[i]) by {
        assert(is_digit(number[i]) || number[i] == '.');
    }
    lemma_one_more_word(Seq::empty(), number);
    assert(Seq::<char>::empty() + number =~= number);
    assert(spaced.drop_last() =~= number);
    assert(words(spaced) == words(number));
    lemma_one_more_word(spaced, unit);
    assert(words(s) =~= seq![number, unit]);
}

/// The first place at which a text stands.
proof fn lemma_first_text_pos(hay: Seq<char>, needle: Seq<char>, n: int)
    requires
        stands_at(hay, needle, n),
        needle.len() > 0,
        forall|i: int| 0 <= i < n ==> !#[trigger] stands_at(hay, needle, i),
    ensures
        first_text_pos(hay, needle) == n,
    decreases n,
{
    if n > 0 {
        let rest = hay.drop_first();
        assert(!stands_at(hay, needle, 0));
        assert(rest.subrange(n - 1, n - 1 + needle.len()) =~= hay.subrange(n, n + needle.len()));
        assert forall|i: int| 0 <= i < n - 1 implies !#[trigger] stands_at(rest, needle, i) by {
            assert(!stands_at(hay, needle, i + 1));
            if i + needle.len() <= rest.len() {
                assert(rest.subrange(i, i + needle.len()) =~= hay.subrange(
                    i + 1,
                    i + 1 + needle.len(),
                ));
            }
        }
        lemma_first_text_pos(rest, needle, n - 1);
    }
}

/// The characters of a written size are digits, points, spaces and the letters of units.
proof fn lemma_size_chars(bytes: nat)
    ensures
        is_inner(size_text(bytes)),
        !is_white(size_text(bytes)[0]),
        !is_white(size_text(bytes).last()),
{
    lemma_size_text(bytes);
    let number = size_parts(bytes).number;
    let unit = choose|unit: Seq<char>|
        {
            &&& size_text(bytes) == #[trigger] sized(number, unit)
            &&& is_unit(unit)
            &&& unit_bytes(lowered(unit)) == Some(size_parts(bytes).unit)
        };
    let s = sized(number, unit);
    assert forall|i: int| 0 <= i < s.len() implies ({
        let c = #[trigger] s[i];
        c != 'a' && c != '/' && c != ':'
    }) by {
        if i < number.len() {
            assert(s[i] == number[i]);
        } else if i > number.len() {
            assert(s[i] == unit[i - number.len() - 1]);
        }
    }
    assert(s[0] == number[0]);
    assert(s.last() == unit[unit.len() - 1]);
}

/// Whether `s` holds none of the characters by which a status line is taken apart.
spec fn is_inner(s: Seq<char>) -> bool {
    s.len() > 0 && forall|i: int|
        0 <= i < s.len() ==> {
            let c = #[trigger] s[i];
            c != 'a' && c != '/' && c != ':'
        }
}

/// What stands before the speed in a status line.
spec fn status_head(label: Seq<char>, a: Seq<char>, b: Seq<char>) -> Seq<char> {
    "Downloading "@ + label + ": "@ + a + " / "@ + b
}

/// The speed is told behind the first place where a status line has the word before it.
proof fn lemma_head_ends(label: Seq<char>, a: Seq<char>, b: Seq<char>, tail: Seq<char>)
    requires
        is_inner(a),
        is_inner(b),
        !occurs_in(" at "@, " "@ + label),
    ensures
        first_text_pos(status_head(label, a, b) + " at "@ + tail, " at "@) == status_head(
            label,
            a,
            b,
        ).len(),
{
    reveal_strlit("Downloading ");
    reveal_strlit(": ");
    reveal_strlit(" / ");
    reveal_strlit(" at ");
    reveal_strlit(" ");
    let head = status_head(label, a, b);
    let text = head + " at "@ + tail;
    let n = head.len() as int;
    let l = label.len() as int;
    let k = a.len() as int;
    assert(text.subrange(n, n + 4) =~= " at "@);
    assert(stands_at(text, " at "@, n));
    assert(text.subrange(12, 12 + l) =~= label);
    assert forall|i: int| 0 <= i < n implies !#[trigger] stands_at(text, " at "@, i) by {
        if stands_at(text, " at "@, i) {
            let found = text.subrange(i, i + 4);
            assert(found[0] == ' ' && found[1] == 'a' && found[2] == 't' && found[3] == ' ');
            assert(text[i] == found[0]);
            assert(text[i + 1] == found[1]);
            assert(text[i + 2] == found[2]);
            assert(text[i + 3] == found[3]);
            if i + 1 < 12 {
                assert(text[i] == "Downloading "@[i]);
                assert(text[i + 1] == "Downloading "@[i + 1]);
            } else if i + 1 < 12 + l {
                lemma_word_in_label(label, text, i);
            } else if i + 1 < 14 + l {
                assert(text[i + 1] == ": "@[i + 1 - 12 - l]);
            } else if i + 1 < 14 + l + k {
                assert(text[i + 1] == a[i + 1 - 14 - l]);
            } else if i + 1 < 17 + l + k {
                assert(text[i + 1] == " / "@[i + 1 - 14 - l - k]);
            } else if i + 1 < n {
                assert(text[i + 1] == b[i + 1 - 17 - l - k]);
            } else {
                assert(text[i + 1] == " at "@[0]);
            }
        }
    }
    lemma_first_text_pos(text, " at "@, n);
}

/// The word before the speed begins at or in a label only where the label holds it.
proof fn lemma_word_in_label(label: Seq<char>, text: Seq<char>, i: int)
    requires
        12 + label.len() < text.len(),
        text[11] == ' ',
        text.subrange(12, (12 + label.len()) as int) == label,
        text[(12 + label.len()) as int] == ':',
        11 <= i < 11 + label.len(),
        i + 3 < text.len(),
        text[i] == ' ' && text[i + 1] == 'a' && text[i + 2] == 't' && text[i + 3] == ' ',
    ensures
        occurs_in(" at "@, " "@ + label),
{
    reveal_strlit(" at ");
    reveal_strlit(" ");
    let l = label.len() as int;
    let spaced = " "@ + label;
    assert forall|j: int| 0 <= j <= l implies spaced[j] == #[trigger] text[11 + j] by {
        if j > 0 {
            assert(text.subrange(12, 12 + l)[j - 1] == label[j - 1]);
        }
    }
    let at = i - 11;
    assert(text[11 + at] == ' ' && text[11 + (at + 1)] == 'a');
    assert(text[11 + (at + 2)] == 't' && text[11 + (at + 3)] == ' ');
    assert(at + 3 <= l);
    assert(spaced.subrange(at, at + 4) =~= " at "@);
    assert(stands_at(spaced, " at "@, at));
}

/// The two sizes stand on either side of the last slash before the speed.
proof fn lemma_sizes_in_head(label: Seq<char>, a: Seq<char>, b: Seq<char>)
    requires
        is_inner(a),
        is_inner(b),
    ensures
        ({
            let head = status_head(label, a, b);
            let slash = 15 + label.len() + a.len();
            &&& last_pos(head, '/') == Some(slash)
            &&& after_last(head.take(slash as int), ':') == seq![' '] + a + seq![' ']
            &&& head.skip((slash + 1) as int) == seq![' '] + b
        }),
{
    reveal_strlit("Downloading ");
    reveal_strlit(": ");
    reveal_strlit(" / ");
    let head = status_head(label, a, b);
    let l = label.len() as int;
    let slash = 15 + l + a.len();
    lemma_last_pos(head, '/');
    assert(head[slash] == '/');
    assert forall|k: int| slash < k < head.len() implies #[trigger] head[k] != '/' by {
        if k > slash + 1 {
            assert(head[k] == b[k - slash - 2]);
        }
    }
    assert(last_pos(head, '/') == Some(slash as nat));
    let left = head.take(slash);
    lemma_last_pos(left, ':');
    assert(left[12 + l] == ':');
    assert forall|k: int| 12 + l < k < slash implies #[trigger] left[k] != ':' by {
        if 14 + l <= k < 14 + l + a.len() {
            assert(left[k] == a[k - 14 - l]);
        }
    }
    assert(last_pos(left, ':') == Some((12 + l) as nat));
    assert(after_last(left, ':') =~= seq![' '] + a + seq![' ']);
    assert(head.skip(slash + 1) =~= seq![' '] + b);
}

/// A status line is its head, the word before the speed and the speed, and says what it is about.
proof fn lemma_status_line(label: Seq<char>, a: Seq<char>, b: Seq<char>, speed: Seq<char>)
    ensures
        ({
            let text = "Downloading "@ + label + ": "@ + (a + " / "@ + b) + " at "@ + speed
                + "/s"@;
            let head = status_head(label, a, b);
            &&& text == head + " at "@ + (speed + "/s"@)
            &&& text.take(head.len() as int) == head
            &&& occurs_in("downloading"@, lowered(text))
        }),
{
    reveal_strlit("Downloading ");
    reveal_strlit("downloading");
    let text = "Downloading "@ + label + ": "@ + (a + " / "@ + b) + " at "@ + speed + "/s"@;
    let head = status_head(label, a, b);
    assert(text =~= head + " at "@ + (speed + "/s"@));
    assert(text.take(head.len() as int) =~= head);
    let lower = lowered(text);
    assert forall|j: int| 0 <= j < 11 implies lower[j] == #[trigger] "downloading"@[j] by {
        assert(text[j] == "Downloading "@[j]);
    }
    assert(lower.subrange(0, 11) =~= "downloading"@);
    assert(stands_at(lower, "downloading"@, 0));
}

/// The progress that a status line shows is read back from it: the sizes as they were written.
/// This leaves out a label that holds the word with which the line goes on to the speed.
pub proof fn lemma_progress_is_read_back(label: Seq<char>, done: nat, total: u64, speed: nat)
    requires
        total > 0,
        !occurs_in(" at "@, " "@ + label),
    ensures
        download_progress(download_text(label, done, Some(total), speed)) == Some(
            (size_parts(done), size_parts(total as nat)),
        ),
{
    let a = size_text(done);
    let b = size_text(total as nat);
    lemma_size_chars(done);
    lemma_size_chars(total as nat);
    lemma_stripped(a);
    lemma_stripped(b);
    lemma_size_is_read_back(done, seq![' '] + a + seq![' ']);
    lemma_size_is_read_back(total as nat, seq![' '] + b);
    lemma_status_line(label, a, b, size_text(speed));
    lemma_head_ends(label, a, b, size_text(speed) + "/s"@);
    lemma_sizes_in_head(label, a, b);
}

/// Hours, minutes and seconds between colons are read as the time they make up.
proof fn lemma_clock_is_read(h: Seq<char>, m: Seq<char>, s: Seq<char>)
    requires
        all_digits(h),
        all_digits(m),
        all_digits(s),
        digits_value(h) * HOUR_US + digits_value(m) * MINUTE_US + digits_value(s) * SECOND_US
            <= u64::MAX,
    ensures
        clock_time(h + ":"@ + m + ":"@ + s) == ClockTime::At(
            (digits_value(h) * HOUR_US + digits_value(m) * MINUTE_US + digits_value(s)
                * SECOND_US) as u64,
        ),
{
    reveal_strlit(":");
    let t = h + ":"@ + m + ":"@ + s;
    assert(is_digit(h[0]) && is_digit(s[s.len() - 1]));
    assert(t[0] == h[0]);
    assert(t.last() == s[s.len() - 1]);
    lemma_stripped(t);
    let after_hours = t.skip((h.len() + 1) as int);
    assert(after_hours =~= m + ":"@ + s);
    let after_minutes = after_hours.skip((m.len() + 1) as int);
    assert(after_minutes =~= s);
    assert(t.take(h.len() as int) =~= h);
    assert(after_hours.take(m.len() as int) =~= m);
    assert(s.take(s.len() as int) =~= s);
    lemma_pos_behind_digits(h, t, ':');
    lemma_pos_behind_digits(m, after_hours, ':');
    lemma_pos_behind_digits(s, s, ':');
    lemma_digits_count(h, HOUR_US);
    lemma_digits_count(m, MINUTE_US);
    lemma_digits_count(s, SECOND_US);
}

/// A time that is written as hours, minutes and seconds is read as that time, as long as its
/// microseconds can be counted.
pub proof fn lemma_written_time_is_read(seconds: nat)
    requires
        seconds * SECOND_US <= u64::MAX,
    ensures
        clock_time(hms(seconds)) == ClockTime::At((seconds * SECOND_US) as u64),
{
    let h = zero_filled(seconds / 3600, 2);
    let m = zero_filled((seconds % 3600) / 60, 2);
    let s = zero_filled(seconds % 60, 2);
    lemma_zero_filled(seconds / 3600, 2);
    lemma_zero_filled((seconds % 3600) / 60, 2);
    lemma_zero_filled(seconds % 60, 2);
    lemma_clock_is_read(h, m, s);
    assert(seconds == 3600 * (seconds / 3600) + 60 * ((seconds % 3600) / 60) + seconds % 60);
}

/// No digit is a mark: the first mark of a text that begins with digits stands behind them.
proof fn lemma_pos_behind_digits(digits: Seq<char>, text: Seq<char>, mark: char)
    requires
        all_digits(digits),
        !is_digit(mark),
        digits.len() <= text.len(),
        text.take(digits.len() as int) == digits,
        digits.len() == text.len() || text[digits.len() as int] == mark,
    ensures
        first_pos(text, mark) == digits.len(),
{
    lemma_first_pos(text, mark);
    let n = first_pos(text, mark) as int;
    if n < digits.len() {
        assert(text[n] == text.take(digits.len() as int)[n]);
        assert(is_digit(digits[n]));
    }
}

/// A number with two decimals, given in hundredths.
pub open spec fn with_decimals(hundredths: nat) -> Seq<char> {
    decimal(hundredths / 100) + "."@ + zero_filled(hundredths % 100, 2)
}

/// The number of units that is written is that of the bytes, up to half of its last decimal. Above
/// that many bytes a double does not tell two neighbouring counts apart.
pub proof fn lemma_size_is_near(bytes: nat, unit: nat)
    requires
        unit > 0,
        bytes < 0x20_0000_0000_0000,
    ensures
        exists|h: nat|
            in_units(bytes, unit) == #[trigger] with_decimals(h) && 2 * (h * unit) <= 200 * bytes
                + unit && 200 * bytes <= 2 * (h * unit) + unit,
{
    let h = nearest_count(as_double(bytes) * 100, unit);
    assert(double_step(bytes) == 1);
    assert(as_double(bytes) == bytes);
    let n = bytes * 100;
    vstd::arithmetic::div_mod::lemma_fundamental_div_mod(n as int, unit as int);
    assert(unit * (n / unit) == (n / unit) * unit) by (nonlinear_arith)
        requires
            unit > 0,
    ;
    assert((n / unit + 1) * unit == (n / unit) * unit + unit) by (nonlinear_arith)
        requires
            unit > 0,
    ;
    assert(n % unit < unit);
    assert(in_units(bytes, unit) == with_decimals(h));
}

/// A size is told in the largest unit of which there is at least one, and each unit is 1024 of the
/// one before it.
pub proof fn lemma_size_unit(bytes: nat)
    ensures
        ({
            let unit = size_parts(bytes).unit;
            &&& unit == 1 || unit == 1024 || unit == 1024 * 1024 || unit == 1024 * 1024 * 1024
            &&& unit > 1 ==> bytes >= unit && size_parts(bytes).number == in_units(bytes, unit)
            &&& unit == 1 ==> size_parts(bytes).number == decimal(bytes)
            &&& unit < 1024 * 1024 * 1024 ==> bytes < 1024 * unit
        }),
{
}

/// Each unit of size is 1024 of the one before it, whether or not it is written with an `i`.
pub proof fn lemma_units_of_size()
    ensures
        unit_bytes("b"@) == Some(1nat),
        unit_bytes("kib"@) == Some(1024 * unit_bytes("b"@)->0),
        unit_bytes("mib"@) == Some(1024 * unit_bytes("kib"@)->0),
        unit_bytes("gib"@) == Some(1024 * unit_bytes("mib"@)->0),
        unit_bytes("tib"@) == Some(1024 * unit_bytes("gib"@)->0),
        unit_bytes("kb"@) == unit_bytes("kib"@),
        unit_bytes("mb"@) == unit_bytes("mib"@),
        unit_bytes("gb"@) == unit_bytes("gib"@),
        unit_bytes("tb"@) == unit_bytes("tib"@),
        forall|unit: Seq<char>| #[trigger] unit_bytes(unit) is Some ==> 1 <= unit.len() <= 3,
{
    reveal_strlit("b");
    reveal_strlit("kb");
    reveal_strlit("kib");
    reveal_strlit("mb");
    reveal_strlit("mib");
    reveal_strlit("gb");
    reveal_strlit("gib");
    reveal_strlit("tb");
    reveal_strlit("tib");
    assert("kb"@[0] == 'k' && "kib"@[0] == 'k');
    assert("mb"@[0] == 'm' && "mib"@[0] == 'm');
    assert("gb"@[0] == 'g' && "gib"@[0] == 'g');
    assert("tb"@[0] == 't' && "tib"@[0] == 't');
}

} // verus!
