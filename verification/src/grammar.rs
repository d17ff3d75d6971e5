//! The written forms of decimals, durations and datetimes.

use vstd::prelude::*;

verus! {

/// Whether `c` is a decimal digit.
pub open spec fn is_digit(c: char) -> bool {
    '0' <= c <= '9'
}

/// Whether `text` is made of decimal digits, at least one.
pub open spec fn is_digits(text: Seq<char>) -> bool {
    text.len() > 0 && forall|i: int| 0 <= i < text.len() ==> is_digit(#[trigger] text[i])
}

/// The number of decimal digits that `text` starts with.
pub open spec fn digit_run(text: Seq<char>) -> nat
    decreases text.len(),
{
    if text.len() > 0 && is_digit(text[0]) {
        1 + digit_run(text.skip(1))
    } else {
        0
    }
}

/// Whether `text` is a decimal number without its sign: digits, or digits,
/// a point and digits.
pub open spec fn is_unsigned_decimal(text: Seq<char>) -> bool {
    let whole = digit_run(text);
    whole > 0 && (whole == text.len() || (text[whole as int] == '.' && is_digits(
        text.skip(whole as int + 1),
    )))
}

/// Whether `text` is a decimal number: an optional sign, digits, and
/// optionally a point and more digits.
pub open spec fn is_decimal(text: Seq<char>) -> bool {
    if text.len() > 0 && (text[0] == '-' || text[0] == '+') {
        is_unsigned_decimal(text.skip(1))
    } else {
        is_unsigned_decimal(text)
    }
}

/// The length of the unit that `text` starts with: `ns`, `us`, `µs`, `ms`,
/// `s`, `m`, `h`, `d`, `w` or `y`; 0 where it starts with none.
pub open spec fn unit_len(text: Seq<char>) -> nat {
    if text.len() >= 2 && text[1] == 's' && (text[0] == 'n' || text[0] == 'u' || text[0] == 'µ'
        || text[0] == 'm') {
        2
    } else if text.len() >= 1 && (text[0] == 's' || text[0] == 'm' || text[0] == 'h' || text[0]
        == 'd' || text[0] == 'w' || text[0] == 'y') {
        1
    } else {
        0
    }
}

/// Whether `text` is made of amounts: each is digits and a unit.
pub open spec fn is_amounts(text: Seq<char>) -> bool
    decreases text.len(),
{
    if text.len() == 0 {
        true
    } else {
        let digits = digit_run(text);
        if digits == 0 || digits > text.len() {
            false
        } else {
            let unit = unit_len(text.skip(digits as int));
            if unit == 0 || digits + unit > text.len() {
                false
            } else {
                is_amounts(text.skip((digits + unit) as int))
            }
        }
    }
}

/// Whether `text` is a duration: one amount or more, such as `1h30m`.
pub open spec fn is_duration(text: Seq<char>) -> bool {
    text.len() > 0 && is_amounts(text)
}

/// The number that the two digits at `i` denote.
pub open spec fn two_digits(text: Seq<char>, i: int) -> int {
    (text[i] as int - 48) * 10 + (text[i + 1] as int - 48)
}

/// Whether two digits stand at `i` and denote a number from `low` to `high`.
pub open spec fn is_two_digits(text: Seq<char>, i: int, low: int, high: int) -> bool {
    is_digit(text[i]) && is_digit(text[i + 1]) && low <= two_digits(text, i) <= high
}

/// Whether `text` is the zone of a datetime: `Z`, or a sign, hours, a colon
/// and minutes.
pub open spec fn is_zone(text: Seq<char>) -> bool {
    (text.len() == 1 && text[0] == 'Z') || (text.len() == 6 && (text[0] == '+' || text[0] == '-')
        && is_two_digits(text, 1, 0, 23) && text[3] == ':' && is_two_digits(text, 4, 0, 59))
}

/// Whether `text` is a datetime: a year of four digits, month and day, `T`,
/// hours, minutes and seconds, optionally a point and the digits of a
/// fraction of a second, and a zone, such as `2024-01-31T23:59:59.5Z`.
pub open spec fn is_datetime(text: Seq<char>) -> bool {
    &&& text.len() >= 20
    &&& is_digit(text[0]) && is_digit(text[1]) && is_digit(text[2]) && is_digit(text[3])
    &&& text[4] == '-'
    &&& is_two_digits(text, 5, 1, 12)
    &&& text[7] == '-'
    &&& is_two_digits(text, 8, 1, 31)
    &&& text[10] == 'T'
    &&& is_two_digits(text, 11, 0, 23)
    &&& text[13] == ':'
    &&& is_two_digits(text, 14, 0, 59)
    &&& text[16] == ':'
    &&& is_two_digits(text, 17, 0, 59)
    &&& if text[19] == '.' {
        digit_run(text.skip(20)) > 0 && is_zone(text.skip(20 + digit_run(text.skip(20)) as int))
    } else {
        is_zone(text.skip(19))
    }
}

/// The digits that a text starts with are no more than its characters, and
/// behind them stands no digit.
pub proof fn lemma_digit_run(text: Seq<char>)
    ensures
        digit_run(text) <= text.len(),
        forall|i: int| 0 <= i < digit_run(text) ==> is_digit(#[trigger] text[i]),
        digit_run(text) < text.len() ==> !is_digit(text[digit_run(text) as int]),
    decreases text.len(),
{
    if text.len() > 0 && is_digit(text[0]) {
        lemma_digit_run(text.skip(1));
        assert forall|i: int| 0 <= i < digit_run(text) implies is_digit(#[trigger] text[i]) by {
            if i > 0 {
                assert(text.skip(1)[i - 1] == text[i]);
            }
        }
        if digit_run(text) < text.len() {
            assert(text.skip(1)[digit_run(text.skip(1)) as int] == text[digit_run(text) as int]);
        }
    }
}

/// A run of digits that is known by its end is what `digit_run` counts.
pub proof fn lemma_digit_run_is(text: Seq<char>, n: int)
    requires
        0 <= n <= text.len(),
        forall|i: int| 0 <= i < n ==> is_digit(#[trigger] text[i]),
        n < text.len() ==> !is_digit(text[n]),
    ensures
        digit_run(text) == n,
    decreases text.len(),
{
    if n > 0 {
        assert(is_digit(text[0]));
        assert forall|i: int| 0 <= i < n - 1 implies is_digit(#[trigger] text.skip(1)[i]) by {
            assert(text.skip(1)[i] == text[i + 1]);
        }
        if n < text.len() {
            assert(text.skip(1)[n - 1] == text[n]);
        }
        lemma_digit_run_is(text.skip(1), n - 1);
    }
}

fn digit(c: char) -> (yes: bool)
    ensures
        yes == is_digit(c),
{
    '0' <= c && c <= '9'
}

/// The place behind the digits that start at `from`.
fn digits_end(text: &str, from: usize, n: usize) -> (end: usize)
    requires
        from <= n,
        n == text@.len(),
    ensures
        from <= end <= n,
        end - from == digit_run(text@.skip(from as int)),
{
    let mut end = from;
    while end < n && digit(text.get_char(end))
        invariant
            from <= end <= n,
            n == text@.len(),
            forall|i: int| from <= i < end ==> is_digit(#[trigger] text@[i]),
        decreases n - end,
    {
        end += 1;
    }
    proof {
        let rest = text@.skip(from as int);
        assert forall|i: int| 0 <= i < end - from implies is_digit(#[trigger] rest[i]) by {
            assert(rest[i] == text@[from + i]);
        }
        if end < n {
            assert(rest[end - from] == text@[end as int]);
        }
        lemma_digit_run_is(rest, end - from);
    }
    end
}

/// Whether `text` is made of decimal digits, at least one.
pub fn all_digits(text: &str) -> (yes: bool)
    ensures
        yes == is_digits(text@),
{
    let n = text.unicode_len();
    if n == 0 {
        return false;
    }
    let mut i: usize = 0;
    while i < n
        invariant
            i <= n,
            n == text@.len(),
            forall|j: int| 0 <= j < i ==> is_digit(#[trigger] text@[j]),
        decreases n - i,
    {
        if !digit(text.get_char(i)) {
            return false;
        }
        i += 1;
    }
    true
}

/// Whether `text` is a decimal number.
pub fn decimal_text(text: &str) -> (yes: bool)
    ensures
        yes == is_decimal(text@),
{
    let n = text.unicode_len();
    let start: usize = if n > 0 && (text.get_char(0) == '-' || text.get_char(0) == '+') {
        1
    } else {
        0
    };
    let ghost body = text@.skip(start as int);
    assert(start == 0 ==> body =~= text@);
    let end = digits_end(text, start, n);
    if end == start {
        return false;
    }
    if end == n {
        return true;
    }
    assert(body[end - start] == text@[end as int]);
    if text.get_char(end) != '.' {
        return false;
    }
    let tail = digits_end(text, end + 1, n);
    proof {
        let rest = text@.skip(end as int + 1);
        assert(body.skip(end - start + 1) =~= rest);
        lemma_digit_run(rest);
        if tail == n && tail > end + 1 {
            assert(is_digits(rest));
        }
        if is_digits(rest) {
            lemma_digit_run_is(rest, rest.len() as int);
        }
    }
    tail == n && tail > end + 1
}

/// The length of the unit that stands at `from`.
fn unit_at(text: &str, from: usize, n: usize) -> (len: usize)
    requires
        from <= n,
        n == text@.len(),
    ensures
        len == unit_len(text@.skip(from as int)),
{
    let ghost rest = text@.skip(from as int);
    if from == n {
        return 0;
    }
    let c = text.get_char(from);
    assert(rest[0] == c);
    if n - from > 1 {
        assert(rest[1] == text@[from + 1]);
        if text.get_char(from + 1) == 's' && (c == 'n' || c == 'u' || c == 'µ' || c == 'm') {
            return 2;
        }
    }
    if c == 's' || c == 'm' || c == 'h' || c == 'd' || c == 'w' || c == 'y' {
        1
    } else {
        0
    }
}

/// Whether `text` is a duration.
pub fn duration_text(text: &str) -> (yes: bool)
    ensures
        yes == is_duration(text@),
{
    let n = text.unicode_len();
    if n == 0 {
        return false;
    }
    let mut i: usize = 0;
    assert(text@.skip(0) =~= text@);
    while i < n
        invariant
            i <= n,
            n == text@.len(),
            is_amounts(text@) == is_amounts(text@.skip(i as int)),
        decreases n - i,
    {
        let ghost rest = text@.skip(i as int);
        let end = digits_end(text, i, n);
        if end == i {
            return false;
        }
        assert(rest.skip(end - i) =~= text@.skip(end as int));
        let unit = unit_at(text, end, n);
        if unit == 0 {
            return false;
        }
        proof {
            assert(rest.skip((end - i + unit) as int) =~= text@.skip((end + unit) as int));
        }
        i = end + unit;
    }
    true
}

fn two(text: &str, i: usize, low: u32, high: u32) -> (yes: bool)
    requires
        i + 1 < text@.len() <= usize::MAX,
    ensures
        yes == is_two_digits(text@, i as int, low as int, high as int),
{
    let a = text.get_char(i);
    let b = text.get_char(i + 1);
    if !digit(a) || !digit(b) {
        return false;
    }
    let value: u32 = (a as u32 - 48) * 10 + (b as u32 - 48);
    low <= value && value <= high
}

fn zone_text(text: &str, from: usize, n: usize) -> (yes: bool)
    requires
        from <= n,
        n == text@.len(),
    ensures
        yes == is_zone(text@.skip(from as int)),
{
    let ghost zone = text@.skip(from as int);
    if n - from == 1 {
        assert(zone[0] == text@[from as int]);
        text.get_char(from) == 'Z'
    } else if n - from == 6 {
        proof {
            assert(zone[0] == text@[from as int]);
            assert(zone[1] == text@[from + 1]);
            assert(zone[2] == text@[from + 2]);
            assert(zone[3] == text@[from + 3]);
            assert(zone[4] == text@[from + 4]);
            assert(zone[5] == text@[from + 5]);
        }
        (text.get_char(from) == '+' || text.get_char(from) == '-') && two(text, from + 1, 0, 23)
            && text.get_char(from + 3) == ':' && two(text, from + 4, 0, 59)
    } else {
        false
    }
}

/// Whether `text` is a datetime.
pub fn datetime_text(text: &str) -> (yes: bool)
    ensures
        yes == is_datetime(text@),
{
    let n = text.unicode_len();
    if n < 20 {
        return false;
    }
    let head = digit(text.get_char(0)) && digit(text.get_char(1)) && digit(text.get_char(2))
        && digit(text.get_char(3)) && text.get_char(4) == '-' && two(text, 5, 1, 12)
        && text.get_char(7) == '-' && two(text, 8, 1, 31) && text.get_char(10) == 'T' && two(
        text,
        11,
        0,
        23,
    ) && text.get_char(13) == ':' && two(text, 14, 0, 59) && text.get_char(16) == ':' && two(
        text,
        17,
        0,
        59,
    );
    if !head {
        return false;
    }
    if text.get_char(19) == '.' {
        let end = digits_end(text, 20, n);
        end > 20 && zone_text(text, end, n)
    } else {
        zone_text(text, 19, n)
    }
}

} // verus!
