//! Building text: numbers in decimal, and text with its special characters escaped.

use vstd::prelude::*;

verus! {

/// Calls `String::push`, which puts one character at the end of the text.
#[verifier::external_body]
fn push_char(out: &mut String, c: char)
    ensures
        final(out)@ == old(out)@.push(c),
{
    out.push(c)
}

/// The character of a decimal digit.
pub open spec fn digit_char(d: nat) -> char {
    ((48 + d) as u8) as char
}

/// A number in decimal, without leading zeros.
pub open spec fn decimal(n: nat) -> Seq<char>
    decreases n,
{
    if n < 10 {
        seq![digit_char(n)]
    } else {
        decimal(n / 10).push(digit_char(n % 10))
    }
}

/// A whole number in decimal, with a minus sign where it is negative.
pub open spec fn signed_decimal(i: int) -> Seq<char> {
    if i < 0 {
        seq!['-'] + decimal((-i) as nat)
    } else {
        decimal(i as nat)
    }
}

/// `text` with a backslash before each backslash and each `quote`.
pub open spec fn escaped(text: Seq<char>, quote: char) -> Seq<char>
    decreases text.len(),
{
    if text.len() == 0 {
        Seq::empty()
    } else if text.last() == quote || text.last() == '\\' {
        escaped(text.drop_last(), quote).push('\\').push(text.last())
    } else {
        escaped(text.drop_last(), quote).push(text.last())
    }
}

/// Whether `c` may stand in a name that is written without quotes.
pub open spec fn is_name_char(c: char) -> bool {
    ('a' <= c && c <= 'z') || ('A' <= c && c <= 'Z') || ('0' <= c && c <= '9') || c == '_'
}

/// Whether `text` is a name that is written without quotes: it is not
/// empty, holds letters, digits and underscores only, and does not start
/// with a digit.
pub open spec fn is_plain_name(text: Seq<char>) -> bool {
    &&& text.len() > 0
    &&& !('0' <= text[0] && text[0] <= '9')
    &&& forall|i: int| 0 <= i < text.len() ==> is_name_char(#[trigger] text[i])
}

/// A name as it is written in a statement: as it is where it is plain,
/// between backticks and escaped where it is not.
pub open spec fn name_text(name: Seq<char>) -> Seq<char> {
    if is_plain_name(name) {
        name
    } else {
        seq!['`'] + escaped(name, '`') + seq!['`']
    }
}

/// A string as it is written in a statement: between single quotes, escaped.
pub open spec fn string_text(text: Seq<char>) -> Seq<char> {
    seq!['\''] + escaped(text, '\'') + seq!['\'']
}

fn digit(d: u8) -> (c: char)
    requires
        d < 10,
    ensures
        c == digit_char(d as nat),
{
    match d {
        0 => '0',
        1 => '1',
        2 => '2',
        3 => '3',
        4 => '4',
        5 => '5',
        6 => '6',
        7 => '7',
        8 => '8',
        _ => '9',
    }
}

/// Puts one character at the end of `out`.
pub fn push(out: &mut String, c: char)
    ensures
        final(out)@ == old(out)@.push(c),
{
    push_char(out, c);
}

/// Writes `n` in decimal at the end of `out`.
pub fn push_decimal(out: &mut String, n: u128)
    ensures
        final(out)@ == old(out)@ + decimal(n as nat),
    decreases n,
{
    if n >= 10 {
        push_decimal(out, n / 10);
    }
    push_char(out, digit((n % 10) as u8));
    proof {
        if n >= 10 {
            assert((old(out)@ + decimal((n / 10) as nat)).push(digit_char((n % 10) as nat)) =~= old(
                out,
            )@ + decimal(n as nat));
        } else {
            assert(old(out)@.push(digit_char(n as nat)) =~= old(out)@ + decimal(n as nat));
        }
    }
}

/// Writes `i` in decimal at the end of `out`, with a minus sign where it is negative.
pub fn push_signed(out: &mut String, i: i128)
    ensures
        final(out)@ == old(out)@ + signed_decimal(i as int),
{
    if i < 0 {
        push_char(out, '-');
        let magnitude: u128 = ((-(i + 1)) as u128) + 1;
        push_decimal(out, magnitude);
        assert(out@ =~= old(out)@ + signed_decimal(i as int));
    } else {
        push_decimal(out, i as u128);
    }
}

/// Writes `text` at the end of `out`, with a backslash before each
/// backslash and each `quote`.
pub fn push_escaped(out: &mut String, text: &str, quote: char)
    ensures
        final(out)@ == old(out)@ + escaped(text@, quote),
{
    let n = text.unicode_len();
    let mut i: usize = 0;
    assert(text@.take(0) =~= Seq::<char>::empty());
    assert(out@ =~= old(out)@ + escaped(text@.take(0), quote));
    while i < n
        invariant
            i <= n,
            n == text@.len(),
            out@ == old(out)@ + escaped(text@.take(i as int), quote),
        decreases n - i,
    {
        let c = text.get_char(i);
        let ghost before = out@;
        proof {
            assert(text@.take(i as int + 1).drop_last() =~= text@.take(i as int));
            assert(text@.take(i as int + 1).last() == c);
        }
        if c == quote || c == '\\' {
            push_char(out, '\\');
        }
        push_char(out, c);
        assert(out@ =~= old(out)@ + escaped(text@.take(i as int + 1), quote));
        i += 1;
    }
    assert(text@.take(i as int) =~= text@);
}

/// Whether `text` is a name that is written without quotes.
pub fn plain_name(text: &str) -> (plain: bool)
    ensures
        plain == is_plain_name(text@),
{
    let n = text.unicode_len();
    if n == 0 {
        return false;
    }
    let first = text.get_char(0);
    if '0' <= first && first <= '9' {
        return false;
    }
    let mut i: usize = 0;
    while i < n
        invariant
            i <= n,
            n == text@.len(),
            forall|j: int| 0 <= j < i ==> is_name_char(#[trigger] text@[j]),
        decreases n - i,
    {
        let c = text.get_char(i);
        let ok = ('a' <= c && c <= 'z') || ('A' <= c && c <= 'Z') || ('0' <= c && c <= '9') || c
            == '_';
        if !ok {
            return false;
        }
        i += 1;
    }
    true
}

/// Writes a name at the end of `out`, as it is written in a statement.
pub fn push_name(out: &mut String, name: &str)
    ensures
        final(out)@ == old(out)@ + name_text(name@),
{
    if plain_name(name) {
        out.append(name);
    } else {
        push_char(out, '`');
        push_escaped(out, name, '`');
        push_char(out, '`');
        assert(out@ =~= old(out)@ + name_text(name@));
    }
}

/// Writes a string at the end of `out`, as it is written in a statement.
pub fn push_string(out: &mut String, text: &str)
    ensures
        final(out)@ == old(out)@ + string_text(text@),
{
    push_char(out, '\'');
    push_escaped(out, text, '\'');
    push_char(out, '\'');
    assert(out@ =~= old(out)@ + string_text(text@));
}

/// Whether `a` stands before `b` in the order of texts: at the first place
/// where they differ `a` has the lower character, or `a` ends there and `b`
/// goes on.
pub open spec fn text_before(a: Seq<char>, b: Seq<char>) -> bool
    decreases a.len(),
{
    if b.len() == 0 {
        false
    } else if a.len() == 0 {
        true
    } else if a[0] != b[0] {
        a[0] < b[0]
    } else {
        text_before(a.skip(1), b.skip(1))
    }
}

/// Whether `a` stands before `b` in the order of texts.
pub fn before(a: &str, b: &str) -> (yes: bool)
    ensures
        yes == text_before(a@, b@),
{
    let n = a.unicode_len();
    let m = b.unicode_len();
    let mut i: usize = 0;
    assert(a@.skip(0) =~= a@);
    assert(b@.skip(0) =~= b@);
    while i < n && i < m
        invariant
            i <= n,
            i <= m,
            n == a@.len(),
            m == b@.len(),
            text_before(a@, b@) == text_before(a@.skip(i as int), b@.skip(i as int)),
        decreases n - i,
    {
        let x = a.get_char(i);
        let y = b.get_char(i);
        proof {
            assert(a@.skip(i as int)[0] == x);
            assert(b@.skip(i as int)[0] == y);
            assert(a@.skip(i as int).skip(1) =~= a@.skip(i as int + 1));
            assert(b@.skip(i as int).skip(1) =~= b@.skip(i as int + 1));
        }
        if x != y {
            return x < y;
        }
        i += 1;
    }
    i < m
}

/// Of two texts that differ one stands before the other.
pub proof fn lemma_text_order_total(a: Seq<char>, b: Seq<char>)
    requires
        !text_before(a, b),
        !text_before(b, a),
    ensures
        a == b,
    decreases a.len(),
{
    if a.len() > 0 && b.len() > 0 {
        lemma_text_order_total(a.skip(1), b.skip(1));
        assert(a =~= seq![a[0]] + a.skip(1));
        assert(b =~= seq![b[0]] + b.skip(1));
    } else {
        assert(a =~= b);
    }
}

/// What stands before a text stands before all that the text stands before.
pub proof fn lemma_text_order_transitive(a: Seq<char>, b: Seq<char>, c: Seq<char>)
    requires
        text_before(a, b),
        text_before(b, c),
    ensures
        text_before(a, c),
    decreases a.len(),
{
    if a.len() > 0 && a[0] == b[0] && b[0] == c[0] {
        lemma_text_order_transitive(a.skip(1), b.skip(1), c.skip(1));
    }
}

/// A number in decimal is made of digits.
pub proof fn lemma_decimal_digits(n: nat)
    ensures
        decimal(n).len() > 0,
        forall|i: int| 0 <= i < decimal(n).len() ==> '0' <= #[trigger] decimal(n)[i] <= '9',
    decreases n,
{
    if n >= 10 {
        lemma_decimal_digits(n / 10);
    }
}

} // verus!
