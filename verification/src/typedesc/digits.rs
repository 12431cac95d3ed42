//! Decimal numerals in text: reading a run of digits and writing a number.

use vstd::prelude::*;
use vstd::string::StringExecFns;
use vstd::utf8::encode_utf8;
use vstd::utf8::is_ascii_chars;

verus! {

/// Is the byte one of the ten decimal digits?
pub open spec fn is_digit(b: u8) -> bool {
    48 <= b <= 57
}

/// The class of the decimal digits.
pub open spec fn digit_class() -> spec_fn(u8) -> bool {
    |b: u8| is_digit(b)
}

/// How many bytes of `s`, from the position `from` on, belong to `class`
/// without a break: the length of the longest such run.
pub open spec fn run(s: Seq<u8>, from: int, class: spec_fn(u8) -> bool) -> nat
    decreases s.len() - from,
{
    if 0 <= from < s.len() && class(s[from]) {
        1 + run(s, from + 1, class)
    } else {
        0
    }
}

/// The number that a sequence of decimal digits writes.
pub open spec fn digits_value(s: Seq<u8>) -> nat
    decreases s.len(),
{
    if s.len() == 0 {
        0
    } else {
        10 * digits_value(s.drop_last()) + (s.last() - 48) as nat
    }
}

/// The decimal numeral of a number: its digits from the most significant
/// on, without leading zeros.
pub open spec fn decimal(n: nat) -> Seq<u8>
    decreases n,
{
    if n < 10 {
        seq![(48 + n) as u8]
    } else {
        decimal(n / 10).push((48 + n % 10) as u8)
    }
}

/// A run ends where the text ends or a byte outside the class stands, and
/// nowhere before.
pub proof fn lemma_run_ends(s: Seq<u8>, from: int, class: spec_fn(u8) -> bool)
    requires
        0 <= from <= s.len(),
    ensures
        from + run(s, from, class) <= s.len(),
        forall|i: int| from <= i < from + run(s, from, class) ==> class(#[trigger] s[i]),
        from + run(s, from, class) < s.len() ==> !class(s[from + run(s, from, class)]),
    decreases s.len() - from,
{
    if from < s.len() && class(s[from]) {
        lemma_run_ends(s, from + 1, class);
    }
}

/// A stretch of bytes of the class that ends at the end of the text or
/// before a byte outside the class is the run.
pub proof fn lemma_run_is(s: Seq<u8>, from: int, len: nat, class: spec_fn(u8) -> bool)
    requires
        0 <= from,
        from + len <= s.len(),
        forall|i: int| from <= i < from + len ==> class(#[trigger] s[i]),
        from + len < s.len() ==> !class(s[from + len]),
    ensures
        run(s, from, class) == len,
    decreases len,
{
    if len > 0 {
        lemma_run_is(s, from + 1, (len - 1) as nat, class);
    }
}

/// A numeral has at least one digit and nothing but digits, and it writes
/// its number.
pub proof fn lemma_decimal(n: nat)
    ensures
        decimal(n).len() >= 1,
        forall|i: int| 0 <= i < decimal(n).len() ==> is_digit(#[trigger] decimal(n)[i]),
        digits_value(decimal(n)) == n,
    decreases n,
{
    if n < 10 {
        let s = decimal(n);
        assert(s.drop_last() =~= Seq::<u8>::empty());
        assert(digits_value(s.drop_last()) == 0);
    } else {
        lemma_decimal(n / 10);
        let s = decimal(n);
        assert(s.drop_last() =~= decimal(n / 10));
    }
}

/// One more digit multiplies what was read by ten and adds the digit, so the
/// number read never gets smaller.
pub proof fn lemma_digits_step(s: Seq<u8>, from: int, to: int)
    requires
        0 <= from <= to < s.len(),
        is_digit(s[to]),
    ensures
        digits_value(s.subrange(from, to + 1)) == 10 * digits_value(s.subrange(from, to)) + (s[to]
            - 48),
        digits_value(s.subrange(from, to)) <= digits_value(s.subrange(from, to + 1)),
{
    let longer = s.subrange(from, to + 1);
    assert(longer.drop_last() =~= s.subrange(from, to));
}

/// Reading on never makes the number smaller.
pub proof fn lemma_digits_grow(s: Seq<u8>, from: int, mid: int, to: int)
    requires
        0 <= from <= mid <= to <= s.len(),
        forall|i: int| from <= i < to ==> is_digit(#[trigger] s[i]),
    ensures
        digits_value(s.subrange(from, mid)) <= digits_value(s.subrange(from, to)),
    decreases to - mid,
{
    if mid < to {
        lemma_digits_step(s, from, to - 1);
        lemma_digits_grow(s, from, mid, to - 1);
    }
}

/// The position at which the run of digits that starts at `from` ends.
pub(crate) fn scan_digits(s: &[u8], from: usize) -> (end: usize)
    requires
        from <= s.len(),
    ensures
        end == from + run(s@, from as int, digit_class()),
        end <= s.len(),
{
    let mut i: usize = from;
    while i < s.len() && s[i] >= 48 && s[i] <= 57
        invariant
            from <= i <= s.len(),
            forall|j: int| from <= j < i ==> is_digit(#[trigger] s@[j]),
        decreases s.len() - i,
    {
        i = i + 1;
    }
    proof {
        lemma_run_is(s@, from as int, (i - from) as nat, digit_class());
    }
    i
}

/// The number that the digits from `from` up to `to` write, as far as it is
/// at most `limit`.
pub(crate) fn read_digits(s: &[u8], from: usize, to: usize, limit: u32) -> (r: Option<u32>)
    requires
        from <= to <= s.len(),
        forall|i: int| from <= i < to ==> is_digit(#[trigger] s@[i]),
    ensures
        match r {
            Some(v) => v == digits_value(s@.subrange(from as int, to as int)) && v <= limit,
            None => digits_value(s@.subrange(from as int, to as int)) > limit,
        },
{
    let mut value: u64 = 0;
    let mut i: usize = from;
    assert(s@.subrange(from as int, from as int) =~= Seq::<u8>::empty());
    while i < to
        invariant
            from <= i <= to <= s.len(),
            forall|j: int| from <= j < to ==> is_digit(#[trigger] s@[j]),
            value == digits_value(s@.subrange(from as int, i as int)),
            value <= limit,
        decreases to - i,
    {
        let digit: u64 = (s[i] - 48) as u64;
        let next: u64 = value * 10 + digit;
        proof {
            lemma_digits_step(s@, from as int, i as int);
        }
        if next > limit as u64 {
            proof {
                lemma_digits_grow(s@, from as int, i + 1, to as int);
            }
            return None;
        }
        value = next;
        i = i + 1;
    }
    Some(value as u32)
}

/// The text of one decimal digit.
fn digit_text(d: u64) -> (r: &'static str)
    requires
        d < 10,
    ensures
        is_ascii_chars(r@),
        encode_utf8(r@) == seq![(48 + d) as u8],
{
    proof {
        reveal_strlit("0");
        reveal_strlit("1");
        reveal_strlit("2");
        reveal_strlit("3");
        reveal_strlit("4");
        reveal_strlit("5");
        reveal_strlit("6");
        reveal_strlit("7");
        reveal_strlit("8");
        reveal_strlit("9");
    }
    let r = match d {
        0 => "0",
        1 => "1",
        2 => "2",
        3 => "3",
        4 => "4",
        5 => "5",
        6 => "6",
        7 => "7",
        8 => "8",
        _ => "9",
    };
    proof {
        vstd::utf8::is_ascii_chars_encode_utf8(r@);
        assert(encode_utf8(r@) =~= seq![(48 + d) as u8]);
    }
    r
}

/// The bytes of two texts of plain characters, one after the other, are the
/// bytes of the first and then the bytes of the second.
pub proof fn lemma_plain_text_joins(a: Seq<char>, b: Seq<char>)
    requires
        is_ascii_chars(a),
        is_ascii_chars(b),
    ensures
        is_ascii_chars(a + b),
        encode_utf8(a + b) == encode_utf8(a) + encode_utf8(b),
{
    vstd::utf8::is_ascii_chars_concat(a + b, a, b);
    vstd::utf8::is_ascii_chars_encode_utf8(a);
    vstd::utf8::is_ascii_chars_encode_utf8(b);
    vstd::utf8::is_ascii_chars_encode_utf8(a + b);
    assert(encode_utf8(a + b) =~= encode_utf8(a) + encode_utf8(b));
}

/// Writes the decimal numeral of `n` at the end of `text`.
pub(crate) fn push_decimal(text: &mut String, n: u64)
    requires
        is_ascii_chars(old(text)@),
    ensures
        is_ascii_chars(final(text)@),
        encode_utf8(final(text)@) == encode_utf8(old(text)@) + decimal(n as nat),
    decreases n,
{
    if n >= 10 {
        push_decimal(text, n / 10);
    }
    let ghost before = text@;
    let digit = digit_text(n % 10);
    text.append(digit);
    proof {
        lemma_plain_text_joins(before, digit@);
        assert(encode_utf8(text@) =~= encode_utf8(old(text)@) + decimal(n as nat));
    }
}

} // verus!
