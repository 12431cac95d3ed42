//! Integers as text: what a string has to hold to convert to an integer,
//! and the text an integer converts to.

use vstd::prelude::*;
use vstd::string::StringExecFns;
use vstd::string::StringSliceAdditionalSpecFns;
use vstd::utf8::encode_utf8;
use vstd::utf8::is_ascii_chars;
use crate::typedesc::digits::decimal;
use crate::typedesc::digits::digit_class;
use crate::typedesc::digits::digits_value;
use crate::typedesc::digits::is_digit;
use crate::typedesc::digits::lemma_decimal;
use crate::typedesc::digits::lemma_plain_text_joins;
use crate::typedesc::digits::lemma_run_ends;
use crate::typedesc::digits::lemma_run_is;
use crate::typedesc::digits::push_decimal;
use crate::typedesc::digits::read_digits;
use crate::typedesc::digits::run;
use crate::typedesc::digits::scan_digits;

verus! {

/// The byte `-`.
pub const MINUS: u8 = 45;

/// The byte `+`.
pub const PLUS: u8 = 43;

/// The integer that a text writes, if the whole of it is an integer
/// literal: one or more decimal digits, with or without one `-` or `+`
/// before them, and nothing else.
pub open spec fn literal_value(text: Seq<u8>) -> Option<int> {
    let signed = text.len() > 0 && (text[0] == MINUS || text[0] == PLUS);
    let digits = if signed {
        text.subrange(1, text.len() as int)
    } else {
        text
    };
    if digits.len() >= 1 && run(digits, 0, digit_class()) == digits.len() {
        if signed && text[0] == MINUS {
            Some(-(digits_value(digits) as int))
        } else {
            Some(digits_value(digits) as int)
        }
    } else {
        None
    }
}

/// The byte `.`.
pub const POINT: u8 = 46;

/// Does a text write an exponent from the position `at` to its end: `e` or
/// `E`, with or without one `-` or `+` behind it, and one or more decimal
/// digits?
pub open spec fn exponent_part(text: Seq<u8>, at: int) -> bool {
    let signed = at + 1 < text.len() && (text[at + 1] == MINUS || text[at + 1] == PLUS);
    let digits = if signed {
        at + 2
    } else {
        at + 1
    };
    &&& 0 <= at < text.len()
    &&& (text[at] == 101 || text[at] == 69)
    &&& run(text, digits, digit_class()) >= 1
    &&& digits + run(text, digits, digit_class()) == text.len()
}

/// Is the whole of a text a decimal number: with or without one `-` or `+`
/// at its start, decimal digits with or without a `.` among, before or
/// behind them, at least one digit in all, and with or without an exponent
/// at its end?
pub open spec fn decimal_literal(text: Seq<u8>) -> bool {
    let start: int = if text.len() > 0 && (text[0] == MINUS || text[0] == PLUS) {
        1
    } else {
        0
    };
    let dot = start + run(text, start, digit_class());
    let pointed = dot < text.len() && text[dot] == POINT;
    let fraction = if pointed {
        run(text, dot + 1, digit_class())
    } else {
        0
    };
    let end = if pointed {
        dot + 1 + fraction
    } else {
        dot
    };
    &&& run(text, start, digit_class()) + fraction >= 1
    &&& (end == text.len() || exponent_part(text, end))
}

/// The text of an integer: its decimal numeral, after a `-` where it is
/// negative.
pub open spec fn integer_text(v: int) -> Seq<u8> {
    if v < 0 {
        seq![MINUS] + decimal((-v) as nat)
    } else {
        decimal(v as nat)
    }
}

/// The text of an integer is an integer literal that writes it.
pub proof fn lemma_integer_text_round_trip(v: int)
    ensures
        literal_value(integer_text(v)) == Some(v),
{
    let text = integer_text(v);
    let n = if v < 0 {
        (-v) as nat
    } else {
        v as nat
    };
    let digits = decimal(n);
    lemma_decimal(n);
    assert(MINUS == 45 && PLUS == 43);
    if v < 0 {
        assert(text.subrange(1, text.len() as int) =~= digits);
    } else {
        assert(is_digit(digits[0]));
    }
    assert forall|i: int| 0 <= i < digits.len() implies digit_class()(#[trigger] digits[i]) by {
        assert(is_digit(digits[i]));
    }
    lemma_run_is(digits, 0, digits.len(), digit_class());
}

/// The integer that a text writes, where the whole text is an integer
/// literal whose number lies between `low` and `high`.
pub fn literal_in(s: &[u8], low: i64, high: i64) -> (r: Option<i64>)
    requires
        -0x8000_0000 <= low <= 0 <= high <= 0xffff_ffff,
    ensures
        match r {
            Some(v) => literal_value(s@) == Some(v as int) && low <= v <= high,
            None => match literal_value(s@) {
                Some(v) => v < low || v > high,
                None => true,
            },
        },
{
    let negative: bool = s.len() > 0 && s[0] == MINUS;
    let signed: bool = s.len() > 0 && (s[0] == MINUS || s[0] == PLUS);
    let start: usize = if signed {
        1
    } else {
        0
    };
    let end: usize = scan_digits(s, start);
    let ghost digits = if signed {
        s@.subrange(1, s@.len() as int)
    } else {
        s@
    };
    proof {
        lemma_run_ends(s@, start as int, digit_class());
        lemma_run_ends(digits, 0, digit_class());
        let here = run(s@, start as int, digit_class());
        assert forall|i: int| 0 <= i < here implies digit_class()(#[trigger] digits[i]) by {
            assert(digits[i] == s@[start + i]);
            assert(digit_class()(s@[start + i]));
        }
        if start + here < s@.len() {
            assert(digits[here as int] == s@[start + here]);
        }
        lemma_run_is(digits, 0, here, digit_class());
    }
    if end == start || end < s.len() {
        return None;
    }
    assert(s@.subrange(start as int, end as int) =~= digits);
    assert forall|i: int| start <= i < end implies is_digit(#[trigger] s@[i]) by {
        assert(digit_class()(s@[i]));
    }
    let limit: u32 = if high >= 0 - low {
        high as u32
    } else {
        (0 - low) as u32
    };
    match read_digits(s, start, end, limit) {
        Some(v) => {
            let value: i64 = if negative {
                0 - v as i64
            } else {
                v as i64
            };
            if low <= value && value <= high {
                Some(value)
            } else {
                None
            }
        },
        None => None,
    }
}

/// Is the whole of the text a decimal number?
pub fn is_decimal_literal(s: &[u8]) -> (r: bool)
    ensures
        r == decimal_literal(s@),
{
    let start: usize = if s.len() > 0 && (s[0] == MINUS || s[0] == PLUS) {
        1
    } else {
        0
    };
    let dot: usize = scan_digits(s, start);
    let pointed: bool = dot < s.len() && s[dot] == POINT;
    let end: usize = if pointed {
        scan_digits(s, dot + 1)
    } else {
        dot
    };
    let digits: usize = if pointed {
        (dot - start) + (end - dot - 1)
    } else {
        dot - start
    };
    if digits == 0 {
        return false;
    }
    if end == s.len() {
        return true;
    }
    if s[end] != 101 && s[end] != 69 {
        return false;
    }
    let signed: bool = end + 1 < s.len() && (s[end + 1] == MINUS || s[end + 1] == PLUS);
    let from: usize = if signed {
        end + 2
    } else {
        end + 1
    };
    let last: usize = scan_digits(s, from);
    last > from && last == s.len()
}

/// Reads a string as a signed integer of 32 bits. It is one exactly where
/// the whole string is an integer literal whose number fits.
pub fn integer_from_text(text: &str) -> (r: Option<i32>)
    ensures
        match r {
            Some(v) => literal_value(text.spec_bytes()) == Some(v as int),
            None => match literal_value(text.spec_bytes()) {
                Some(v) => v < -0x8000_0000 || v > 0x7fff_ffff,
                None => true,
            },
        },
{
    match literal_in(text.as_bytes(), -0x8000_0000, 0x7fff_ffff) {
        Some(v) => Some(v as i32),
        None => None,
    }
}

/// Reads a string as an unsigned integer of 32 bits. It is one exactly
/// where the whole string is an integer literal whose number fits.
pub fn unsigned_from_text(text: &str) -> (r: Option<u32>)
    ensures
        match r {
            Some(v) => literal_value(text.spec_bytes()) == Some(v as int),
            None => match literal_value(text.spec_bytes()) {
                Some(v) => v < 0 || v > 0xffff_ffff,
                None => true,
            },
        },
{
    match literal_in(text.as_bytes(), 0, 0xffff_ffff) {
        Some(v) => Some(v as u32),
        None => None,
    }
}

/// Writes a whole number with its sign as text.
pub fn signed_to_text(negative: bool, size: u64) -> (r: String)
    ensures
        is_ascii_chars(r@),
        encode_utf8(r@) == (if negative && size > 0 {
            integer_text(-(size as int))
        } else {
            integer_text(size as int)
        }),
{
    let mut text = String::new();
    proof {
        assert(encode_utf8(text@) =~= Seq::<u8>::empty());
    }
    if negative && size > 0 {
        proof {
            reveal_strlit("-");
            vstd::utf8::is_ascii_chars_encode_utf8("-"@);
            assert(encode_utf8("-"@) =~= seq![MINUS]);
            lemma_plain_text_joins(text@, "-"@);
        }
        text.append("-");
    }
    push_decimal(&mut text, size);
    proof {
        assert(encode_utf8(text@) =~= (if negative && size > 0 {
            integer_text(-(size as int))
        } else {
            integer_text(size as int)
        }));
    }
    text
}

/// Writes an integer as text.
pub fn integer_to_text(v: i64) -> (r: String)
    ensures
        is_ascii_chars(r@),
        encode_utf8(r@) == integer_text(v as int),
{
    if v < 0 {
        let size: u64 = if v == i64::MIN {
            0x8000_0000_0000_0000
        } else {
            (0 - v) as u64
        };
        signed_to_text(true, size)
    } else {
        signed_to_text(false, v as u64)
    }
}

} // verus!
