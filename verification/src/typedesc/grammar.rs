//! The names of descriptors: reading a descriptor from text and writing
//! the text of a descriptor.
//!
//! A name is a word, followed or not by an array length in square brackets:
//! `float`, `int[5]`, `point[]`. The word is the keyword of a kind, which
//! names a single scalar of that kind, or one of a few words that name an
//! aggregate of floats together with its hint. `[` and `]` around a number
//! give the length of an array, and `[]` an array of unspecified length.
//! Text is taken as bytes.

use vstd::prelude::*;
use vstd::std_specs::convert::FromSpecImpl;
use vstd::string::StringExecFns;
use vstd::string::StringSliceAdditionalSpecFns;
use vstd::utf8::encode_utf8;
use vstd::utf8::is_ascii_chars;
use crate::typedesc::desc::TypeDesc;
use crate::typedesc::digits::decimal;
use crate::typedesc::digits::digit_class;
use crate::typedesc::digits::digits_value;
use crate::typedesc::digits::lemma_decimal;
use crate::typedesc::digits::lemma_plain_text_joins;
use crate::typedesc::digits::lemma_run_ends;
use crate::typedesc::digits::lemma_run_is;
use crate::typedesc::digits::push_decimal;
use crate::typedesc::digits::read_digits;
use crate::typedesc::digits::run;
use crate::typedesc::digits::scan_digits;
use crate::typedesc::kinds::Aggregate;
use crate::typedesc::kinds::BaseType;
use crate::typedesc::kinds::VecSemantics;

verus! {

/// The byte `[`.
pub const OPEN: u8 = 91;

/// The byte `]`.
pub const CLOSE: u8 = 93;

/// Can the byte stand in a word: is it a letter, a digit or `_`?
pub open spec fn is_word_byte(b: u8) -> bool {
    (48 <= b <= 57) || (65 <= b <= 90) || (97 <= b <= 122) || b == 95
}

/// The class of the bytes that can stand in a word.
pub open spec fn word_class() -> spec_fn(u8) -> bool {
    |b: u8| is_word_byte(b)
}

/// A number in square brackets.
pub open spec fn bracketed(n: nat) -> Seq<u8> {
    seq![OPEN] + decimal(n) + seq![CLOSE]
}

/// How an array length is written: its number in square brackets, the
/// brackets alone for a length that is not given, and nothing for a value
/// that is no array.
pub open spec fn length_text(arraylen: i32) -> Seq<u8> {
    if arraylen > 0 {
        bracketed(arraylen as nat)
    } else if arraylen < 0 {
        seq![OPEN, CLOSE]
    } else {
        Seq::empty()
    }
}

/// The array length written in `s` at the position `from`, with the number
/// of bytes it takes.
///
/// Where no `[` stands there is no length: the value is no array and
/// nothing is taken. After `[` come digits, as many as there are, and `]`.
/// Without digits the length is unspecified, which is written -1. With
/// digits it is their number, which has to be at least 1 and at most the
/// largest `i32`. Anything else after `[` is malformed.
pub open spec fn read_length(s: Seq<u8>, from: int) -> Option<(i32, nat)> {
    if from >= s.len() || s[from] != OPEN {
        Some((0i32, 0nat))
    } else {
        let digits = run(s, from + 1, digit_class());
        let close = from + 1 + digits;
        if close < s.len() && s[close] == CLOSE {
            if digits == 0 {
                Some((-1i32, 2nat))
            } else {
                let v = digits_value(s.subrange(from + 1, close));
                if 1 <= v <= i32::MAX {
                    Some((v as i32, digits + 2))
                } else {
                    None
                }
            }
        } else {
            None
        }
    }
}

impl BaseType {
    /// The keyword of the kind. `LastBase` has none.
    pub open spec fn keyword(self) -> Option<Seq<u8>> {
        match self {
            BaseType::Unknown => Some("unknown".spec_bytes()),
            BaseType::Void => Some("void".spec_bytes()),
            BaseType::UInt8 => Some("uint8".spec_bytes()),
            BaseType::Int8 => Some("int8".spec_bytes()),
            BaseType::UInt16 => Some("uint16".spec_bytes()),
            BaseType::Int16 => Some("int16".spec_bytes()),
            BaseType::UInt32 => Some("uint".spec_bytes()),
            BaseType::Int32 => Some("int".spec_bytes()),
            BaseType::UInt64 => Some("uint64".spec_bytes()),
            BaseType::Int64 => Some("int64".spec_bytes()),
            BaseType::Half => Some("half".spec_bytes()),
            BaseType::Float => Some("float".spec_bytes()),
            BaseType::Double => Some("double".spec_bytes()),
            BaseType::String => Some("string".spec_bytes()),
            BaseType::Ptr => Some("pointer".spec_bytes()),
            BaseType::UStringHash => Some("ustringhash".spec_bytes()),
            BaseType::LastBase => None,
        }
    }
}

impl TypeDesc {
    /// A single scalar of the given kind, without a hint.
    pub open spec fn plain(b: BaseType) -> TypeDesc {
        TypeDesc {
            basetype: b,
            aggregate: Aggregate::Scalar,
            arraylen: 0,
            vecsemantics: VecSemantics::NoSemantics,
        }
    }

    /// A single aggregate of floats with a hint.
    pub open spec fn floats(agg: Aggregate, semantics: VecSemantics) -> TypeDesc {
        TypeDesc {
            basetype: BaseType::Float,
            aggregate: agg,
            arraylen: 0,
            vecsemantics: semantics,
        }
    }

    /// What a word names, if it names anything: the table of all words.
    pub open spec fn named(word: Seq<u8>) -> Option<TypeDesc> {
        if word == "unknown".spec_bytes() {
            Some(TypeDesc::plain(BaseType::Unknown))
        } else if word == "void".spec_bytes() {
            Some(TypeDesc::plain(BaseType::Void))
        } else if word == "uint8".spec_bytes() {
            Some(TypeDesc::plain(BaseType::UInt8))
        } else if word == "int8".spec_bytes() {
            Some(TypeDesc::plain(BaseType::Int8))
        } else if word == "uint16".spec_bytes() {
            Some(TypeDesc::plain(BaseType::UInt16))
        } else if word == "int16".spec_bytes() {
            Some(TypeDesc::plain(BaseType::Int16))
        } else if word == "uint".spec_bytes() {
            Some(TypeDesc::plain(BaseType::UInt32))
        } else if word == "int".spec_bytes() {
            Some(TypeDesc::plain(BaseType::Int32))
        } else if word == "uint64".spec_bytes() {
            Some(TypeDesc::plain(BaseType::UInt64))
        } else if word == "int64".spec_bytes() {
            Some(TypeDesc::plain(BaseType::Int64))
        } else if word == "half".spec_bytes() {
            Some(TypeDesc::plain(BaseType::Half))
        } else if word == "float".spec_bytes() {
            Some(TypeDesc::plain(BaseType::Float))
        } else if word == "double".spec_bytes() {
            Some(TypeDesc::plain(BaseType::Double))
        } else if word == "string".spec_bytes() {
            Some(TypeDesc::plain(BaseType::String))
        } else if word == "pointer".spec_bytes() {
            Some(TypeDesc::plain(BaseType::Ptr))
        } else if word == "ustringhash".spec_bytes() {
            Some(TypeDesc::plain(BaseType::UStringHash))
        } else if word == "color".spec_bytes() {
            Some(TypeDesc::floats(Aggregate::Vec3, VecSemantics::Color))
        } else if word == "point".spec_bytes() {
            Some(TypeDesc::floats(Aggregate::Vec3, VecSemantics::Point))
        } else if word == "vector".spec_bytes() {
            Some(TypeDesc::floats(Aggregate::Vec3, VecSemantics::Vector))
        } else if word == "normal".spec_bytes() {
            Some(TypeDesc::floats(Aggregate::Vec3, VecSemantics::Normal))
        } else if word == "matrix".spec_bytes() {
            Some(TypeDesc::floats(Aggregate::Matrix44, VecSemantics::NoSemantics))
        } else if word == "matrix33".spec_bytes() {
            Some(TypeDesc::floats(Aggregate::Matrix33, VecSemantics::NoSemantics))
        } else {
            None
        }
    }

    /// The word that stands for kind, aggregate and hint together, where
    /// there is one.
    pub open spec fn alias(self) -> Option<Seq<u8>> {
        if self.basetype != BaseType::Float {
            None
        } else {
            match (self.aggregate, self.vecsemantics) {
                (Aggregate::Vec3, VecSemantics::Color) => Some("color".spec_bytes()),
                (Aggregate::Vec3, VecSemantics::Point) => Some("point".spec_bytes()),
                (Aggregate::Vec3, VecSemantics::Vector) => Some("vector".spec_bytes()),
                (Aggregate::Vec3, VecSemantics::Normal) => Some("normal".spec_bytes()),
                (Aggregate::Matrix44, VecSemantics::NoSemantics) => Some("matrix".spec_bytes()),
                (Aggregate::Matrix33, VecSemantics::NoSemantics) => Some("matrix33".spec_bytes()),
                _ => None,
            }
        }
    }
}


impl TypeDesc {
    /// The descriptor that `s` starts with, and the number of bytes of `s`
    /// that describe it.
    ///
    /// The word is the longest run of letters, digits and `_` at the start
    /// of `s`, taken whole, and it has to be in the table. An array length
    /// may follow it. Where the word is not in the table, or what follows
    /// it is malformed, the result is the unknown descriptor and 0 bytes.
    pub open spec fn parse(s: Seq<u8>) -> (TypeDesc, nat) {
        let len = run(s, 0, word_class());
        match TypeDesc::named(s.subrange(0, len as int)) {
            Some(d) => match read_length(s, len as int) {
                Some((arraylen, taken)) => (TypeDesc { arraylen: arraylen, ..d }, len + taken),
                None => (TypeDesc::plain(BaseType::Unknown), 0),
            },
            None => (TypeDesc::plain(BaseType::Unknown), 0),
        }
    }

    /// The text that stands for kind, aggregate and hint: the alias where
    /// there is one, else the keyword of the kind, followed for an aggregate
    /// by the number of its components in square brackets. A descriptor of
    /// the kind `LastBase` has no text.
    pub open spec fn stem(self) -> Option<Seq<u8>> {
        match self.alias() {
            Some(word) => Some(word),
            None => match self.basetype.keyword() {
                Some(word) => if self.aggregate == Aggregate::Scalar {
                    Some(word)
                } else {
                    Some(word + bracketed(self.aggregate.code()))
                },
                None => None,
            },
        }
    }

    /// The name of the descriptor: its stem and its array length.
    pub open spec fn name(self) -> Option<Seq<u8>> {
        match self.stem() {
            Some(stem) => Some(stem + length_text(self.arraylen)),
            None => None,
        }
    }
}

/// Every word of the table is made of one or more word bytes, and the
/// descriptor it names has the word as its stem.
pub proof fn lemma_words(word: Seq<u8>)
    requires
        TypeDesc::named(word) is Some,
    ensures
        word.len() >= 1,
        forall|i: int| 0 <= i < word.len() ==> is_word_byte(#[trigger] word[i]),
        TypeDesc::named(word)->0.arraylen == 0,
        TypeDesc::named(word)->0.stem() == Some(word),
{
    lemma_table_bytes();
}

/// The bytes of the words of the table, one by one: each word is plain text
/// and holds the bytes of its letters and digits.
pub proof fn lemma_table_bytes()
    ensures
        is_ascii_chars("unknown"@),
        "unknown".spec_bytes() == seq![117u8, 110u8, 107u8, 110u8, 111u8, 119u8, 110u8],
        is_ascii_chars("void"@),
        "void".spec_bytes() == seq![118u8, 111u8, 105u8, 100u8],
        is_ascii_chars("uint8"@),
        "uint8".spec_bytes() == seq![117u8, 105u8, 110u8, 116u8, 56u8],
        is_ascii_chars("int8"@),
        "int8".spec_bytes() == seq![105u8, 110u8, 116u8, 56u8],
        is_ascii_chars("uint16"@),
        "uint16".spec_bytes() == seq![117u8, 105u8, 110u8, 116u8, 49u8, 54u8],
        is_ascii_chars("int16"@),
        "int16".spec_bytes() == seq![105u8, 110u8, 116u8, 49u8, 54u8],
        is_ascii_chars("uint"@),
        "uint".spec_bytes() == seq![117u8, 105u8, 110u8, 116u8],
        is_ascii_chars("int"@),
        "int".spec_bytes() == seq![105u8, 110u8, 116u8],
        is_ascii_chars("uint64"@),
        "uint64".spec_bytes() == seq![117u8, 105u8, 110u8, 116u8, 54u8, 52u8],
        is_ascii_chars("int64"@),
        "int64".spec_bytes() == seq![105u8, 110u8, 116u8, 54u8, 52u8],
        is_ascii_chars("half"@),
        "half".spec_bytes() == seq![104u8, 97u8, 108u8, 102u8],
        is_ascii_chars("float"@),
        "float".spec_bytes() == seq![102u8, 108u8, 111u8, 97u8, 116u8],
        is_ascii_chars("double"@),
        "double".spec_bytes() == seq![100u8, 111u8, 117u8, 98u8, 108u8, 101u8],
        is_ascii_chars("string"@),
        "string".spec_bytes() == seq![115u8, 116u8, 114u8, 105u8, 110u8, 103u8],
        is_ascii_chars("pointer"@),
        "pointer".spec_bytes() == seq![112u8, 111u8, 105u8, 110u8, 116u8, 101u8, 114u8],
        is_ascii_chars("ustringhash"@),
        "ustringhash".spec_bytes() == seq![117u8, 115u8, 116u8, 114u8, 105u8, 110u8, 103u8, 104u8, 97u8, 115u8, 104u8],
        is_ascii_chars("color"@),
        "color".spec_bytes() == seq![99u8, 111u8, 108u8, 111u8, 114u8],
        is_ascii_chars("point"@),
        "point".spec_bytes() == seq![112u8, 111u8, 105u8, 110u8, 116u8],
        is_ascii_chars("vector"@),
        "vector".spec_bytes() == seq![118u8, 101u8, 99u8, 116u8, 111u8, 114u8],
        is_ascii_chars("normal"@),
        "normal".spec_bytes() == seq![110u8, 111u8, 114u8, 109u8, 97u8, 108u8],
        is_ascii_chars("matrix"@),
        "matrix".spec_bytes() == seq![109u8, 97u8, 116u8, 114u8, 105u8, 120u8],
        is_ascii_chars("matrix33"@),
        "matrix33".spec_bytes() == seq![109u8, 97u8, 116u8, 114u8, 105u8, 120u8, 51u8, 51u8],
{
    reveal_strlit("unknown");
    vstd::string::is_ascii_spec_bytes("unknown");
    assert("unknown".spec_bytes() =~= seq![117u8, 110u8, 107u8, 110u8, 111u8, 119u8, 110u8]);
    reveal_strlit("void");
    vstd::string::is_ascii_spec_bytes("void");
    assert("void".spec_bytes() =~= seq![118u8, 111u8, 105u8, 100u8]);
    reveal_strlit("uint8");
    vstd::string::is_ascii_spec_bytes("uint8");
    assert("uint8".spec_bytes() =~= seq![117u8, 105u8, 110u8, 116u8, 56u8]);
    reveal_strlit("int8");
    vstd::string::is_ascii_spec_bytes("int8");
    assert("int8".spec_bytes() =~= seq![105u8, 110u8, 116u8, 56u8]);
    reveal_strlit("uint16");
    vstd::string::is_ascii_spec_bytes("uint16");
    assert("uint16".spec_bytes() =~= seq![117u8, 105u8, 110u8, 116u8, 49u8, 54u8]);
    reveal_strlit("int16");
    vstd::string::is_ascii_spec_bytes("int16");
    assert("int16".spec_bytes() =~= seq![105u8, 110u8, 116u8, 49u8, 54u8]);
    reveal_strlit("uint");
    vstd::string::is_ascii_spec_bytes("uint");
    assert("uint".spec_bytes() =~= seq![117u8, 105u8, 110u8, 116u8]);
    reveal_strlit("int");
    vstd::string::is_ascii_spec_bytes("int");
    assert("int".spec_bytes() =~= seq![105u8, 110u8, 116u8]);
    reveal_strlit("uint64");
    vstd::string::is_ascii_spec_bytes("uint64");
    assert("uint64".spec_bytes() =~= seq![117u8, 105u8, 110u8, 116u8, 54u8, 52u8]);
    reveal_strlit("int64");
    vstd::string::is_ascii_spec_bytes("int64");
    assert("int64".spec_bytes() =~= seq![105u8, 110u8, 116u8, 54u8, 52u8]);
    reveal_strlit("half");
    vstd::string::is_ascii_spec_bytes("half");
    assert("half".spec_bytes() =~= seq![104u8, 97u8, 108u8, 102u8]);
    reveal_strlit("float");
    vstd::string::is_ascii_spec_bytes("float");
    assert("float".spec_bytes() =~= seq![102u8, 108u8, 111u8, 97u8, 116u8]);
    reveal_strlit("double");
    vstd::string::is_ascii_spec_bytes("double");
    assert("double".spec_bytes() =~= seq![100u8, 111u8, 117u8, 98u8, 108u8, 101u8]);
    reveal_strlit("string");
    vstd::string::is_ascii_spec_bytes("string");
    assert("string".spec_bytes() =~= seq![115u8, 116u8, 114u8, 105u8, 110u8, 103u8]);
    reveal_strlit("pointer");
    vstd::string::is_ascii_spec_bytes("pointer");
    assert("pointer".spec_bytes() =~= seq![112u8, 111u8, 105u8, 110u8, 116u8, 101u8, 114u8]);
    reveal_strlit("ustringhash");
    vstd::string::is_ascii_spec_bytes("ustringhash");
    assert("ustringhash".spec_bytes() =~= seq![117u8, 115u8, 116u8, 114u8, 105u8, 110u8, 103u8, 104u8, 97u8, 115u8, 104u8]);
    reveal_strlit("color");
    vstd::string::is_ascii_spec_bytes("color");
    assert("color".spec_bytes() =~= seq![99u8, 111u8, 108u8, 111u8, 114u8]);
    reveal_strlit("point");
    vstd::string::is_ascii_spec_bytes("point");
    assert("point".spec_bytes() =~= seq![112u8, 111u8, 105u8, 110u8, 116u8]);
    reveal_strlit("vector");
    vstd::string::is_ascii_spec_bytes("vector");
    assert("vector".spec_bytes() =~= seq![118u8, 101u8, 99u8, 116u8, 111u8, 114u8]);
    reveal_strlit("normal");
    vstd::string::is_ascii_spec_bytes("normal");
    assert("normal".spec_bytes() =~= seq![110u8, 111u8, 114u8, 109u8, 97u8, 108u8]);
    reveal_strlit("matrix");
    vstd::string::is_ascii_spec_bytes("matrix");
    assert("matrix".spec_bytes() =~= seq![109u8, 97u8, 116u8, 114u8, 105u8, 120u8]);
    reveal_strlit("matrix33");
    vstd::string::is_ascii_spec_bytes("matrix33");
    assert("matrix33".spec_bytes() =~= seq![109u8, 97u8, 116u8, 114u8, 105u8, 120u8, 51u8, 51u8]);
}

/// Reading the text of a word of the table, with or without an array length
/// written after it, gives the descriptor that the word names with that
/// length, and takes the whole text; and that descriptor's name is the text
/// again. The length is written as a name writes it: the number without
/// leading zeros, or nothing between the brackets for -1.
pub proof fn lemma_name_round_trip(word: Seq<u8>, arraylen: i32)
    requires
        TypeDesc::named(word) is Some,
        arraylen >= -1,
    ensures
        ({
            let text = word + length_text(arraylen);
            let d = TypeDesc { arraylen: arraylen, ..TypeDesc::named(word)->0 };
            &&& TypeDesc::parse(text) == (d, text.len())
            &&& d.name() == Some(text)
        }),
{
    lemma_words(word);
    let tail = length_text(arraylen);
    let text = word + tail;
    let from = word.len() as int;
    assert(OPEN == 91 && CLOSE == 93);
    if arraylen > 0 {
        lemma_decimal(arraylen as nat);
    }
    assert(tail.len() > 0 ==> tail[0] == OPEN);
    assert forall|i: int| 0 <= i < from implies word_class()(#[trigger] text[i]) by {
        assert(text[i] == word[i]);
    }
    lemma_run_is(text, 0, word.len(), word_class());
    assert(text.subrange(0, from) =~= word);
    if arraylen > 0 {
        let digits = decimal(arraylen as nat);
        assert forall|i: int| from + 1 <= i < from + 1 + digits.len() implies digit_class()(
            #[trigger] text[i],
        ) by {
            assert(text[i] == digits[i - from - 1]);
        }
        assert(text[from + 1 + digits.len()] == CLOSE);
        lemma_run_is(text, from + 1, digits.len(), digit_class());
        assert(text.subrange(from + 1, from + 1 + digits.len()) =~= digits);
    } else if arraylen < 0 {
        assert(text[from + 1] == CLOSE);
        lemma_run_is(text, from + 1, 0, digit_class());
    }
}

/// A descriptor that was read from a text has a name, and reading that name
/// gives the same descriptor again and takes the whole name.
pub proof fn lemma_parsed_has_name(s: Seq<u8>)
    requires
        TypeDesc::parse(s).1 > 0,
    ensures
        TypeDesc::parse(s).0.name() is Some,
        TypeDesc::parse(TypeDesc::parse(s).0.name()->0) == (
            TypeDesc::parse(s).0,
            TypeDesc::parse(s).0.name()->0.len(),
        ),
{
    let len = run(s, 0, word_class());
    let word = s.subrange(0, len as int);
    let (arraylen, taken) = read_length(s, len as int).unwrap();
    lemma_name_round_trip(word, arraylen);
}

/// Reading never takes more than there is, and takes nothing only where it
/// gives the unknown descriptor.
pub proof fn lemma_parse_bounds(s: Seq<u8>)
    ensures
        TypeDesc::parse(s).1 <= s.len(),
        TypeDesc::parse(s).1 == 0 ==> TypeDesc::parse(s).0 == TypeDesc::plain(BaseType::Unknown),
        TypeDesc::parse(s).0.arraylen >= -1,
{
    lemma_run_ends(s, 0, word_class());
    let len = run(s, 0, word_class());
    if len < s.len() {
        lemma_run_ends(s, (len + 1) as int, digit_class());
    }
    if TypeDesc::named(s.subrange(0, len as int)) is Some {
        lemma_words(s.subrange(0, len as int));
    }
}

/// The position at which the run of word bytes that starts at `from` ends.
fn scan_word(s: &[u8], from: usize) -> (end: usize)
    requires
        from <= s.len(),
    ensures
        end == from + run(s@, from as int, word_class()),
        end <= s.len(),
{
    let mut i: usize = from;
    while i < s.len() && is_word(s[i])
        invariant
            from <= i <= s.len(),
            forall|j: int| from <= j < i ==> is_word_byte(#[trigger] s@[j]),
        decreases s.len() - i,
    {
        i = i + 1;
    }
    proof {
        lemma_run_is(s@, from as int, (i - from) as nat, word_class());
    }
    i
}

fn is_word(b: u8) -> (r: bool)
    ensures
        r == is_word_byte(b),
{
    (48 <= b && b <= 57) || (65 <= b && b <= 90) || (97 <= b && b <= 122) || b == 95
}

/// Are the first `len` bytes of `s` the given word?
fn starts_with_word(s: &[u8], len: usize, word: &str) -> (r: bool)
    requires
        len <= s.len(),
    ensures
        r == (s@.subrange(0, len as int) == word.spec_bytes()),
{
    let w = word.as_bytes();
    if w.len() != len {
        return false;
    }
    let mut i: usize = 0;
    while i < len
        invariant
            i <= len <= s.len(),
            w@.len() == len,
            w@ == word.spec_bytes(),
            forall|j: int| 0 <= j < i ==> s@[j] == w@[j],
        decreases len - i,
    {
        if s[i] != w[i] {
            assert(s@.subrange(0, len as int)[i as int] != w@[i as int]);
            return false;
        }
        i = i + 1;
    }
    assert(s@.subrange(0, len as int) =~= w@);
    true
}

/// What the first `len` bytes of `s` name.
fn look_up(s: &[u8], len: usize) -> (r: Option<TypeDesc>)
    requires
        len <= s.len(),
    ensures
        r == TypeDesc::named(s@.subrange(0, len as int)),
{
    if starts_with_word(s, len, "unknown") {
        Some(TypeDesc::from_basetype_arraylen(BaseType::Unknown, 0))
    } else if starts_with_word(s, len, "void") {
        Some(TypeDesc::from_basetype_arraylen(BaseType::Void, 0))
    } else if starts_with_word(s, len, "uint8") {
        Some(TypeDesc::from_basetype_arraylen(BaseType::UInt8, 0))
    } else if starts_with_word(s, len, "int8") {
        Some(TypeDesc::from_basetype_arraylen(BaseType::Int8, 0))
    } else if starts_with_word(s, len, "uint16") {
        Some(TypeDesc::from_basetype_arraylen(BaseType::UInt16, 0))
    } else if starts_with_word(s, len, "int16") {
        Some(TypeDesc::from_basetype_arraylen(BaseType::Int16, 0))
    } else if starts_with_word(s, len, "uint") {
        Some(TypeDesc::from_basetype_arraylen(BaseType::UInt32, 0))
    } else if starts_with_word(s, len, "int") {
        Some(TypeDesc::from_basetype_arraylen(BaseType::Int32, 0))
    } else if starts_with_word(s, len, "uint64") {
        Some(TypeDesc::from_basetype_arraylen(BaseType::UInt64, 0))
    } else if starts_with_word(s, len, "int64") {
        Some(TypeDesc::from_basetype_arraylen(BaseType::Int64, 0))
    } else if starts_with_word(s, len, "half") {
        Some(TypeDesc::from_basetype_arraylen(BaseType::Half, 0))
    } else if starts_with_word(s, len, "float") {
        Some(TypeDesc::from_basetype_arraylen(BaseType::Float, 0))
    } else if starts_with_word(s, len, "double") {
        Some(TypeDesc::from_basetype_arraylen(BaseType::Double, 0))
    } else if starts_with_word(s, len, "string") {
        Some(TypeDesc::from_basetype_arraylen(BaseType::String, 0))
    } else if starts_with_word(s, len, "pointer") {
        Some(TypeDesc::from_basetype_arraylen(BaseType::Ptr, 0))
    } else if starts_with_word(s, len, "ustringhash") {
        Some(TypeDesc::from_basetype_arraylen(BaseType::UStringHash, 0))
    } else if starts_with_word(s, len, "color") {
        Some(TypeDesc::new(BaseType::Float, Aggregate::Vec3, VecSemantics::Color, 0))
    } else if starts_with_word(s, len, "point") {
        Some(TypeDesc::new(BaseType::Float, Aggregate::Vec3, VecSemantics::Point, 0))
    } else if starts_with_word(s, len, "vector") {
        Some(TypeDesc::new(BaseType::Float, Aggregate::Vec3, VecSemantics::Vector, 0))
    } else if starts_with_word(s, len, "normal") {
        Some(TypeDesc::new(BaseType::Float, Aggregate::Vec3, VecSemantics::Normal, 0))
    } else if starts_with_word(s, len, "matrix") {
        Some(TypeDesc::new(BaseType::Float, Aggregate::Matrix44, VecSemantics::NoSemantics, 0))
    } else if starts_with_word(s, len, "matrix33") {
        Some(TypeDesc::new(BaseType::Float, Aggregate::Matrix33, VecSemantics::NoSemantics, 0))
    } else {
        None
    }
}

/// The array length written in `s` at `from`, and the position after it.
fn scan_length(s: &[u8], from: usize) -> (r: Option<(i32, usize)>)
    requires
        from <= s.len(),
    ensures
        match r {
            Some((arraylen, end)) => read_length(s@, from as int) == Some(
                (arraylen, (end - from) as nat),
            ) && from <= end <= s.len(),
            None => read_length(s@, from as int) is None,
        },
{
    if from >= s.len() || s[from] != OPEN {
        return Some((0, from));
    }
    let close: usize = scan_digits(s, from + 1);
    proof {
        lemma_run_ends(s@, from + 1, digit_class());
    }
    if close >= s.len() || s[close] != CLOSE {
        return None;
    }
    if close == from + 1 {
        return Some((-1, close + 1));
    }
    match read_digits(s, from + 1, close, 0x7fff_ffff) {
        Some(v) => if v >= 1 {
            Some((v as i32, close + 1))
        } else {
            None
        },
        None => None,
    }
}

impl BaseType {
    /// The keyword of the kind, as text.
    fn keyword_text(self) -> (r: Option<&'static str>)
        ensures
            match r {
                Some(t) => self.keyword() == Some(t.spec_bytes()) && is_ascii_chars(t@),
                None => self.keyword() is None,
            },
    {
        proof {
            lemma_table_bytes();
        }
        match self {
            BaseType::Unknown => Some("unknown"),
            BaseType::Void => Some("void"),
            BaseType::UInt8 => Some("uint8"),
            BaseType::Int8 => Some("int8"),
            BaseType::UInt16 => Some("uint16"),
            BaseType::Int16 => Some("int16"),
            BaseType::UInt32 => Some("uint"),
            BaseType::Int32 => Some("int"),
            BaseType::UInt64 => Some("uint64"),
            BaseType::Int64 => Some("int64"),
            BaseType::Half => Some("half"),
            BaseType::Float => Some("float"),
            BaseType::Double => Some("double"),
            BaseType::String => Some("string"),
            BaseType::Ptr => Some("pointer"),
            BaseType::UStringHash => Some("ustringhash"),
            BaseType::LastBase => None,
        }
    }
}

/// Writes `[`, the decimal numeral of `n` and `]` at the end of `text`.
fn push_bracketed(text: &mut String, n: u64)
    requires
        is_ascii_chars(old(text)@),
    ensures
        is_ascii_chars(final(text)@),
        encode_utf8(final(text)@) == encode_utf8(old(text)@) + bracketed(n as nat),
{
    proof {
        reveal_strlit("[");
        reveal_strlit("]");
        vstd::utf8::is_ascii_chars_encode_utf8("["@);
        vstd::utf8::is_ascii_chars_encode_utf8("]"@);
        assert(encode_utf8("["@) =~= seq![OPEN]);
        assert(encode_utf8("]"@) =~= seq![CLOSE]);
    }
    let ghost start = text@;
    text.append("[");
    let ghost opened = text@;
    proof {
        lemma_plain_text_joins(start, "["@);
    }
    push_decimal(text, n);
    let ghost written = text@;
    text.append("]");
    proof {
        lemma_plain_text_joins(written, "]"@);
        assert(encode_utf8(text@) =~= encode_utf8(start) + bracketed(n as nat));
    }
}

impl TypeDesc {
    /// Reads the descriptor that `text` starts with. The second number is
    /// how many bytes of `text` describe it: 0 where `text` starts with no
    /// descriptor, and the descriptor is then the unknown one.
    pub fn scan(text: &[u8]) -> (r: (TypeDesc, usize))
        ensures
            r.0 == TypeDesc::parse(text@).0,
            r.1 == TypeDesc::parse(text@).1,
            r.1 <= text.len(),
    {
        let unknown = TypeDesc::from_basetype_arraylen(BaseType::Unknown, 0);
        let len: usize = scan_word(text, 0);
        match look_up(text, len) {
            Some(d) => match scan_length(text, len) {
                Some((arraylen, end)) => (
                    TypeDesc::new(d.basetype, d.aggregate, d.vecsemantics, arraylen),
                    end,
                ),
                None => (unknown, 0),
            },
            None => (unknown, 0),
        }
    }

    /// Sets the descriptor to the one that `typestring` starts with and
    /// returns the number of bytes of `typestring` that describe it. Where
    /// `typestring` starts with no descriptor, 0 is returned and the
    /// descriptor stays as it is.
    pub fn set_from_string(&mut self, typestring: &str) -> (taken: usize)
        ensures
            taken == TypeDesc::parse(typestring.spec_bytes()).1,
            taken <= typestring.spec_bytes().len(),
            *final(self) == (if taken > 0 {
                TypeDesc::parse(typestring.spec_bytes()).0
            } else {
                *old(self)
            }),
    {
        let (d, taken) = TypeDesc::scan(typestring.as_bytes());
        if taken > 0 {
            *self = d;
        }
        taken
    }

    /// The alias of the descriptor, as text.
    fn alias_text(&self) -> (r: Option<&'static str>)
        ensures
            match r {
                Some(t) => self.alias() == Some(t.spec_bytes()) && is_ascii_chars(t@),
                None => self.alias() is None,
            },
    {
        proof {
            lemma_table_bytes();
        }
        match self.basetype {
            BaseType::Float => match (self.aggregate, self.vecsemantics) {
                (Aggregate::Vec3, VecSemantics::Color) => Some("color"),
                (Aggregate::Vec3, VecSemantics::Point) => Some("point"),
                (Aggregate::Vec3, VecSemantics::Vector) => Some("vector"),
                (Aggregate::Vec3, VecSemantics::Normal) => Some("normal"),
                (Aggregate::Matrix44, VecSemantics::NoSemantics) => Some("matrix"),
                (Aggregate::Matrix33, VecSemantics::NoSemantics) => Some("matrix33"),
                _ => None,
            },
            _ => None,
        }
    }

    /// The name of the descriptor, such as `float`, `int[5]` or `normal`.
    /// A descriptor of the kind `LastBase` has none.
    pub fn to_string(&self) -> (r: Option<String>)
        ensures
            match r {
                Some(text) => self.name() == Some(encode_utf8(text@)) && is_ascii_chars(text@),
                None => self.name() is None,
            },
            r is None <==> self.basetype == BaseType::LastBase,
    {
        let mut text: String;
        match self.alias_text() {
            Some(word) => {
                text = String::from_str(word);
            },
            None => match self.basetype.keyword_text() {
                Some(word) => {
                    text = String::from_str(word);
                    match self.aggregate {
                        Aggregate::Scalar => {},
                        _ => {
                            let count: u8 = self.aggregate.to_code();
                            push_bracketed(&mut text, count as u64);
                        },
                    }
                },
                None => {
                    return None;
                },
            },
        }
        assert(Some(encode_utf8(text@)) == self.stem());
        let ghost stem = text@;
        if self.arraylen > 0 {
            push_bracketed(&mut text, self.arraylen as u64);
        } else if self.arraylen < 0 {
            proof {
                reveal_strlit("[]");
                vstd::utf8::is_ascii_chars_encode_utf8("[]"@);
                assert(encode_utf8("[]"@) =~= seq![OPEN, CLOSE]);
                lemma_plain_text_joins(stem, "[]"@);
            }
            text.append("[]");
        } else {
            assert(encode_utf8(text@) =~= encode_utf8(stem) + length_text(self.arraylen));
        }
        Some(text)
    }
}

impl<'a> From<&'a str> for TypeDesc {
    /// The descriptor that the text starts with, or the unknown descriptor
    /// where it starts with none.
    fn from(value: &'a str) -> (r: TypeDesc) {
        let (d, taken) = TypeDesc::scan(value.as_bytes());
        d
    }
}

impl<'a> FromSpecImpl<&'a str> for TypeDesc {
    open spec fn obeys_from_spec() -> bool {
        true
    }

    open spec fn from_spec(value: &'a str) -> TypeDesc {
        TypeDesc::parse(value.spec_bytes()).0
    }
}

impl From<String> for TypeDesc {
    /// The descriptor that the text starts with, or the unknown descriptor
    /// where it starts with none.
    fn from(value: String) -> (r: TypeDesc) {
        let (d, taken) = TypeDesc::scan(value.as_str().as_bytes());
        d
    }
}

impl FromSpecImpl<String> for TypeDesc {
    open spec fn obeys_from_spec() -> bool {
        true
    }

    open spec fn from_spec(value: String) -> TypeDesc {
        TypeDesc::parse(encode_utf8(value@)).0
    }
}

impl<'a> From<&'a String> for TypeDesc {
    /// The descriptor that the text starts with, or the unknown descriptor
    /// where it starts with none.
    fn from(value: &'a String) -> (r: TypeDesc) {
        let (d, taken) = TypeDesc::scan(value.as_str().as_bytes());
        d
    }
}

impl<'a> FromSpecImpl<&'a String> for TypeDesc {
    open spec fn obeys_from_spec() -> bool {
        true
    }

    open spec fn from_spec(value: &'a String) -> TypeDesc {
        TypeDesc::parse(encode_utf8(value@)).0
    }
}

} // verus!
