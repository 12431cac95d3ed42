//! Converting values from one type to another, strings among them.
//!
//! The values of a conversion are held as bytes or as strings: scalars of
//! every kind but `String` lie in bytes, one after the other, and strings
//! are held as texts, one for each scalar.
//!
//! Two steps of a conversion are not computed here, because they pass
//! through the decimal text of a floating-point number: writing such a
//! number out, and reading a text as one. The caller supplies their
//! results, and the contract says what is done with them.

use vstd::prelude::*;
use vstd::slice::slice_to_vec;
use vstd::utf8::encode_utf8;
use crate::typedesc::bytes::le_bytes;
use crate::typedesc::bytes::le_value;
use crate::typedesc::bytes::lemma_le_bytes_len;
use crate::typedesc::bytes::read_le;
use crate::typedesc::bytes::write_le;
use crate::typedesc::convert::read_number;
use crate::typedesc::convert::Conversion;
use crate::typedesc::desc::TypeDesc;
use crate::typedesc::kinds::Aggregate;
use crate::typedesc::kinds::BaseType;
use crate::typedesc::text::decimal_literal;
use crate::typedesc::text::integer_text;
use crate::typedesc::text::is_decimal_literal;
use crate::typedesc::text::literal_in;
use crate::typedesc::text::literal_value;
use crate::typedesc::text::signed_to_text;

verus! {

/// The values that a conversion reads or writes.
#[derive(Debug, Clone, PartialEq, Eq)]
pub enum Values {
    /// scalars of any kind but `String`, in bytes
    Bytes(Vec<u8>),
    /// strings, one for each scalar
    Texts(Vec<String>),
}

/// What values hold: bytes, or texts that are taken as their bytes.
pub enum Held {
    /// bytes
    Bytes(Seq<u8>),
    /// the bytes of each text
    Texts(Seq<Seq<u8>>),
}

/// The bytes of each of the strings.
pub open spec fn texts_of(v: Seq<String>) -> Seq<Seq<u8>> {
    Seq::new(v.len(), |i: int| encode_utf8(v[i]@))
}

impl View for Values {
    type V = Held;

    open spec fn view(&self) -> Held {
        match self {
            Values::Bytes(v) => Held::Bytes(v@),
            Values::Texts(v) => Held::Texts(texts_of(v@)),
        }
    }
}

/// What the caller supplies of the steps that pass through the decimal text
/// of a floating-point number.
#[derive(Debug, Clone)]
pub struct Decimals {
    /// the text of each floating-point scalar of the source, in their
    /// order; read where floating-point numbers become strings
    pub texts: Vec<String>,
    /// for each string of the source, in their order, the bits of the
    /// 32-bit float that it writes, or `None` where it writes none; read
    /// where strings become floats
    pub floats: Vec<Option<u32>>,
}

/// The text of one scalar of a kind that is neither a floating-point kind
/// nor `String`: of an integer its decimal numeral with its sign, of a
/// pointer and of a hash the decimal numeral of the number in their bytes,
/// and of a kind without bytes the empty text.
pub open spec fn scalar_text(kind: BaseType, bytes: Seq<u8>) -> Seq<u8> {
    if kind.is_integer() {
        integer_text(kind.integer(bytes))
    } else if bytes.len() == 0 {
        Seq::empty()
    } else {
        integer_text(le_value(bytes) as int)
    }
}

/// The text of the scalar with the index `i` of the source: a string is its
/// own text, the text of a floating-point number is the one that was
/// supplied for it, and every other scalar has the text of its kind.
pub open spec fn text_at(kind: BaseType, src: Held, supplied: Seq<Seq<u8>>, i: int) -> Seq<u8> {
    match src {
        Held::Texts(texts) => texts[i],
        Held::Bytes(bytes) => if kind.is_floating() {
            supplied[i]
        } else {
            scalar_text(kind, kind.scalar(bytes, i as nat))
        },
    }
}

/// What stands between the texts of the scalars of one element: a comma and
/// a blank.
pub open spec fn separator() -> Seq<u8> {
    seq![44u8, 32u8]
}

/// The texts one after the other, with the separator between each two.
pub open spec fn joined(parts: Seq<Seq<u8>>) -> Seq<u8>
    decreases parts.len(),
{
    if parts.len() == 0 {
        Seq::empty()
    } else if parts.len() == 1 {
        parts[0]
    } else {
        joined(parts.drop_last()) + separator() + parts.last()
    }
}

/// The texts of `n` elements of `each` scalars, laid out as `n` elements of
/// `wide` strings: the first string of an element holds the texts of all
/// the scalars of the element, joined, and the other strings of the
/// element are empty.
pub open spec fn grouped(parts: Seq<Seq<u8>>, each: nat, wide: nat, n: nat) -> Seq<Seq<u8>>
    decreases n,
{
    if n == 0 {
        Seq::empty()
    } else {
        grouped(parts, each, wide, (n - 1) as nat) + seq![
            joined(parts.subrange((n - 1) * each, (n * each) as int)),
        ] + Seq::new((wide - 1) as nat, |j: int| Seq::<u8>::empty())
    }
}

/// The 32 bits that a text becomes as an integer of the kind `to`, which is
/// `Int32` or `UInt32`: the whole text has to be an integer literal whose
/// number fits the kind.
pub open spec fn literal_word(text: Seq<u8>, to: BaseType) -> Option<u32> {
    match literal_value(text) {
        Some(v) => if to == BaseType::Int32 {
            if -0x8000_0000 <= v <= 0x7fff_ffff {
                Some((v % 0x1_0000_0000) as u32)
            } else {
                None
            }
        } else {
            if 0 <= v <= 0xffff_ffff {
                Some(v as u32)
            } else {
                None
            }
        },
        None => None,
    }
}

/// The 32 bits that the string with the index `i` of the source becomes.
/// As a float, the whole of it has to be a decimal number, and its bits are
/// those that were supplied for it; as an integer, its bits are those of
/// the number it writes.
pub open spec fn word_at(texts: Seq<Seq<u8>>, to: BaseType, supplied: Seq<Option<u32>>, i: int)
    -> Option<u32> {
    if to == BaseType::Float {
        if 0 <= i < supplied.len() && decimal_literal(texts[i]) {
            supplied[i]
        } else {
            None
        }
    } else {
        literal_word(texts[i], to)
    }
}

/// The bytes of words of 32 bits, one after the other.
pub open spec fn words_bytes(words: Seq<u32>) -> Seq<u8>
    decreases words.len(),
{
    if words.len() == 0 {
        Seq::empty()
    } else {
        words_bytes(words.drop_last()) + le_bytes(words.last() as nat, 4)
    }
}

impl TypeDesc {
    /// Do the values hold `n` elements of the type? A type of the kind
    /// `String` is held as texts, one for each scalar, and every other
    /// type as bytes; and the kind has to have a size.
    pub open spec fn held_in(self, values: Held, n: nat) -> bool {
        match values {
            Held::Bytes(bytes) => self.basetype != BaseType::String && self.span(n) is Ok
                && self.span(n).unwrap() <= bytes.len(),
            Held::Texts(texts) => self.basetype == BaseType::String && self.aggregate.times(n)
                <= texts.len(),
        }
    }

    /// Does `convert_type` convert `n` elements?
    ///
    /// It does where `n` is not negative, source and destination hold `n`
    /// elements of their types, and the rule of the two types can be
    /// followed. A copy always can. To strings everything converts,
    /// whatever the aggregates, given a text for each floating-point
    /// scalar, as long as the machine word can count the scalars, which a
    /// word of 64 bits always can. To `Int32`, `UInt32` and `Float` the conversion goes scalar
    /// by scalar and asks for the same aggregate on both sides; every
    /// number converts, and strings convert where each of them gives a
    /// number: as an integer, where the whole of it is an integer literal
    /// that fits; as a float, where the whole of it is a decimal number and
    /// bits were supplied for it.
    pub open spec fn converts(
        src: TypeDesc,
        from: Held,
        dst: TypeDesc,
        into: Held,
        n: int,
        texts: Seq<Seq<u8>>,
        floats: Seq<Option<u32>>,
    ) -> bool {
        &&& n >= 0
        &&& src.held_in(from, n as nat)
        &&& dst.held_in(into, n as nat)
        &&& match TypeDesc::conversion(src, dst) {
            Conversion::Copy => true,
            Conversion::Unsupported => false,
            Conversion::Text => src.aggregate.times(n as nat) <= usize::MAX && (
            src.basetype.is_floating() ==> src.aggregate.times(n as nat) <= texts.len()),
            _ => src.aggregate == dst.aggregate && match from {
                Held::Bytes(_) => src.basetype.is_number(),
                Held::Texts(strings) => forall|i: int|
                    0 <= i < src.aggregate.times(n as nat) ==> (#[trigger] word_at(
                        strings,
                        dst.basetype,
                        floats,
                        i,
                    )) is Some,
            },
        }
    }

    /// What the destination holds after `n` elements were converted into
    /// it: the converted elements, and behind them what it held before.
    ///
    /// Between equal aggregates every scalar is converted by itself and
    /// stands in the place of its scalar. A destination of strings with
    /// another aggregate than the source takes each element as one text:
    /// the texts of the scalars of the element, joined, in the first string
    /// of the element, whose other strings are left empty.
    pub open spec fn converted(
        src: TypeDesc,
        from: Held,
        dst: TypeDesc,
        into: Held,
        n: nat,
        texts: Seq<Seq<u8>>,
        floats: Seq<Option<u32>>,
    ) -> Held {
        let count = src.aggregate.times(n);
        match into {
            Held::Texts(before) => {
                let parts = Seq::new(count, |i: int| text_at(src.basetype, from, texts, i));
                let written = if src.aggregate == dst.aggregate {
                    parts
                } else {
                    grouped(parts, src.aggregate.code(), dst.aggregate.code(), n)
                };
                Held::Texts(
                    written + before.subrange(
                        dst.aggregate.times(n) as int,
                        before.len() as int,
                    ),
                )
            },
            Held::Bytes(before) => match from {
                Held::Bytes(bytes) => Held::Bytes(
                    TypeDesc::converted_bytes(src, bytes, dst, before, n),
                ),
                Held::Texts(strings) => Held::Bytes(
                    words_bytes(
                        Seq::new(count, |i: int| word_at(strings, dst.basetype, floats, i).unwrap()),
                    ) + before.subrange(4 * (count as int), before.len() as int),
                ),
            },
        }
    }
}

/// Between bytes and bytes `convert_type` does what `convert_bytes` does:
/// the two convert on the same inputs and store the same bytes, whatever
/// was supplied besides.
pub proof fn lemma_bytes_as_values(
    src: TypeDesc,
    from: Seq<u8>,
    dst: TypeDesc,
    into: Seq<u8>,
    n: int,
    texts: Seq<Seq<u8>>,
    floats: Seq<Option<u32>>,
)
    ensures
        TypeDesc::converts(src, Held::Bytes(from), dst, Held::Bytes(into), n, texts, floats)
            == TypeDesc::converts_bytes(src, from.len(), dst, into.len(), n),
        n >= 0 ==> TypeDesc::converted(
            src,
            Held::Bytes(from),
            dst,
            Held::Bytes(into),
            n as nat,
            texts,
            floats,
        ) == Held::Bytes(TypeDesc::converted_bytes(src, from, dst, into, n as nat)),
{
}

/// The bytes of the strings of two sequences, one after the other, are the
/// bytes of the first and then of the second; and the bytes of a stretch of
/// strings are that stretch of the bytes.
pub proof fn lemma_texts_of(a: Seq<String>, b: Seq<String>, from: int, to: int)
    requires
        0 <= from <= to <= a.len(),
    ensures
        texts_of(a + b) == texts_of(a) + texts_of(b),
        texts_of(a.subrange(from, to)) == texts_of(a).subrange(from, to),
{
    assert(texts_of(a + b) =~= texts_of(a) + texts_of(b));
    assert(texts_of(a.subrange(from, to)) =~= texts_of(a).subrange(from, to));
}

/// The number of scalars of `n` elements of the aggregate.
fn count_of(agg: Aggregate, n: u32) -> (c: u64)
    requires
        n <= 0x7fff_ffff,
    ensures
        c == agg.times(n as nat),
{
    let each: u64 = match agg {
        Aggregate::Scalar => 1,
        Aggregate::Vec2 => 2,
        Aggregate::Vec3 => 3,
        Aggregate::Vec4 => 4,
        Aggregate::Matrix33 => 9,
        Aggregate::Matrix44 => 16,
    };
    each * n as u64
}

/// Copies of the first `count` strings of `from`.
fn take_texts(from: &Vec<String>, count: usize) -> (r: Vec<String>)
    requires
        count <= from.len(),
    ensures
        r@ == from@.subrange(0, count as int),
{
    let mut r: Vec<String> = Vec::new();
    let mut i: usize = 0;
    while i < count
        invariant
            i <= count <= from.len(),
            r@ == from@.subrange(0, i as int),
        decreases count - i,
    {
        let text = from[i].clone();
        r.push(text);
        i = i + 1;
        assert(r@ =~= from@.subrange(0, i as int));
    }
    r
}

/// Puts copies of the strings of `from`, from the index `start` on, at the
/// end of `to`.
fn append_texts(to: &mut Vec<String>, from: &Vec<String>, start: usize)
    requires
        start <= from.len(),
    ensures
        final(to)@ == old(to)@ + from@.subrange(start as int, from@.len() as int),
{
    let mut i: usize = start;
    assert(to@ =~= old(to)@ + from@.subrange(start as int, start as int));
    while i < from.len()
        invariant
            start <= i <= from.len(),
            to@ == old(to)@ + from@.subrange(start as int, i as int),
        decreases from.len() - i,
    {
        let text = from[i].clone();
        to.push(text);
        i = i + 1;
        assert(to@ =~= old(to)@ + from@.subrange(start as int, i as int));
    }
}

/// The texts of the first `count` scalars of the kind in `from`.
fn render_scalars(kind: BaseType, width: usize, from: &[u8], count: usize) -> (r: Vec<String>)
    requires
        !kind.is_floating(),
        kind != BaseType::String,
        kind.byte_size() == Some(width as nat),
        width <= 8,
        count * width <= from.len(),
    ensures
        r@.len() == count,
        forall|i: int|
            0 <= i < count ==> encode_utf8(#[trigger] r@[i]@) == scalar_text(
                kind,
                kind.scalar(from@, i as nat),
            ),
{
    let mut r: Vec<String> = Vec::new();
    let mut i: usize = 0;
    let mut at: usize = 0;
    while i < count
        invariant
            !kind.is_floating(),
            kind != BaseType::String,
            kind.byte_size() == Some(width as nat),
            width <= 8,
            count * width <= from.len(),
            i <= count,
            at == i * width,
            r@.len() == i,
            forall|j: int|
                0 <= j < i ==> encode_utf8(#[trigger] r@[j]@) == scalar_text(
                    kind,
                    kind.scalar(from@, j as nat),
                ),
        decreases count - i,
    {
        proof {
            assert((i + 1) * width <= count * width) by (nonlinear_arith)
                requires
                    i + 1 <= count,
            ;
            assert((i + 1) * width == i * width + width) by (nonlinear_arith);
            kind.lemma_bytes_for(i as nat);
            kind.lemma_bytes_for((i + 1) as nat);
        }
        let ghost bytes = kind.scalar(from@, i as nat);
        assert(bytes =~= from@.subrange(at as int, at + width));
        let raw: u64 = read_le(from, at, width);
        let text = match kind {
            BaseType::UInt8
            | BaseType::Int8
            | BaseType::UInt16
            | BaseType::Int16
            | BaseType::UInt32
            | BaseType::Int32
            | BaseType::UInt64
            | BaseType::Int64 => {
                let x = read_number(kind, width, raw, Ghost(bytes));
                signed_to_text(x.negative, x.mantissa)
            },
            _ => if width == 0 {
                let empty = String::new();
                assert(encode_utf8(empty@) =~= Seq::<u8>::empty());
                empty
            } else {
                signed_to_text(false, raw)
            },
        };
        let ghost before = r@;
        r.push(text);
        assert forall|j: int| 0 <= j < i + 1 implies encode_utf8(#[trigger] r@[j]@) == scalar_text(
            kind,
            kind.scalar(from@, j as nat),
        ) by {
            if j < i {
                assert(r@[j] == before[j]);
            }
        }
        at = at + width;
        i = i + 1;
    }
    r
}

/// Stores the words at the start of `dst`, four bytes each.
fn store_words(words: &Vec<u32>, dst: &mut [u8])
    requires
        4 * words.len() <= old(dst).len(),
    ensures
        final(dst)@ == words_bytes(words@) + old(dst)@.subrange(
            4 * (words@.len() as int),
            old(dst)@.len() as int,
        ),
        words_bytes(words@).len() == 4 * words@.len(),
{
    let mut i: usize = 0;
    assert(words@.subrange(0, 0) =~= Seq::<u32>::empty());
    assert(dst@ =~= words_bytes(words@.subrange(0, 0)) + old(dst)@.subrange(
        0,
        old(dst)@.len() as int,
    ));
    while i < words.len()
        invariant
            i <= words.len(),
            4 * words.len() <= old(dst).len(),
            dst@.len() == old(dst)@.len(),
            words_bytes(words@.subrange(0, i as int)).len() == 4 * i,
            dst@ == words_bytes(words@.subrange(0, i as int)) + old(dst)@.subrange(
                4 * i,
                old(dst)@.len() as int,
            ),
        decreases words.len() - i,
    {
        let ghost before = dst@;
        let word: u32 = words[i];
        write_le(dst, 4 * i, 4, word as u64);
        proof {
            let done = words@.subrange(0, i as int);
            let next = words@.subrange(0, i + 1);
            lemma_le_bytes_len(word as nat, 4);
            assert(next.drop_last() =~= done);
            assert(words_bytes(next) =~= words_bytes(done) + le_bytes(word as nat, 4));
            assert(before.subrange(0, 4 * i) =~= words_bytes(done));
            assert(before.subrange(4 * i + 4, before.len() as int) =~= old(dst)@.subrange(
                4 * (i + 1),
                old(dst)@.len() as int,
            ));
            assert(dst@ =~= words_bytes(next) + old(dst)@.subrange(
                4 * (i + 1),
                old(dst)@.len() as int,
            ));
        }
        i = i + 1;
    }
    assert(words@.subrange(0, words@.len() as int) =~= words@);
}

/// The words that the first `count` strings become, if each becomes one.
fn read_words(strings: &Vec<String>, to: BaseType, floats: &Vec<Option<u32>>, count: usize) -> (r:
    Option<Vec<u32>>)
    requires
        count <= strings.len(),
        to == BaseType::Int32 || to == BaseType::UInt32 || to == BaseType::Float,
    ensures
        match r {
            Some(words) => words@ == Seq::new(
                count as nat,
                |i: int| word_at(texts_of(strings@), to, floats@, i).unwrap(),
            ) && forall|i: int|
                0 <= i < count ==> (#[trigger] word_at(texts_of(strings@), to, floats@, i))
                    is Some,
            None => exists|i: int|
                0 <= i < count && (#[trigger] word_at(texts_of(strings@), to, floats@, i))
                    is None,
        },
{
    let mut words: Vec<u32> = Vec::new();
    let mut i: usize = 0;
    while i < count
        invariant
            i <= count <= strings.len(),
            to == BaseType::Int32 || to == BaseType::UInt32 || to == BaseType::Float,
            words@.len() == i,
            forall|j: int|
                0 <= j < i ==> (#[trigger] word_at(texts_of(strings@), to, floats@, j)) == Some(
                    words@[j],
                ),
        decreases count - i,
    {
        let word: Option<u32> = match to {
            BaseType::Float => if i < floats.len() && is_decimal_literal(
                strings[i].as_str().as_bytes(),
            ) {
                floats[i]
            } else {
                None
            },
            BaseType::Int32 => match literal_in(
                strings[i].as_str().as_bytes(),
                -0x8000_0000,
                0x7fff_ffff,
            ) {
                Some(v) => if v < 0 {
                    Some((v + 0x1_0000_0000) as u32)
                } else {
                    Some(v as u32)
                },
                None => None,
            },
            _ => match literal_in(strings[i].as_str().as_bytes(), 0, 0xffff_ffff) {
                Some(v) => Some(v as u32),
                None => None,
            },
        };
        assert(word == word_at(texts_of(strings@), to, floats@, i as int));
        match word {
            Some(w) => {
                words.push(w);
            },
            None => {
                return None;
            },
        }
        i = i + 1;
    }
    assert(words@ =~= Seq::new(
        count as nat,
        |i: int| word_at(texts_of(strings@), to, floats@, i).unwrap(),
    ));
    Some(words)
}

/// The bytes of two texts, one after the other, are the bytes of the first
/// and then the bytes of the second.
pub proof fn lemma_text_joins(a: Seq<char>, b: Seq<char>)
    ensures
        encode_utf8(a + b) == encode_utf8(a) + encode_utf8(b),
    decreases a.len(),
{
    if a.len() == 0 {
        assert(a + b =~= b);
        assert(encode_utf8(a) =~= Seq::<u8>::empty());
        assert(encode_utf8(a) + encode_utf8(b) =~= encode_utf8(b));
    } else {
        assert((a + b).drop_first() =~= a.drop_first() + b);
        lemma_text_joins(a.drop_first(), b);
        assert(encode_utf8(a + b) =~= encode_utf8(a) + encode_utf8(b));
    }
}

/// The strings of `parts` from `from` up to `to`, joined.
fn join_texts(parts: &Vec<String>, from: usize, to: usize) -> (r: String)
    requires
        from <= to <= parts.len(),
    ensures
        encode_utf8(r@) == joined(texts_of(parts@).subrange(from as int, to as int)),
{
    let mut text = String::new();
    let mut j: usize = from;
    proof {
        assert(encode_utf8(text@) =~= Seq::<u8>::empty());
        assert(texts_of(parts@).subrange(from as int, from as int) =~= Seq::<Seq<u8>>::empty());
        reveal_strlit(", ");
        vstd::utf8::is_ascii_chars_encode_utf8(", "@);
        assert(encode_utf8(", "@) =~= separator());
    }
    while j < to
        invariant
            from <= j <= to <= parts.len(),
            encode_utf8(", "@) == separator(),
            encode_utf8(text@) == joined(texts_of(parts@).subrange(from as int, j as int)),
        decreases to - j,
    {
        let ghost start = text@;
        if j > from {
            text.append(", ");
            proof {
                lemma_text_joins(start, ", "@);
            }
        }
        let ghost middle = text@;
        text.append(parts[j].as_str());
        proof {
            lemma_text_joins(middle, parts@[j as int]@);
            let done = texts_of(parts@).subrange(from as int, j as int);
            let next = texts_of(parts@).subrange(from as int, j + 1);
            assert(next.drop_last() =~= done);
            assert(next.last() == encode_utf8(parts@[j as int]@));
            if j == from {
                assert(encode_utf8(text@) =~= next[0]);
            }
        }
        j = j + 1;
    }
    text
}

/// The texts of `n` elements of `each` scalars, laid out as `n` elements of
/// `wide` strings.
fn group_texts(parts: &Vec<String>, each: usize, wide: usize, n: usize) -> (r: Vec<String>)
    requires
        1 <= each <= 16,
        1 <= wide <= 16,
        n * each <= parts.len(),
    ensures
        texts_of(r@) == grouped(texts_of(parts@), each as nat, wide as nat, n as nat),
        r@.len() == n * wide,
{
    let mut r: Vec<String> = Vec::new();
    let mut i: usize = 0;
    let mut at: usize = 0;
    assert(texts_of(r@) =~= grouped(texts_of(parts@), each as nat, wide as nat, 0));
    while i < n
        invariant
            1 <= each <= 16,
            1 <= wide <= 16,
            n * each <= parts.len(),
            i <= n,
            at == i * each,
            r@.len() == i * wide,
            texts_of(r@) == grouped(texts_of(parts@), each as nat, wide as nat, i as nat),
        decreases n - i,
    {
        proof {
            assert((i + 1) * each <= n * each) by (nonlinear_arith)
                requires
                    i + 1 <= n,
            ;
            assert((i + 1) * each == i * each + each) by (nonlinear_arith);
            assert((i + 1) * wide == i * wide + wide) by (nonlinear_arith);
        }
        let ghost before = r@;
        let text = join_texts(parts, at, at + each);
        r.push(text);
        let mut c: usize = 1;
        while c < wide
            invariant
                1 <= c <= wide,
                r@.len() == before.len() + c,
                r@.subrange(0, before.len() as int) == before,
                encode_utf8(r@[before.len() as int]@) == joined(
                    texts_of(parts@).subrange(at as int, at + each),
                ),
                forall|j: int|
                    before.len() < j < before.len() + c ==> encode_utf8(#[trigger] r@[j]@)
                        == Seq::<u8>::empty(),
            decreases wide - c,
        {
            let ghost so_far = r@;
            let empty = String::new();
            assert(encode_utf8(empty@) =~= Seq::<u8>::empty());
            r.push(empty);
            assert(r@.subrange(0, before.len() as int) =~= so_far.subrange(
                0,
                before.len() as int,
            ));
            c = c + 1;
        }
        proof {
            let element = seq![joined(texts_of(parts@).subrange(at as int, at + each))]
                + Seq::new((wide - 1) as nat, |j: int| Seq::<u8>::empty());
            assert(texts_of(r@) =~= texts_of(before) + element) by {
                assert forall|j: int| 0 <= j < before.len() implies r@[j] == before[j] by {
                    assert(r@.subrange(0, before.len() as int)[j] == r@[j]);
                }
            }
        }
        at = at + each;
        i = i + 1;
    }
    r
}

/// The number of scalars of the aggregate.
fn components(agg: Aggregate) -> (c: usize)
    ensures
        c == agg.code(),
        1 <= c <= 16,
{
    match agg {
        Aggregate::Scalar => 1,
        Aggregate::Vec2 => 2,
        Aggregate::Vec3 => 3,
        Aggregate::Vec4 => 4,
        Aggregate::Matrix33 => 9,
        Aggregate::Matrix44 => 16,
    }
}

/// Is the kind `String`?
fn is_string(kind: BaseType) -> (r: bool)
    ensures
        r == (kind == BaseType::String),
{
    match kind {
        BaseType::String => true,
        _ => false,
    }
}

/// The destination of bytes after the strings of the source became words
/// in it, if they all did.
fn into_words(
    srctype: TypeDesc,
    strings: &Vec<String>,
    dsttype: TypeDesc,
    before: &Vec<u8>,
    n: i32,
    decimals: &Decimals,
) -> (r: Option<Vec<u8>>)
    requires
        n >= 0,
    ensures
        match r {
            Some(after) => TypeDesc::converts(
                srctype,
                Held::Texts(texts_of(strings@)),
                dsttype,
                Held::Bytes(before@),
                n as int,
                texts_of(decimals.texts@),
                decimals.floats@,
            ) && Held::Bytes(after@) == TypeDesc::converted(
                srctype,
                Held::Texts(texts_of(strings@)),
                dsttype,
                Held::Bytes(before@),
                n as nat,
                texts_of(decimals.texts@),
                decimals.floats@,
            ),
            None => !TypeDesc::converts(
                srctype,
                Held::Texts(texts_of(strings@)),
                dsttype,
                Held::Bytes(before@),
                n as int,
                texts_of(decimals.texts@),
                decimals.floats@,
            ),
        },
{
    if !is_string(srctype.basetype) || srctype.aggregate != dsttype.aggregate {
        return None;
    }
    match dsttype.basetype {
        BaseType::Int32 | BaseType::UInt32 | BaseType::Float => {},
        _ => {
            return None;
        },
    }
    let count: u64 = count_of(srctype.aggregate, n as u32);
    proof {
        dsttype.basetype.lemma_bytes_for(count as nat);
    }
    if count > strings.len() as u64 || 4 * count > before.len() as u64 {
        return None;
    }
    let words = match read_words(strings, dsttype.basetype, &decimals.floats, count as usize) {
        Some(words) => words,
        None => {
            return None;
        },
    };
    let mut work: Vec<u8> = slice_to_vec(before.as_slice());
    store_words(&words, work.as_mut_slice());
    Some(work)
}

/// The destination of strings after the scalars of the source became texts
/// in it, if they did.
fn into_texts(
    srctype: TypeDesc,
    src: &Values,
    dsttype: TypeDesc,
    before: &Vec<String>,
    n: i32,
    decimals: &Decimals,
) -> (r: Option<Vec<String>>)
    requires
        n >= 0,
    ensures
        match r {
            Some(after) => TypeDesc::converts(
                srctype,
                src@,
                dsttype,
                Held::Texts(texts_of(before@)),
                n as int,
                texts_of(decimals.texts@),
                decimals.floats@,
            ) && Held::Texts(texts_of(after@)) == TypeDesc::converted(
                srctype,
                src@,
                dsttype,
                Held::Texts(texts_of(before@)),
                n as nat,
                texts_of(decimals.texts@),
                decimals.floats@,
            ),
            None => !TypeDesc::converts(
                srctype,
                src@,
                dsttype,
                Held::Texts(texts_of(before@)),
                n as int,
                texts_of(decimals.texts@),
                decimals.floats@,
            ),
        },
{
    if !is_string(dsttype.basetype) {
        return None;
    }
    let count: u64 = count_of(srctype.aggregate, n as u32);
    let room: u64 = count_of(dsttype.aggregate, n as u32);
    if room > before.len() as u64 {
        return None;
    }
    let ghost supplied = texts_of(decimals.texts@);
    let parts: Vec<String> = match src {
        Values::Texts(strings) => {
            if !is_string(srctype.basetype) || count > strings.len() as u64 {
                return None;
            }
            let taken = take_texts(strings, count as usize);
            proof {
                lemma_texts_of(strings@, strings@, 0, count as int);
                assert(texts_of(taken@) =~= Seq::new(
                    count as nat,
                    |i: int| text_at(srctype.basetype, src@, supplied, i),
                ));
            }
            taken
        },
        Values::Bytes(bytes) => {
            if is_string(srctype.basetype) {
                return None;
            }
            let span: u64 = match srctype.span_of(n as u32) {
                Some(span) => span,
                None => {
                    return None;
                },
            };
            if span > bytes.len() as u64 {
                return None;
            }
            if srctype.is_floating_point() {
                if count > decimals.texts.len() as u64 {
                    return None;
                }
                let taken = take_texts(&decimals.texts, count as usize);
                proof {
                    lemma_texts_of(decimals.texts@, decimals.texts@, 0, count as int);
                    assert(texts_of(taken@) =~= Seq::new(
                        count as nat,
                        |i: int| text_at(srctype.basetype, src@, supplied, i),
                    ));
                }
                taken
            } else {
                if count > usize::MAX as u64 {
                    return None;
                }
                let width: usize = match srctype.basesize() {
                    Ok(width) => width,
                    Err(_) => {
                        return None;
                    },
                };
                proof {
                    srctype.basetype.lemma_bytes_for(count as nat);
                    srctype.basetype.lemma_bytes_for(1);
                }
                let rendered = render_scalars(
                    srctype.basetype,
                    width,
                    bytes.as_slice(),
                    count as usize,
                );
                proof {
                    assert(texts_of(rendered@) =~= Seq::new(
                        count as nat,
                        |i: int| text_at(srctype.basetype, src@, supplied, i),
                    ));
                }
                rendered
            }
        },
    };
    let mut written: Vec<String> = if srctype.aggregate == dsttype.aggregate {
        parts
    } else {
        proof {
            srctype.aggregate.lemma_times(n as nat);
            assert(n as nat * srctype.aggregate.code() == srctype.aggregate.code() * n as nat)
                by (nonlinear_arith);
        }
        group_texts(
            &parts,
            components(srctype.aggregate),
            components(dsttype.aggregate),
            n as usize,
        )
    };
    let ghost first = written@;
    append_texts(&mut written, before, room as usize);
    proof {
        lemma_texts_of(first, before@.subrange(room as int, before@.len() as int), 0, 0);
        lemma_texts_of(before@, before@, room as int, before@.len() as int);
    }
    Some(written)
}

/// The destination after the conversion, if it is made.
fn convert_values(
    srctype: TypeDesc,
    src: &Values,
    dsttype: TypeDesc,
    dst: &Values,
    n: i32,
    decimals: &Decimals,
) -> (r: Option<Values>)
    ensures
        match r {
            Some(after) => TypeDesc::converts(
                srctype,
                src@,
                dsttype,
                dst@,
                n as int,
                texts_of(decimals.texts@),
                decimals.floats@,
            ) && after@ == TypeDesc::converted(
                srctype,
                src@,
                dsttype,
                dst@,
                n as nat,
                texts_of(decimals.texts@),
                decimals.floats@,
            ),
            None => !TypeDesc::converts(
                srctype,
                src@,
                dsttype,
                dst@,
                n as int,
                texts_of(decimals.texts@),
                decimals.floats@,
            ),
        },
{
    if n < 0 {
        return None;
    }
    match dst {
        Values::Texts(before) => match into_texts(srctype, src, dsttype, before, n, decimals) {
            Some(after) => Some(Values::Texts(after)),
            None => None,
        },
        Values::Bytes(before) => match src {
            Values::Texts(strings) => match into_words(
                srctype,
                strings,
                dsttype,
                before,
                n,
                decimals,
            ) {
                Some(after) => Some(Values::Bytes(after)),
                None => None,
            },
            Values::Bytes(bytes) => {
                if is_string(srctype.basetype) || is_string(dsttype.basetype) {
                    return None;
                }
                let mut work: Vec<u8> = slice_to_vec(before.as_slice());
                if TypeDesc::convert_bytes(
                    srctype,
                    bytes.as_slice(),
                    dsttype,
                    work.as_mut_slice(),
                    n,
                ) {
                    Some(Values::Bytes(work))
                } else {
                    None
                }
            },
        },
    }
}

impl TypeDesc {
    /// Converts `n` elements of the type `srctype` in `src` to the type
    /// `dsttype` and stores them in `dst`, from the start of both, and
    /// returns whether it did.
    ///
    /// Equivalent types are copied. To a string every scalar converts, as
    /// its text; to `Int32`, `UInt32` and `Float` numbers convert by a
    /// cast, and strings where each of them writes a number that fits.
    /// Nothing else converts. Where the call returns `true`, the first
    /// scalars of `dst` are the converted ones and the rest of `dst` is as
    /// before; where it returns `false`, `dst` is as before.
    ///
    /// `decimals` holds what passes through the decimal text of a
    /// floating-point number: the texts of the floating-point scalars of
    /// the source, which are stored as they are where such scalars become
    /// strings, and the floats that the strings of the source write, which
    /// are stored as they are where strings become floats. Where neither
    /// happens it is not read.
    pub fn convert_type(
        srctype: TypeDesc,
        src: &Values,
        dsttype: TypeDesc,
        dst: &mut Values,
        n: i32,
        decimals: &Decimals,
    ) -> (ok: bool)
        ensures
            ok == TypeDesc::converts(
                srctype,
                src@,
                dsttype,
                old(dst)@,
                n as int,
                texts_of(decimals.texts@),
                decimals.floats@,
            ),
            ok ==> final(dst)@ == TypeDesc::converted(
                srctype,
                src@,
                dsttype,
                old(dst)@,
                n as nat,
                texts_of(decimals.texts@),
                decimals.floats@,
            ),
            !ok ==> final(dst)@ == old(dst)@,
    {
        match convert_values(srctype, src, dsttype, dst, n, decimals) {
            Some(after) => {
                *dst = after;
                true
            },
            None => false,
        }
    }
}

} // verus!
