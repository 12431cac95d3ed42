//! Converting the values in a buffer from one type to another.
//!
//! A buffer holds elements one after the other, each element the scalars of
//! its aggregate, each scalar in as many bytes as its kind takes, the least
//! significant byte first. The array length of a descriptor counts for
//! nothing here but in telling whether two types are equivalent: a call
//! converts as many elements as it is asked to.
//!
//! This module holds the rule of a conversion, `TypeDesc::conversion`, and
//! the part of the work that stays within bytes: the copy between
//! equivalent types and the cast of numbers of any kind to integers of 32
//! bits and to floats. Strings do not lie in bytes; the conversions that
//! read or write them build on this part.

use vstd::prelude::*;
use crate::typedesc::bytes::le_bytes;
use crate::typedesc::bytes::le_signed;
use crate::typedesc::bytes::le_value;
use crate::typedesc::bytes::lemma_le_bytes_len;
use crate::typedesc::bytes::lemma_le_value_bound;
use crate::typedesc::bytes::lemma_le_value_of_bytes;
use crate::typedesc::bytes::lemma_radix_values;
use crate::typedesc::bytes::read_le;
use crate::typedesc::bytes::write_le;
use crate::typedesc::desc::TypeDesc;
use crate::typedesc::kinds::BaseType;
use crate::typedesc::layout::LayoutError;
use crate::typedesc::numbers::clamped;
use crate::typedesc::numbers::clamped_of;
use crate::typedesc::numbers::double_format;
use crate::typedesc::numbers::half_format;
use crate::typedesc::numbers::read_bits;
use crate::typedesc::numbers::read_integer;
use crate::typedesc::numbers::single_bits;
use crate::typedesc::numbers::single_bits_of;
use crate::typedesc::numbers::single_format;
use crate::typedesc::numbers::Format;
use crate::typedesc::numbers::Number;

verus! {

/// The rule under which the values of one type become values of another.
#[derive(Debug, Clone, Copy, PartialEq, Eq, Structural, Hash)]
pub enum Conversion {
    /// the types are equivalent: the bytes are copied
    Copy,
    /// the destination is a string: each value is written out as text
    Text,
    /// the destination is an integer of 32 bits: numbers are cast to it,
    /// and a string is read as an integer
    Integer,
    /// the destination is a float: numbers are cast to it, and a string is
    /// read as a decimal number
    Float,
    /// there is no conversion between the two types
    Unsupported,
}

impl BaseType {
    /// Is the kind one of the eight integer kinds?
    pub open spec fn is_integer(self) -> bool {
        match self {
            BaseType::UInt8
            | BaseType::Int8
            | BaseType::UInt16
            | BaseType::Int16
            | BaseType::UInt32
            | BaseType::Int32
            | BaseType::UInt64
            | BaseType::Int64 => true,
            _ => false,
        }
    }

    /// Is the kind one of the four signed integer kinds?
    pub open spec fn is_signed_integer(self) -> bool {
        match self {
            BaseType::Int8 | BaseType::Int16 | BaseType::Int32 | BaseType::Int64 => true,
            _ => false,
        }
    }

    /// The integer that the bytes of one scalar of the kind hold: read in
    /// two's complement for a signed kind, as they are for the others.
    pub open spec fn integer(self, bytes: Seq<u8>) -> int {
        if self.is_signed_integer() {
            le_signed(bytes)
        } else {
            le_value(bytes) as int
        }
    }

    /// Is the kind one of the three floating-point kinds?
    pub open spec fn is_floating(self) -> bool {
        self == BaseType::Half || self == BaseType::Float || self == BaseType::Double
    }

    /// Is the kind a kind of numbers: an integer or a floating-point kind?
    pub open spec fn is_number(self) -> bool {
        self.is_integer() || self.is_floating()
    }

    /// The number that the bytes of one scalar of the kind hold.
    pub open spec fn number(self, bytes: Seq<u8>) -> Number {
        match self {
            BaseType::Half => half_format().number(le_value(bytes)),
            BaseType::Float => single_format().number(le_value(bytes)),
            BaseType::Double => double_format().number(le_value(bytes)),
            _ => Number::Finite {
                negative: self.integer(bytes) < 0,
                mantissa: if self.integer(bytes) < 0 {
                    (-self.integer(bytes)) as nat
                } else {
                    self.integer(bytes) as nat
                },
                exponent: 0,
            },
        }
    }

    /// The bytes of the scalar with the index `i` in a buffer of scalars of
    /// the kind.
    pub open spec fn scalar(self, buffer: Seq<u8>, i: nat) -> Seq<u8> {
        buffer.subrange(self.bytes_for(i).unwrap() as int, self.bytes_for(i + 1).unwrap() as int)
    }
}

/// The four bytes that hold an integer as an integer of 32 bits: the bytes
/// of its remainder by 2 to the power of 32. A number that fits is kept; of
/// one that does not, the low 32 bits are.
pub open spec fn wrapped(v: int) -> Seq<u8> {
    le_bytes((v % 0x1_0000_0000) as nat, 4)
}

/// The four bytes that one scalar of the kind `from` becomes when it is cast
/// to the kind `to`, which is `Int32`, `UInt32` or `Float`.
///
/// To a float, a number is rounded to the nearest that the format has; a
/// float stays as it is. To an integer of 32 bits, an integer keeps its low
/// 32 bits, so that a number that fits is kept and a negative number cast
/// to `UInt32` keeps its bits; a floating-point number loses its fraction
/// and stops at the ends of the range of the integer.
pub open spec fn cast(from: BaseType, bytes: Seq<u8>, to: BaseType) -> Seq<u8> {
    if to == BaseType::Float {
        if from == BaseType::Float {
            bytes
        } else {
            le_bytes(single_bits(from.number(bytes)), 4)
        }
    } else if from.is_integer() {
        wrapped(from.integer(bytes))
    } else if to == BaseType::Int32 {
        wrapped(clamped(from.number(bytes), -0x8000_0000, 0x7fff_ffff))
    } else {
        wrapped(clamped(from.number(bytes), 0, 0xffff_ffff))
    }
}

/// The first `count` scalars of the kind `from` in `src`, each cast to the
/// kind `to`.
pub open spec fn cast_scalars(from: BaseType, src: Seq<u8>, to: BaseType, count: nat) -> Seq<u8>
    decreases count,
{
    if count == 0 {
        Seq::empty()
    } else {
        cast_scalars(from, src, to, (count - 1) as nat) + cast(
            from,
            from.scalar(src, (count - 1) as nat),
            to,
        )
    }
}

impl TypeDesc {
    /// The rule that converts values of the type `src` to the type `dst`:
    /// the first of these that applies. Equivalent types are copied. To a
    /// string everything converts, as text. To `Int32` and `UInt32`, and to
    /// `Float`, numbers and strings convert. Nothing else does.
    pub open spec fn conversion(src: TypeDesc, dst: TypeDesc) -> Conversion {
        if src.equivalent_to(dst) {
            Conversion::Copy
        } else if dst.basetype == BaseType::String {
            Conversion::Text
        } else if dst.basetype == BaseType::Int32 || dst.basetype == BaseType::UInt32 {
            Conversion::Integer
        } else if dst.basetype == BaseType::Float {
            Conversion::Float
        } else {
            Conversion::Unsupported
        }
    }

    /// Is the conversion from `src` to `dst` one that stays within bytes: a
    /// copy of anything but strings, or a cast of numbers to integers of 32
    /// bits or to floats, scalar by scalar between elements of as many
    /// scalars?
    pub open spec fn handles(src: TypeDesc, dst: TypeDesc) -> bool {
        match TypeDesc::conversion(src, dst) {
            Conversion::Copy => src.basetype != BaseType::String,
            Conversion::Integer | Conversion::Float => src.basetype.is_number() && src.aggregate
                == dst.aggregate,
            _ => false,
        }
    }

    /// Are `n` elements of the type `src`, from a buffer of `src_len` bytes,
    /// converted within bytes to the type `dst`, into a buffer of `dst_len`
    /// bytes? They are where `n` is not negative, the conversion is
    /// one of those made here, the elements have a size, and both buffers
    /// are long enough for `n` of them.
    pub open spec fn converts_bytes(
        src: TypeDesc,
        src_len: nat,
        dst: TypeDesc,
        dst_len: nat,
        n: int,
    )
        -> bool {
        &&& n >= 0
        &&& TypeDesc::handles(src, dst)
        &&& src.span(n as nat) is Ok
        &&& src.span(n as nat).unwrap() <= src_len
        &&& dst.span(n as nat) is Ok
        &&& dst.span(n as nat).unwrap() <= dst_len
    }

    /// What the destination buffer holds after `n` elements were converted
    /// into it: the converted elements, and behind them what it held before.
    pub open spec fn converted_bytes(
        src: TypeDesc,
        from: Seq<u8>,
        dst: TypeDesc,
        into: Seq<u8>,
        n: nat,
    ) -> Seq<u8> {
        let written = match TypeDesc::conversion(src, dst) {
            Conversion::Copy => from.subrange(0, src.span(n).unwrap() as int),
            _ => cast_scalars(src.basetype, from, dst.basetype, src.aggregate.times(n)),
        };
        written + into.subrange(written.len() as int, into.len() as int)
    }

    /// The rule that converts values of the type `srctype` to the type
    /// `dsttype`.
    pub fn conversion_rule(srctype: TypeDesc, dsttype: TypeDesc) -> (r: Conversion)
        ensures
            r == TypeDesc::conversion(srctype, dsttype),
    {
        if srctype.equivalent(&dsttype) {
            Conversion::Copy
        } else {
            match dsttype.basetype {
                BaseType::String => Conversion::Text,
                BaseType::Int32 | BaseType::UInt32 => Conversion::Integer,
                BaseType::Float => Conversion::Float,
                _ => Conversion::Unsupported,
            }
        }
    }

    /// The number of bytes that `n` elements take.
    pub(crate) fn span_of(&self, n: u32) -> (r: Option<u64>)
        requires
            n <= 0x7fff_ffff,
        ensures
            match r {
                Some(bytes) => self.span(n as nat) == Ok::<nat, LayoutError>(bytes as nat)
                    && bytes <= 0x7fff_ffff * 128,
                None => self.span(n as nat) is Err,
            },
    {
        match self.elementsize() {
            Ok(each) => {
                proof {
                    crate::typedesc::layout::lemma_layout_products(*self);
                    assert(n * each <= 0x7fff_ffff * 128) by (nonlinear_arith)
                        requires
                            n <= 0x7fff_ffff,
                            each <= 128,
                    ;
                }
                Some(n as u64 * each as u64)
            },
            Err(e) => None,
        }
    }

    /// Converts `n` elements of the type `srctype` in the bytes `src` to the
    /// type `dsttype` and stores them in the bytes `dst`, from the start of
    /// both.
    ///
    /// This is `convert_type` for values that lie in bytes on both sides,
    /// and it does exactly what `convert_type` does for them. Strings do
    /// not lie in bytes: a type of the kind `String`, on either side, is
    /// for `convert_type`, and here it gives `false`.
    ///
    /// Returns whether it converted. It does so for equivalent types, whose
    /// bytes it copies, and for numbers of any kind that are to become
    /// `Int32`, `UInt32` or `Float`, provided that `n` is not negative and
    /// that each buffer holds `n` elements of its type. Then the first
    /// bytes of `dst` are the converted elements and the rest of `dst` is
    /// as before. In every other case nothing is written.
    pub fn convert_bytes(
        srctype: TypeDesc,
        src: &[u8],
        dsttype: TypeDesc,
        dst: &mut [u8],
        n: i32,
    ) -> (ok: bool)
        ensures
            ok == TypeDesc::converts_bytes(
                srctype,
                src@.len(),
                dsttype,
                old(dst)@.len(),
                n as int,
            ),
            final(dst)@.len() == old(dst)@.len(),
            ok ==> final(dst)@ == TypeDesc::converted_bytes(
                srctype,
                src@,
                dsttype,
                old(dst)@,
                n as nat,
            ),
            !ok ==> final(dst)@ == old(dst)@,
    {
        if n < 0 {
            return false;
        }
        let rule = TypeDesc::conversion_rule(srctype, dsttype);
        let src_bytes: u64 = match srctype.span_of(n as u32) {
            Some(bytes) => bytes,
            None => {
                return false;
            },
        };
        let dst_bytes: u64 = match dsttype.span_of(n as u32) {
            Some(bytes) => bytes,
            None => {
                return false;
            },
        };
        if src_bytes > src.len() as u64 || dst_bytes > dst.len() as u64 {
            return false;
        }
        match rule {
            Conversion::Copy => {
                match srctype.basetype {
                    BaseType::String => {
                        return false;
                    },
                    _ => {},
                }
                copy_bytes(src, dst, src_bytes as usize);
                true
            },
            Conversion::Integer | Conversion::Float => {
                if srctype.aggregate != dsttype.aggregate {
                    return false;
                }
                let width: usize = match number_width(srctype.basetype) {
                    Some(width) => width,
                    None => {
                        return false;
                    },
                };
                let ghost count = srctype.aggregate.times(n as nat);
                proof {
                    srctype.aggregate.lemma_times(n as nat);
                    srctype.basetype.lemma_bytes_for(count);
                    dsttype.basetype.lemma_bytes_for(count);
                    assert(dsttype.basetype.byte_size() == Some(4nat));
                    assert(dst_bytes == count * 4);
                    assert(src_bytes == count * width);
                    assert(dst_bytes / 4 == count);
                }
                cast_buffer(
                    srctype.basetype,
                    width,
                    src,
                    dsttype.basetype,
                    dst,
                    (dst_bytes / 4) as usize,
                );
                true
            },
            _ => false,
        }
    }
}

/// The size of a scalar of a kind of numbers.
fn number_width(kind: BaseType) -> (r: Option<usize>)
    ensures
        match r {
            Some(width) => kind.is_number() && kind.byte_size() == Some(width as nat) && 1
                <= width <= 8,
            None => !kind.is_number(),
        },
{
    match kind {
        BaseType::UInt8 | BaseType::Int8 => Some(1),
        BaseType::UInt16 | BaseType::Int16 | BaseType::Half => Some(2),
        BaseType::UInt32 | BaseType::Int32 | BaseType::Float => Some(4),
        BaseType::UInt64 | BaseType::Int64 | BaseType::Double => Some(8),
        _ => None,
    }
}

/// Is the kind an integer kind?
fn kind_is_integer(kind: BaseType) -> (r: bool)
    ensures
        r == kind.is_integer(),
{
    match kind {
        BaseType::UInt8
        | BaseType::Int8
        | BaseType::UInt16
        | BaseType::Int16
        | BaseType::UInt32
        | BaseType::Int32
        | BaseType::UInt64
        | BaseType::Int64 => true,
        _ => false,
    }
}

/// Is the integer kind a signed one?
fn integer_signed(kind: BaseType) -> (r: bool)
    ensures
        r == kind.is_signed_integer(),
{
    match kind {
        BaseType::Int8 | BaseType::Int16 | BaseType::Int32 | BaseType::Int64 => true,
        _ => false,
    }
}

/// Copies the first `len` bytes of `src` to the start of `dst`.
fn copy_bytes(src: &[u8], dst: &mut [u8], len: usize)
    requires
        len <= src.len(),
        len <= old(dst).len(),
    ensures
        final(dst)@ == src@.subrange(0, len as int) + old(dst)@.subrange(
            len as int,
            old(dst)@.len() as int,
        ),
{
    let mut i: usize = 0;
    assert(dst@ =~= src@.subrange(0, 0) + old(dst)@.subrange(0, old(dst)@.len() as int));
    while i < len
        invariant
            i <= len <= src.len(),
            len <= dst.len(),
            dst@.len() == old(dst)@.len(),
            dst@ == src@.subrange(0, i as int) + old(dst)@.subrange(
                i as int,
                old(dst)@.len() as int,
            ),
        decreases len - i,
    {
        dst[i] = src[i];
        i = i + 1;
        assert(dst@ =~= src@.subrange(0, i as int) + old(dst)@.subrange(
            i as int,
            old(dst)@.len() as int,
        ));
    }
}

/// The remainder by 2 to the power of 32 of the integer that `width` bytes
/// of the kind hold, given the number `raw` that they hold when read as
/// they are.
fn low_bits(kind: BaseType, width: usize, raw: u64, Ghost(bytes): Ghost<Seq<u8>>) -> (r: u64)
    requires
        kind.is_integer(),
        kind.byte_size() == Some(width as nat),
        bytes.len() == width,
        raw == le_value(bytes),
    ensures
        r == kind.integer(bytes) % 0x1_0000_0000,
        r < 0x1_0000_0000,
{
    proof {
        lemma_radix_values();
        lemma_le_value_bound(bytes);
    }
    if integer_signed(kind) && width == 1 && raw >= 0x80 {
        raw + 0xffff_ff00
    } else if integer_signed(kind) && width == 2 && raw >= 0x8000 {
        raw + 0xffff_0000
    } else {
        raw % 0x1_0000_0000
    }
}

/// The number that `width` bytes of a kind of numbers hold, given the
/// number `raw` that they hold when read as they are.
pub(crate) fn read_number(kind: BaseType, width: usize, raw: u64, Ghost(bytes): Ghost<Seq<u8>>) -> (r:
    crate::typedesc::numbers::Reading)
    requires
        kind.is_number(),
        kind.byte_size() == Some(width as nat),
        bytes.len() == width,
        raw == le_value(bytes),
    ensures
        r.number() == kind.number(bytes),
{
    proof {
        lemma_radix_values();
        lemma_le_value_bound(bytes);
    }
    match kind {
        BaseType::Half => read_bits(raw, Format { fraction: 10, exponent: 5 }),
        BaseType::Float => read_bits(raw, Format { fraction: 23, exponent: 8 }),
        BaseType::Double => read_bits(raw, Format { fraction: 52, exponent: 11 }),
        _ => {
            if integer_signed(kind) && width == 1 && raw >= 0x80 {
                read_integer(true, 0x100 - raw)
            } else if integer_signed(kind) && width == 2 && raw >= 0x8000 {
                read_integer(true, 0x1_0000 - raw)
            } else if integer_signed(kind) && width == 4 && raw >= 0x8000_0000 {
                read_integer(true, 0x1_0000_0000 - raw)
            } else if integer_signed(kind) && width == 8 && raw >= 0x8000_0000_0000_0000 {
                read_integer(true, (0xffff_ffff_ffff_ffff - raw) + 1)
            } else {
                read_integer(false, raw)
            }
        },
    }
}

/// The 32 bits that one scalar becomes when it is cast.
fn cast_bits(from: BaseType, width: usize, raw: u64, to: BaseType, Ghost(bytes): Ghost<Seq<u8>>)
    -> (r: u64)
    requires
        from.is_number(),
        from.byte_size() == Some(width as nat),
        to == BaseType::Int32 || to == BaseType::UInt32 || to == BaseType::Float,
        bytes.len() == width,
        raw == le_value(bytes),
    ensures
        le_bytes(r as nat, 4) == cast(from, bytes, to),
{
    proof {
        lemma_radix_values();
        lemma_le_value_bound(bytes);
    }
    match to {
        BaseType::Float => match from {
            BaseType::Float => {
                proof {
                    crate::typedesc::bytes::lemma_le_bytes_of_value(bytes);
                }
                raw
            },
            _ => {
                let x = read_number(from, width, raw, Ghost(bytes));
                single_bits_of(&x) as u64
            },
        },
        _ => {
            if kind_is_integer(from) {
                low_bits(from, width, raw, Ghost(bytes))
            } else {
                let x = read_number(from, width, raw, Ghost(bytes));
                let v: i64 = match to {
                    BaseType::Int32 => clamped_of(&x, -0x8000_0000, 0x7fff_ffff),
                    _ => clamped_of(&x, 0, 0xffff_ffff),
                };
                if v < 0 {
                    (v + 0x1_0000_0000) as u64
                } else {
                    v as u64
                }
            }
        },
    }
}

/// Stores the first `count` scalars of the kind `from` in `src`, cast to
/// the kind `to`, at the start of `dst`.
fn cast_buffer(
    from_kind: BaseType,
    width: usize,
    src: &[u8],
    to_kind: BaseType,
    dst: &mut [u8],
    count: usize,
)
    requires
        from_kind.is_number(),
        from_kind.byte_size() == Some(width as nat),
        to_kind == BaseType::Int32 || to_kind == BaseType::UInt32 || to_kind == BaseType::Float,
        1 <= width <= 8,
        count * width <= src.len(),
        count * 4 <= old(dst).len(),
    ensures
        final(dst)@ == cast_scalars(from_kind, src@, to_kind, count as nat) + old(dst)@.subrange(
            4 * count,
            old(dst)@.len() as int,
        ),
        cast_scalars(from_kind, src@, to_kind, count as nat).len() == 4 * count,
{
    let mut k: usize = 0;
    let mut from: usize = 0;
    let mut to: usize = 0;
    assert(dst@ =~= cast_scalars(from_kind, src@, to_kind, 0) + old(dst)@.subrange(
        0,
        old(dst)@.len() as int,
    ));
    while k < count
        invariant
            from_kind.is_number(),
            from_kind.byte_size() == Some(width as nat),
            to_kind == BaseType::Int32 || to_kind == BaseType::UInt32 || to_kind
                == BaseType::Float,
            1 <= width <= 8,
            k <= count,
            count * width <= src.len(),
            count * 4 <= old(dst).len(),
            from == k * width,
            to == 4 * k,
            dst@.len() == old(dst)@.len(),
            cast_scalars(from_kind, src@, to_kind, k as nat).len() == 4 * k,
            dst@ == cast_scalars(from_kind, src@, to_kind, k as nat) + old(dst)@.subrange(
                4 * k,
                old(dst)@.len() as int,
            ),
        decreases count - k,
    {
        proof {
            assert((k + 1) * width <= count * width) by (nonlinear_arith)
                requires
                    k + 1 <= count,
            ;
            assert((k + 1) * width == k * width + width) by (nonlinear_arith);
            from_kind.lemma_bytes_for(k as nat);
            from_kind.lemma_bytes_for((k + 1) as nat);
        }
        let ghost bytes = from_kind.scalar(src@, k as nat);
        assert(bytes =~= src@.subrange(from as int, from + width));
        let raw: u64 = read_le(src, from, width);
        let low: u64 = cast_bits(from_kind, width, raw, to_kind, Ghost(bytes));
        let ghost before = dst@;
        write_le(dst, to, 4, low);
        proof {
            let done = cast_scalars(from_kind, src@, to_kind, k as nat);
            let next = cast_scalars(from_kind, src@, to_kind, (k + 1) as nat);
            lemma_le_bytes_len(low as nat, 4);
            assert(next =~= done + cast(from_kind, bytes, to_kind));
            assert(before.subrange(0, to as int) =~= done);
            assert(before.subrange(to + 4, before.len() as int) =~= old(dst)@.subrange(
                4 * (k + 1),
                old(dst)@.len() as int,
            ));
            assert(dst@ =~= next + old(dst)@.subrange(4 * (k + 1), old(dst)@.len() as int));
        }
        from = from + width;
        to = to + 4;
        k = k + 1;
    }
}

/// Every scalar is cast by itself and stands in its place: the cast of
/// `count` scalars takes four bytes for each, and the four bytes with the
/// index `i` are the cast of the scalar with the index `i`.
pub proof fn lemma_cast_scalars_at(from: BaseType, src: Seq<u8>, to: BaseType, count: nat, i: nat)
    requires
        from.is_number(),
        to == BaseType::Int32 || to == BaseType::UInt32 || to == BaseType::Float,
        i < count,
        from.bytes_for(count).unwrap() <= src.len(),
    ensures
        cast_scalars(from, src, to, count).len() == 4 * count,
        cast_scalars(from, src, to, count).subrange(4 * (i as int), 4 * (i as int) + 4) == cast(
            from,
            from.scalar(src, i),
            to,
        ),
    decreases count,
{
    let last = (count - 1) as nat;
    let before = cast_scalars(from, src, to, last);
    let piece = cast(from, from.scalar(src, last), to);
    assert(piece.len() == 4) by {
        lemma_le_bytes_len((from.integer(from.scalar(src, last)) % 0x1_0000_0000) as nat, 4);
        lemma_le_bytes_len(single_bits(from.number(from.scalar(src, last))), 4);
        lemma_le_bytes_len(
            (clamped(from.number(from.scalar(src, last)), -0x8000_0000, 0x7fff_ffff)
                % 0x1_0000_0000) as nat,
            4,
        );
        lemma_le_bytes_len(
            (clamped(from.number(from.scalar(src, last)), 0, 0xffff_ffff) % 0x1_0000_0000) as nat,
            4,
        );
    }
    if last == 0 {
        assert(before.len() == 0);
        assert((before + piece).subrange(0, 4) =~= piece);
    } else {
        lemma_cast_scalars_at(from, src, to, last, if i < last {
            i
        } else {
            0
        });
        if i < last {
            assert((before + piece).subrange(4 * (i as int), 4 * (i as int) + 4) =~= before.subrange(
                4 * (i as int),
                4 * (i as int) + 4,
            ));
        } else {
            assert((before + piece).subrange(4 * (i as int), 4 * (i as int) + 4) =~= piece);
        }
    }
}

/// An integer of 32 bits that was stored by a cast holds the remainder of
/// the number by 2 to the power of 32 when it is read as `UInt32`, and the
/// number itself whenever the number fits the kind it is read as.
pub proof fn lemma_wrapped_value(v: int)
    ensures
        wrapped(v).len() == 4,
        BaseType::UInt32.integer(wrapped(v)) == v % 0x1_0000_0000,
        0 <= v < 0x1_0000_0000 ==> BaseType::UInt32.integer(wrapped(v)) == v,
        -0x8000_0000 <= v < 0x8000_0000 ==> BaseType::Int32.integer(wrapped(v)) == v,
        (BaseType::Int32.integer(wrapped(v)) - v) % 0x1_0000_0000 == 0,
{
    let low = (v % 0x1_0000_0000) as nat;
    lemma_le_bytes_len(low, 4);
    lemma_le_value_of_bytes(low, 4);
    lemma_radix_values();
}

} // verus!
