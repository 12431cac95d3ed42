//! How many values a descriptor stands for and how many bytes they take.

use vstd::prelude::*;
use crate::typedesc::desc::TypeDesc;
use crate::typedesc::kinds::Aggregate;
use crate::typedesc::kinds::BaseType;

verus! {

/// Why a count or a size cannot be given.
#[derive(Debug, Clone, Copy, PartialEq, Eq, Structural, Hash)]
pub enum LayoutError {
    /// the descriptor is an array of unspecified length
    UnsizedArray,
    /// the kind is `LastBase`, which has no size
    NoBaseSize,
    /// the number does not fit the machine's word
    Overflow,
}

/// The number of bytes in a machine word, which is what a string or a
/// pointer takes.
pub open spec fn pointer_width() -> nat {
    if usize::BITS == 64 {
        8
    } else {
        4
    }
}

impl BaseType {
    /// The number of bytes that `n` scalars of the kind take: `n` times the
    /// size of one, written out kind by kind. `LastBase` has no size.
    pub open spec fn bytes_for(self, n: nat) -> Option<nat> {
        match self {
            BaseType::Unknown | BaseType::Void => Some(0),
            BaseType::UInt8 | BaseType::Int8 => Some(n),
            BaseType::UInt16 | BaseType::Int16 | BaseType::Half => Some(2 * n),
            BaseType::UInt32 | BaseType::Int32 | BaseType::Float => Some(4 * n),
            BaseType::UInt64 | BaseType::Int64 | BaseType::Double | BaseType::UStringHash => Some(
                8 * n,
            ),
            BaseType::String | BaseType::Ptr => if pointer_width() == 8 {
                Some(8 * n)
            } else {
                Some(4 * n)
            },
            BaseType::LastBase => None,
        }
    }

    /// The number of bytes one scalar of the kind takes: 0 for `Unknown` and
    /// `Void`, 1 to 8 for the numbers, 8 for the hash of a string, and a
    /// machine word for a string and a pointer. `LastBase` has no size.
    pub open spec fn byte_size(self) -> Option<nat> {
        self.bytes_for(1)
    }

    /// `n` scalars take `n` times the size of one.
    pub proof fn lemma_bytes_for(self, n: nat)
        ensures
            self.bytes_for(n) is Some <==> self.byte_size() is Some,
            self.byte_size() matches Some(one) ==> self.bytes_for(n) == Some(n * one) && one <= 8,
    {
        if self.byte_size() is Some {
            let one = self.byte_size().unwrap();
            let all = self.bytes_for(n).unwrap();
            assert(all == n * one) by (nonlinear_arith)
                requires
                    (one == 0 && all == 0) || (one == 1 && all == n) || (one == 2 && all == 2 * n)
                        || (one == 4 && all == 4 * n) || (one == 8 && all == 8 * n),
            ;
        }
    }
}

impl Aggregate {
    /// `n` taken once for each component of the aggregate: `n` times the
    /// code, written out aggregate by aggregate.
    pub open spec fn times(self, n: nat) -> nat {
        match self {
            Aggregate::Scalar => n,
            Aggregate::Vec2 => 2 * n,
            Aggregate::Vec3 => 3 * n,
            Aggregate::Vec4 => 4 * n,
            Aggregate::Matrix33 => 9 * n,
            Aggregate::Matrix44 => 16 * n,
        }
    }

    /// `times` multiplies by the code.
    pub proof fn lemma_times(self, n: nat)
        ensures
            self.times(n) == self.code() * n,
            1 <= self.code() <= 16,
    {
        let c = self.code();
        let all = self.times(n);
        assert(all == c * n) by (nonlinear_arith)
            requires
                (c == 1 && all == n) || (c == 2 && all == 2 * n) || (c == 3 && all == 3 * n) || (c
                    == 4 && all == 4 * n) || (c == 9 && all == 9 * n) || (c == 16 && all == 16
                    * n),
        ;
    }
}

impl TypeDesc {
    /// The size of one scalar of the descriptor's kind.
    pub open spec fn base_size(self) -> Result<nat, LayoutError> {
        match self.basetype.byte_size() {
            Some(n) => Ok(n),
            None => Err(LayoutError::NoBaseSize),
        }
    }

    /// The size of `n` elements: that of all their scalars, of which each
    /// element has as many as the aggregate has components. The array
    /// length plays no part.
    pub open spec fn span(self, n: nat) -> Result<nat, LayoutError> {
        match self.basetype.bytes_for(self.aggregate.times(n)) {
            Some(bytes) => Ok(bytes),
            None => Err(LayoutError::NoBaseSize),
        }
    }

    /// The size of one element.
    pub open spec fn element_size(self) -> Result<nat, LayoutError> {
        self.span(1)
    }

    /// The number of elements: 1 for a value that is no array, else the
    /// array length, which has to be given.
    pub open spec fn num_elements(self) -> Result<nat, LayoutError> {
        if self.arraylen < 0 {
            Err(LayoutError::UnsizedArray)
        } else if self.arraylen == 0 {
            Ok(1)
        } else {
            Ok(self.arraylen as nat)
        }
    }

    /// The number of scalars: the components of the aggregate, once for
    /// each element.
    pub open spec fn base_values(self) -> Result<nat, LayoutError> {
        match self.num_elements() {
            Ok(n) => Ok(self.aggregate.times(n)),
            Err(e) => Err(e),
        }
    }

    /// The size of the whole: that of all its elements. An unspecified
    /// length is reported before a missing size.
    pub open spec fn total_size(self) -> Result<nat, LayoutError> {
        match self.num_elements() {
            Ok(n) => self.span(n),
            Err(e) => Err(e),
        }
    }

    /// The size of one scalar of the descriptor's kind, in bytes, whatever
    /// the aggregate and the array length. The one kind without a size is
    /// `LastBase`.
    pub fn basesize(&self) -> (r: Result<usize, LayoutError>)
        ensures
            r == in_word(self.base_size()),
            r is Err <==> self.basetype == BaseType::LastBase,
    {
        broadcast use vstd::layout::layout_of_primitives;

        match self.basetype {
            BaseType::Unknown | BaseType::Void => Ok(0),
            BaseType::UInt8 | BaseType::Int8 => Ok(1),
            BaseType::UInt16 | BaseType::Int16 | BaseType::Half => Ok(2),
            BaseType::UInt32 | BaseType::Int32 | BaseType::Float => Ok(4),
            BaseType::UInt64 | BaseType::Int64 | BaseType::Double | BaseType::UStringHash => Ok(8),
            BaseType::String | BaseType::Ptr => Ok(core::mem::size_of::<usize>()),
            BaseType::LastBase => Err(LayoutError::NoBaseSize),
        }
    }

    /// The size of one element in bytes: of the whole value where it is no
    /// array.
    pub fn elementsize(&self) -> (r: Result<usize, LayoutError>)
        ensures
            r == in_word(self.element_size()),
            r is Err <==> self.basetype == BaseType::LastBase,
    {
        match self.basesize() {
            Ok(n) => {
                let count: usize = self.aggregate.to_code() as usize;
                proof {
                    self.basetype.lemma_bytes_for(count as nat);
                    assert(count * n <= 16 * 8) by (nonlinear_arith)
                        requires
                            count <= 16,
                            n <= 8,
                    ;
                }
                Ok(count * n)
            },
            Err(e) => Err(e),
        }
    }

    /// The number of elements: 1 for a value that is no array, the length
    /// for an array. An array of unspecified length has no such number.
    pub fn numelements(&self) -> (r: Result<usize, LayoutError>)
        ensures
            r == in_word(self.num_elements()),
            r is Err <==> self.arraylen < 0,
    {
        if self.arraylen < 0 {
            Err(LayoutError::UnsizedArray)
        } else if self.arraylen == 0 {
            Ok(1)
        } else {
            Ok(self.arraylen as usize)
        }
    }

    /// The number of scalars in all: the components of the aggregate, once
    /// for each element. An array of unspecified length has no such number.
    pub fn basevalues(&self) -> (r: Result<usize, LayoutError>)
        ensures
            r == in_word(self.base_values()),
    {
        match self.numelements() {
            Ok(n) => {
                let count: u64 = self.aggregate.to_code() as u64;
                let wide: u64 = n as u64;
                proof {
                    self.aggregate.lemma_times(n as nat);
                    assert(count * wide <= 16 * 0x7fff_ffff) by (nonlinear_arith)
                        requires
                            wide <= 0x7fff_ffff,
                            count <= 16,
                    ;
                }
                narrow(count * wide)
            },
            Err(e) => Err(e),
        }
    }

    /// The size of the whole in bytes. It cannot be given for an array of
    /// unspecified length, nor for the kind `LastBase`; where both stand in
    /// the way the length is reported.
    pub fn size(&self) -> (r: Result<usize, LayoutError>)
        ensures
            r == in_word(self.total_size()),
    {
        match self.numelements() {
            Ok(n) => match self.elementsize() {
                Ok(s) => {
                    let wide: u64 = n as u64;
                    let each: u64 = s as u64;
                    proof {
                        lemma_layout_products(*self);
                        assert(wide * each <= 0x7fff_ffff * 128) by (nonlinear_arith)
                            requires
                                wide <= 0x7fff_ffff,
                                each <= 128,
                        ;
                    }
                    narrow(wide * each)
                },
                Err(e) => Err(e),
            },
            Err(e) => Err(e),
        }
    }
}

/// A number or an error as the machine returns it: a number too large for a
/// word becomes `Overflow`.
pub open spec fn in_word(r: Result<nat, LayoutError>) -> Result<usize, LayoutError> {
    match r {
        Ok(n) => if n <= usize::MAX {
            Ok(n as usize)
        } else {
            Err(LayoutError::Overflow)
        },
        Err(e) => Err(e),
    }
}

fn narrow(n: u64) -> (r: Result<usize, LayoutError>)
    ensures
        r == in_word(Ok(n as nat)),
{
    if n > usize::MAX as u64 {
        Err(LayoutError::Overflow)
    } else {
        Ok(n as usize)
    }
}

/// The formulas of the layout: an element takes the size of a scalar once
/// for each component; `n` elements take `n` times the size of one; there
/// are as many scalars as elements times components; and the whole takes
/// the size of an element once for each element.
pub proof fn lemma_layout_products(d: TypeDesc)
    ensures
        forall|n: nat|
            d.element_size() matches Ok(each) ==> #[trigger] d.span(n) == Ok::<nat, LayoutError>(
                n * each,
            ),
        d.basetype.byte_size() matches Some(scalar) ==> d.element_size() == Ok::<
            nat,
            LayoutError,
        >(d.aggregate.code() * scalar),
        d.num_elements() matches Ok(elements) ==> d.base_values() == Ok::<nat, LayoutError>(
            elements * d.aggregate.code(),
        ),
        d.num_elements() matches Ok(elements) ==> (d.element_size() matches Ok(each)
            ==> d.total_size() == Ok::<nat, LayoutError>(elements * each)),
        d.total_size() is Ok <==> d.num_elements() is Ok && d.element_size() is Ok,
{
    let count = d.aggregate.code();
    d.aggregate.lemma_times(1);
    d.basetype.lemma_bytes_for(count);
    assert forall|n: nat| d.element_size() is Ok implies #[trigger] d.span(n) == Ok::<
        nat,
        LayoutError,
    >(n * d.element_size().unwrap()) by {
        if d.element_size() is Ok {
            let scalar = d.basetype.byte_size().unwrap();
            d.aggregate.lemma_times(n);
            d.basetype.lemma_bytes_for(count * n);
            assert((count * n) * scalar == n * (count * scalar)) by (nonlinear_arith);
        }
    }
    if d.arraylen >= 0 {
        let elements = d.num_elements().unwrap();
        d.aggregate.lemma_times(elements);
        d.basetype.lemma_bytes_for(count * elements);
        if d.basetype != BaseType::LastBase {
            let scalar = d.basetype.byte_size().unwrap();
            assert((elements * count) * scalar == elements * (count * scalar))
                by (nonlinear_arith);
            assert(count * elements == elements * count) by (nonlinear_arith);
        }
    }
}

} // verus!
