//! The built-in functions that work on terms: comparisons, arithmetic on
//! integers and floats, and the taking apart of tuples.
//!
//! A function that makes a term takes the heap of the calling process. Where
//! the arguments are of the wrong kind it fails with `badarg` or `badarith`;
//! where the heap has no room for the result, with `Alloc`.

use vstd::prelude::*;
use crate::builder::{boolean_view, list_view};
use crate::copy::same_term;
use crate::compare::term_order;
use crate::heap::{Heap};
use crate::number::{float_finite, float_scaled, is_small, rem_spec, Float, Integer};
use crate::order::Order;
use crate::term::{bytes_of_bits, lemma_terms_view, object_words, term_wf, terms_view, terms_wf,
    words_for, Term, TermView};

verus! {

/// Why an arithmetic function fails.
#[derive(Clone, Copy, Debug, PartialEq, Eq, Structural)]
pub enum Badarith {
    /// Dividend and divisor are not both integers.
    NotBothIntegers,
    /// The divisor is zero.
    ZeroDivisor,
    /// The number is neither an integer nor a float.
    NotANumber,
}

/// Why an argument is refused.
#[derive(Clone, Copy, Debug, PartialEq, Eq, Structural)]
pub enum Badarg {
    /// The term is no tuple.
    NotATuple,
    /// The index is no integer between one and the size of the tuple.
    IndexOutOfRange,
    /// The term is no binary.
    NotABinary,
    /// The binary does not hold a number.
    NotAFloat,
    /// The number has no decimal point.
    NoDecimalPoint,
    /// The number is too large for a float: there are no infinities.
    Infinity,
}

/// Why a built-in function fails.
#[derive(Clone, Copy, Debug, PartialEq, Eq, Structural)]
pub enum Exception {
    Badarith(Badarith),
    Badarg(Badarg),
    /// The heap has no room for the result.
    Alloc,
}

impl Exception {
    /// What went wrong, in words.
    pub fn message(&self) -> (message: &'static str)
        ensures
            message@ == (match self {
                Exception::Badarith(Badarith::NotBothIntegers) =>
                    "dividend and divisor are not both integers"@,
                Exception::Badarith(Badarith::ZeroDivisor) => "divisor cannot be zero"@,
                Exception::Badarith(Badarith::NotANumber) =>
                    "number is neither an integer nor a float"@,
                Exception::Badarg(Badarg::NotATuple) => "term is not a tuple"@,
                Exception::Badarg(Badarg::IndexOutOfRange) =>
                    "index is not a 1-based integer between 1 and the size of the tuple"@,
                Exception::Badarg(Badarg::NotABinary) => "binary must be a binary"@,
                Exception::Badarg(Badarg::NotAFloat) => "float string does not hold a float"@,
                Exception::Badarg(Badarg::NoDecimalPoint) =>
                    "float string does not contain decimal point"@,
                Exception::Badarg(Badarg::Infinity) => "Erlang does not support infinities"@,
                Exception::Alloc => "heap has no room for the result"@,
            }),
    {
        match self {
            Exception::Badarith(Badarith::NotBothIntegers) =>
                "dividend and divisor are not both integers",
            Exception::Badarith(Badarith::ZeroDivisor) => "divisor cannot be zero",
            Exception::Badarith(Badarith::NotANumber) =>
                "number is neither an integer nor a float",
            Exception::Badarg(Badarg::NotATuple) => "term is not a tuple",
            Exception::Badarg(Badarg::IndexOutOfRange) =>
                "index is not a 1-based integer between 1 and the size of the tuple",
            Exception::Badarg(Badarg::NotABinary) => "binary must be a binary",
            Exception::Badarg(Badarg::NotAFloat) => "float string does not hold a float",
            Exception::Badarg(Badarg::NoDecimalPoint) =>
                "float string does not contain decimal point",
            Exception::Badarg(Badarg::Infinity) => "Erlang does not support infinities",
            Exception::Alloc => "heap has no room for the result",
        }
    }
}

/// Whether a heap of `capacity` words of which `used` are taken has room for
/// the integer `value`: a small integer takes none.
pub open spec fn integer_fits(used: int, capacity: int, value: int) -> bool {
    is_small(value) || used + 2 + words_for(16) <= capacity
}

/// Whether a byte string holds a decimal point.
pub open spec fn has_decimal_point(bytes: Seq<u8>) -> bool {
    exists|i: int| 0 <= i < bytes.len() && bytes[i] == 46u8
}

/// Whether a byte string holds a decimal point.
fn contains_decimal_point(bytes: &Vec<u8>) -> (found: bool)
    ensures
        found == has_decimal_point(bytes@),
{
    let mut i: usize = 0;
    while i < bytes.len()
        invariant
            i <= bytes.len(),
            forall|j: int| 0 <= j < i ==> bytes@[j] != 46u8,
        decreases bytes.len() - i,
    {
        if bytes[i] == 46 {
            return true;
        }
        i += 1;
    }
    false
}

/// `true` where `left` is above `right` in the order of terms.
pub fn is_greater_than_2(left: &Term, right: &Term) -> (answer: Term)
    requires
        left.wf(),
        right.wf(),
    ensures
        answer.wf(),
        answer@ == boolean_view(term_order(left@, right@) == Order::Greater),
{
    match left.compare(right) {
        Order::Greater => Term::from_bool(true),
        _ => Term::from_bool(false),
    }
}

/// `true` where `left` is not above `right` in the order of terms.
pub fn is_equal_or_less_than_2(left: &Term, right: &Term) -> (answer: Term)
    requires
        left.wf(),
        right.wf(),
    ensures
        answer.wf(),
        answer@ == boolean_view(term_order(left@, right@) != Order::Greater),
{
    match left.compare(right) {
        Order::Greater => Term::from_bool(false),
        _ => Term::from_bool(true),
    }
}

/// The lesser of two terms; the first where they are equal in order.
pub fn min_2(first: &Term, second: &Term) -> (least: Term)
    requires
        first.wf(),
        second.wf(),
    ensures
        term_order(first@, second@) != Order::Greater ==> same_term(&least, first),
        term_order(first@, second@) == Order::Greater ==> same_term(&least, second),
{
    match first.compare(second) {
        Order::Greater => second.duplicate(),
        _ => first.duplicate(),
    }
}

/// The greater of two terms; the first where they are equal in order.
pub fn max_2(first: &Term, second: &Term) -> (greatest: Term)
    requires
        first.wf(),
        second.wf(),
    ensures
        term_order(first@, second@) != Order::Less ==> same_term(&greatest, first),
        term_order(first@, second@) == Order::Less ==> same_term(&greatest, second),
{
    match first.compare(second) {
        Order::Less => second.duplicate(),
        _ => first.duplicate(),
    }
}

/// `true` where the term is a float.
pub fn is_float_1(term: &Term) -> (answer: Term)
    ensures
        answer.wf(),
        answer@ == boolean_view(term@ is Float),
{
    Term::from_bool(term.is_float())
}

/// What `rem_2` returns on a heap of `capacity` words of which `used` are
/// taken.
pub open spec fn rem_2_spec(dividend: TermView, divisor: TermView, used: int, capacity: int)
    -> Result<TermView, Exception> {
    match (dividend, divisor) {
        (TermView::Integer(a), TermView::Integer(b)) => if b == 0 {
            Err(Exception::Badarith(Badarith::ZeroDivisor))
        } else if integer_fits(used, capacity, rem_spec(a, b)) {
            Ok(TermView::Integer(rem_spec(a, b)))
        } else {
            Err(Exception::Alloc)
        },
        _ => Err(Exception::Badarith(Badarith::NotBothIntegers)),
    }
}

/// The view of a result.
pub open spec fn result_view(result: Result<Term, Exception>) -> Result<TermView, Exception> {
    match result {
        Ok(term) => Ok(term@),
        Err(e) => Err(e),
    }
}

/// What a function leaves of a heap: it stays a heap of the same size, on
/// which the result takes the words of its own object and a failure takes
/// none.
pub open spec fn heap_holds(before: &Heap, after: &Heap, result: Result<Term, Exception>) -> bool {
    &&& after.wf()
    &&& after.capacity() == before.capacity()
    &&& match result {
        Ok(term) => term.wf() && after.used() == before.used() + object_words(&term),
        Err(_) => after.used() == before.used(),
    }
}

/// The remainder of dividing an integer by an integer, with the sign of the
/// dividend. Fails with `badarith` where either is no integer or the divisor
/// is zero.
pub fn rem_2(heap: &mut Heap, dividend: &Term, divisor: &Term) -> (remainder: Result<
    Term,
    Exception,
>)
    requires
        old(heap).wf(),
        dividend.wf(),
        divisor.wf(),
    ensures
        result_view(remainder) == rem_2_spec(
            dividend@,
            divisor@,
            old(heap).used(),
            old(heap).capacity(),
        ),
        heap_holds(old(heap), final(heap), remainder),
{
    let a = match dividend.to_integer() {
        Ok(a) => a,
        Err(_) => {
            return Err(Exception::Badarith(Badarith::NotBothIntegers));
        },
    };
    let b = match divisor.to_integer() {
        Ok(b) => b,
        Err(_) => {
            return Err(Exception::Badarith(Badarith::NotBothIntegers));
        },
    };
    if b.is_zero() {
        return Err(Exception::Badarith(Badarith::ZeroDivisor));
    }
    match heap.integer_term(a.rem(&b)) {
        Ok(term) => Ok(term),
        Err(_) => Err(Exception::Alloc),
    }
}

/// What `negate_1` returns on a heap of `capacity` words of which `used` are
/// taken. The float of opposite sign is told by its scaled value.
pub open spec fn negate_1_spec(
    number: TermView,
    used: int,
    capacity: int,
    result: Result<TermView, Exception>,
) -> bool {
    match number {
        TermView::Integer(i) => if integer_fits(used, capacity, -i) {
            result == Ok::<TermView, Exception>(TermView::Integer(-i))
        } else {
            result == Err::<TermView, Exception>(Exception::Alloc)
        },
        TermView::Float(bits) => if used + 1 + words_for(8) <= capacity {
            result matches Ok(TermView::Float(negated)) && float_scaled(negated) == -float_scaled(
                bits,
            )
        } else {
            result == Err::<TermView, Exception>(Exception::Alloc)
        },
        _ => result == Err::<TermView, Exception>(Exception::Badarith(Badarith::NotANumber)),
    }
}

/// The number of opposite sign. Fails with `badarith` where the term is no
/// number.
pub fn negate_1(heap: &mut Heap, number: &Term) -> (negated: Result<Term, Exception>)
    requires
        old(heap).wf(),
        number.wf(),
    ensures
        negate_1_spec(number@, old(heap).used(), old(heap).capacity(), result_view(negated)),
        heap_holds(old(heap), final(heap), negated),
{
    match number {
        Term::Float(f) => match heap.float_term(f.negate()) {
            Ok(term) => Ok(term),
            Err(_) => Err(Exception::Alloc),
        },
        _ => match number.to_integer() {
            Ok(i) => match heap.integer_term(i.negate()) {
                Ok(term) => Ok(term),
                Err(_) => Err(Exception::Alloc),
            },
            Err(_) => Err(Exception::Badarith(Badarith::NotANumber)),
        },
    }
}

/// What `tuple_size_1` returns.
pub open spec fn tuple_size_1_spec(tuple: TermView, used: int, capacity: int) -> Result<
    TermView,
    Exception,
> {
    match tuple {
        TermView::Tuple(elements) => if integer_fits(used, capacity, elements.len() as int) {
            Ok(TermView::Integer(elements.len() as int))
        } else {
            Err(Exception::Alloc)
        },
        _ => Err(Exception::Badarg(Badarg::NotATuple)),
    }
}

/// The number of elements of a tuple. Fails with `badarg` where the term is
/// no tuple.
pub fn tuple_size_1(heap: &mut Heap, tuple: &Term) -> (size: Result<Term, Exception>)
    requires
        old(heap).wf(),
        tuple.wf(),
    ensures
        result_view(size) == tuple_size_1_spec(tuple@, old(heap).used(), old(heap).capacity()),
        heap_holds(old(heap), final(heap), size),
{
    match tuple.to_tuple() {
        Ok(elements) => {
            proof {
                lemma_terms_view(elements@);
                crate::heap::lemma_word_is_pow2();
            }
            match heap.integer(elements.len() as i64) {
                Ok(term) => Ok(term),
                Err(_) => Err(Exception::Alloc),
            }
        },
        Err(_) => Err(Exception::Badarg(Badarg::NotATuple)),
    }
}

/// What `delete_element_2` returns: the tuple without the element at the
/// one-based place `index`.
pub open spec fn delete_element_2_spec(
    index: TermView,
    tuple: TermView,
    used: int,
    capacity: int,
) -> Result<TermView, Exception> {
    match tuple {
        TermView::Tuple(elements) => match index {
            TermView::Integer(i) => if 1 <= i <= elements.len() {
                if used + elements.len() <= capacity {
                    Ok(TermView::Tuple(elements.remove(i - 1)))
                } else {
                    Err(Exception::Alloc)
                }
            } else {
                Err(Exception::Badarg(Badarg::IndexOutOfRange))
            },
            _ => Err(Exception::Badarg(Badarg::IndexOutOfRange)),
        },
        _ => Err(Exception::Badarg(Badarg::NotATuple)),
    }
}

/// The tuple without the element at the one-based place `index`. Fails with
/// `badarg` where the term is no tuple, or the index is no integer between
/// one and the size of the tuple.
pub fn delete_element_2(heap: &mut Heap, index: &Term, tuple: &Term) -> (shorter: Result<
    Term,
    Exception,
>)
    requires
        old(heap).wf(),
        index.wf(),
        tuple.wf(),
    ensures
        result_view(shorter) == delete_element_2_spec(
            index@,
            tuple@,
            old(heap).used(),
            old(heap).capacity(),
        ),
        heap_holds(old(heap), final(heap), shorter),
{
    let elements = match tuple.to_tuple() {
        Ok(elements) => elements,
        Err(_) => {
            return Err(Exception::Badarg(Badarg::NotATuple));
        },
    };
    proof {
        lemma_terms_view(elements@);
    }
    let place = match index.to_integer() {
        Ok(i) => {
            if i.is_negative() || i.is_zero() || i.magnitude() > elements.len() as u128 {
                return Err(Exception::Badarg(Badarg::IndexOutOfRange));
            }
            (i.magnitude() - 1) as usize
        },
        Err(_) => {
            return Err(Exception::Badarg(Badarg::IndexOutOfRange));
        },
    };
    let mut kept: Vec<Term> = Vec::new();
    let mut i: usize = 0;
    while i < elements.len()
        invariant
            i <= elements.len(),
            place < elements.len(),
            terms_wf(elements@),
            kept@.len() == (if i <= place {
                i as int
            } else {
                i - 1
            }),
            forall|j: int|
                0 <= j < kept@.len() ==> same_term(
                    #[trigger] &kept@[j],
                    &elements@[if j < place {
                        j
                    } else {
                        j + 1
                    }],
                ),
        decreases elements.len() - i,
    {
        if i != place {
            let copy = elements[i].duplicate();
            kept.push(copy);
        }
        i += 1;
    }
    proof {
        lemma_terms_view(kept@);
        assert(terms_wf(kept@)) by {
            assert forall|j: int| 0 <= j < kept@.len() implies term_wf(#[trigger] &kept@[j]) by {
                assert(same_term(
                    &kept@[j],
                    &elements@[if j < place {
                        j
                    } else {
                        j + 1
                    }],
                ));
            }
        }
        assert(terms_view(kept@) =~= terms_view(elements@).remove(place as int)) by {
            assert forall|j: int| 0 <= j < kept@.len() implies terms_view(kept@)[j] == terms_view(
                elements@,
            ).remove(place as int)[j] by {
                assert(same_term(
                    &kept@[j],
                    &elements@[if j < place {
                        j
                    } else {
                        j + 1
                    }],
                ));
            }
        }
    }
    match heap.tuple_from_slice(kept.as_slice()) {
        Ok(term) => {
            proof {
                let made = term->Tuple_0;
                lemma_terms_view(made@);
                crate::copy::lemma_same_terms(made@, kept@, 0);
            }
            Ok(term)
        },
        Err(_) => Err(Exception::Alloc),
    }
}

/// What `tuple_to_list_1` returns: the list of the elements of the tuple.
pub open spec fn tuple_to_list_1_spec(tuple: TermView, used: int, capacity: int) -> Result<
    TermView,
    Exception,
> {
    match tuple {
        TermView::Tuple(elements) => if used + 3 * elements.len() <= capacity {
            Ok(list_view(elements))
        } else {
            Err(Exception::Alloc)
        },
        _ => Err(Exception::Badarg(Badarg::NotATuple)),
    }
}

/// The list of the elements of a tuple, in their order. Fails with `badarg`
/// where the term is no tuple.
pub fn tuple_to_list_1(heap: &mut Heap, tuple: &Term) -> (list: Result<Term, Exception>)
    requires
        old(heap).wf(),
        tuple.wf(),
    ensures
        result_view(list) == tuple_to_list_1_spec(tuple@, old(heap).used(), old(heap).capacity()),
        final(heap).wf(),
        final(heap).capacity() == old(heap).capacity(),
        list matches Ok(l) ==> l.wf(),
        list matches Ok(_) ==> final(heap).used() == old(heap).used() + 3 * tuple@->Tuple_0.len(),
        list is Err ==> final(heap).used() == old(heap).used(),
{
    match tuple.to_tuple() {
        Ok(elements) => {
            proof {
                lemma_terms_view(elements@);
            }
            match heap.list_from_slice(elements.as_slice()) {
                Ok(term) => Ok(term),
                Err(_) => Err(Exception::Alloc),
            }
        },
        Err(_) => Err(Exception::Badarg(Badarg::NotATuple)),
    }
}

/// What `binary_to_float_1` returns for a binary of which `parsed` holds
/// the bits of the float that its text denotes, if it denotes one.
pub open spec fn binary_to_float_1_spec(
    binary: TermView,
    parsed: Option<u64>,
    used: int,
    capacity: int,
) -> Result<TermView, Exception> {
    match binary {
        TermView::Bitstring(bits) => if bits.len() % 8 != 0 {
            Err(Exception::Badarg(Badarg::NotABinary))
        } else {
            match parsed {
                None => Err(Exception::Badarg(Badarg::NotAFloat)),
                Some(float) => if !float_finite(float) {
                    Err(Exception::Badarg(Badarg::Infinity))
                } else if !has_decimal_point(bytes_of_bits(bits)) {
                    Err(Exception::Badarg(Badarg::NoDecimalPoint))
                } else if used + 1 + words_for(8) <= capacity {
                    Ok(
                        TermView::Float(
                            if float == 0x8000_0000_0000_0000 {
                                0
                            } else {
                                float
                            },
                        ),
                    )
                } else {
                    Err(Exception::Alloc)
                },
            }
        },
        _ => Err(Exception::Badarg(Badarg::NotABinary)),
    }
}

/// The float that the text of a binary denotes. The caller reads the text
/// with `Term::to_bytes`, parses it, and hands over in `parsed` the bits of
/// the float, or `None` where the text denotes none. Fails with `badarg`
/// where the term is no binary, where the text denotes no float, where the
/// float is an infinity, and where the text has no decimal point.
pub fn binary_to_float_1(heap: &mut Heap, binary: &Term, parsed: Option<u64>) -> (float: Result<
    Term,
    Exception,
>)
    requires
        old(heap).wf(),
        binary.wf(),
    ensures
        result_view(float) == binary_to_float_1_spec(
            binary@,
            parsed,
            old(heap).used(),
            old(heap).capacity(),
        ),
        heap_holds(old(heap), final(heap), float),
{
    let bytes = match binary.to_bytes() {
        Ok(bytes) => bytes,
        Err(_) => {
            return Err(Exception::Badarg(Badarg::NotABinary));
        },
    };
    match parsed {
        None => Err(Exception::Badarg(Badarg::NotAFloat)),
        Some(bits) => match Float::from_bits(bits) {
            None => Err(Exception::Badarg(Badarg::Infinity)),
            Some(float) => {
                if !contains_decimal_point(&bytes) {
                    Err(Exception::Badarg(Badarg::NoDecimalPoint))
                } else {
                    match heap.float_term(float) {
                        Ok(term) => Ok(term),
                        Err(_) => Err(Exception::Alloc),
                    }
                }
            },
        },
    }
}

} // verus!
