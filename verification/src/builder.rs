//! Making terms on a heap, telling terms apart by kind, and taking a term
//! for what it is.

use vstd::prelude::*;
use vstd::string::*;
use crate::atom::Atom;
use crate::closure::TypeError;
use crate::closure_layout::native_word;
use crate::copy::{copy_bytes, same_term, same_terms};
use crate::heap::{alloc_words, lemma_word_is_pow2, AllocError, Heap};
use crate::number::{float_finite, BigInteger, Float, Integer, SmallInteger};
use crate::term::{bits_of, lemma_terms_view, object_words, term_wf, terms_view, terms_wf,
    ExternalPid, Pid, Port, Reference, SubBinary, Term, TermView, PID_NUMBER_MAX, PID_SERIAL_MAX};

verus! {

/// A number or a serial is too large for a process identifier.
#[derive(Clone, Copy, Debug, PartialEq, Eq)]
pub struct OutOfRange {}

/// The terms of `terms` over again, on no heap.
pub fn duplicate_slice(terms: &[Term]) -> (copies: Vec<Term>)
    requires
        terms_wf(terms@),
    ensures
        same_terms(copies@, terms@),
{
    let mut copies: Vec<Term> = Vec::new();
    let mut i: usize = 0;
    while i < terms.len()
        invariant
            i <= terms.len(),
            copies@.len() == i,
            terms_wf(terms@),
            forall|j: int| 0 <= j < i ==> same_term(#[trigger] &copies@[j], &terms@[j]),
        decreases terms.len() - i,
    {
        let copy = terms[i].duplicate();
        copies.push(copy);
        i += 1;
    }
    copies
}

/// The view of the list that holds `elements` from place `i` on and ends in
/// `nil`.
pub open spec fn list_view_from(elements: Seq<TermView>, i: int) -> TermView
    decreases elements.len() - i,
{
    if i < 0 || i >= elements.len() {
        TermView::Nil
    } else {
        TermView::Cons(Box::new(elements[i]), Box::new(list_view_from(elements, i + 1)))
    }
}

/// The view of the list that holds `elements` and ends in `nil`.
pub open spec fn list_view(elements: Seq<TermView>) -> TermView {
    list_view_from(elements, 0)
}

impl Pid {
    /// The local process identifier with the given number and serial, if
    /// both are in range.
    pub fn new(number: u32, serial: u32) -> (pid: Result<Pid, OutOfRange>)
        ensures
            pid is Ok <==> number <= PID_NUMBER_MAX && serial <= PID_SERIAL_MAX,
            pid matches Ok(p) ==> p == (Pid { number, serial }),
    {
        if number <= PID_NUMBER_MAX && serial <= PID_SERIAL_MAX {
            Ok(Pid { number, serial })
        } else {
            Err(OutOfRange {  })
        }
    }

    /// The term of the local process identifier with the given number and
    /// serial, if both are in range.
    pub fn make_term(number: u32, serial: u32) -> (term: Result<Term, OutOfRange>)
        ensures
            term is Ok <==> number <= PID_NUMBER_MAX && serial <= PID_SERIAL_MAX,
            term matches Ok(t) ==> t.wf() && t == Term::Pid(Pid { number, serial }),
    {
        match Pid::new(number, serial) {
            Ok(pid) => Ok(Term::Pid(pid)),
            Err(e) => Err(e),
        }
    }
}

impl Atom {
    /// The term of the atom whose name is `name`.
    pub fn str_to_term(name: &str) -> (term: Term)
        ensures
            term.wf(),
            term@ == TermView::Atom(name.spec_bytes()),
    {
        Term::Atom(Atom::from_str(name))
    }
}

/// The view of the atom `true` or `false`.
pub open spec fn boolean_view(value: bool) -> TermView {
    if value {
        TermView::Atom("true".spec_bytes())
    } else {
        TermView::Atom("false".spec_bytes())
    }
}

impl Term {
    /// The term `nil`, the empty list.
    pub const NIL: Term = Term::Nil;

    /// The atom `true` or `false`.
    pub fn from_bool(value: bool) -> (term: Term)
        ensures
            term.wf(),
            term@ == boolean_view(value),
    {
        if value {
            Atom::str_to_term("true")
        } else {
            Atom::str_to_term("false")
        }
    }

    /// Whether the term is an integer or a float.
    pub fn is_number(&self) -> (answer: bool)
        ensures
            answer == (self@ is Integer || self@ is Float),
    {
        match self {
            Term::SmallInteger(_) => true,
            Term::BigInteger(_) => true,
            Term::Float(_) => true,
            _ => false,
        }
    }

    /// Whether the term is an integer.
    pub fn is_integer(&self) -> (answer: bool)
        ensures
            answer == (self@ is Integer),
    {
        match self {
            Term::SmallInteger(_) => true,
            Term::BigInteger(_) => true,
            _ => false,
        }
    }

    /// Whether the term is a float.
    pub fn is_float(&self) -> (answer: bool)
        ensures
            answer == (self@ is Float),
    {
        match self {
            Term::Float(_) => true,
            _ => false,
        }
    }

    /// Whether the term is an atom.
    pub fn is_atom(&self) -> (answer: bool)
        ensures
            answer == (self@ is Atom),
    {
        match self {
            Term::Atom(_) => true,
            _ => false,
        }
    }

    /// Whether the term is a list: `nil` or a cons cell.
    pub fn is_list(&self) -> (answer: bool)
        ensures
            answer == (self@ is Nil || self@ is Cons),
    {
        match self {
            Term::Nil => true,
            Term::Cons(_, _) => true,
            _ => false,
        }
    }

    /// Whether the term is a tuple.
    pub fn is_tuple(&self) -> (answer: bool)
        ensures
            answer == (self@ is Tuple),
    {
        match self {
            Term::Tuple(_) => true,
            _ => false,
        }
    }

    /// Whether the term is a map.
    pub fn is_map(&self) -> (answer: bool)
        ensures
            answer == (self@ is Mapping),
    {
        match self {
            Term::Mapping(_, _) => true,
            _ => false,
        }
    }

    /// Whether the term is a function.
    pub fn is_function(&self) -> (answer: bool)
        ensures
            answer == (self@ is Closure),
    {
        match self {
            Term::Closure(_) => true,
            _ => false,
        }
    }

    /// Whether the term is a process identifier.
    pub fn is_pid(&self) -> (answer: bool)
        ensures
            answer == (self@ is Pid || self@ is ExternalPid),
    {
        match self {
            Term::Pid(_) => true,
            Term::ExternalPid(_) => true,
            _ => false,
        }
    }

    /// Whether the term is a reference.
    pub fn is_reference(&self) -> (answer: bool)
        ensures
            answer == (self@ is Reference),
    {
        match self {
            Term::Reference(_) => true,
            _ => false,
        }
    }

    /// Whether the term is a port.
    pub fn is_port(&self) -> (answer: bool)
        ensures
            answer == (self@ is Port),
    {
        match self {
            Term::Port(_) => true,
            _ => false,
        }
    }

    /// Whether the term is a bitstring: a binary or a part of one.
    pub fn is_bitstring(&self) -> (answer: bool)
        ensures
            answer == (self@ is Bitstring),
    {
        match self {
            Term::HeapBinary(_) => true,
            Term::SubBinary(_) => true,
            _ => false,
        }
    }

    /// Whether the term is a binary: a bitstring of whole bytes.
    pub fn is_binary(&self) -> (answer: bool)
        requires
            self.wf(),
        ensures
            answer == (self@ matches TermView::Bitstring(bits) && bits.len() % 8 == 0),
    {
        match self {
            Term::HeapBinary(_) => true,
            Term::SubBinary(sub) => sub.partial_bit_len == 0,
            _ => false,
        }
    }

    /// Whether the term is no number.
    pub fn is_not_number(&self) -> (answer: bool)
        ensures
            answer == !(self@ is Integer || self@ is Float),
    {
        !self.is_number()
    }

    /// Whether the term is no integer.
    pub fn is_not_integer(&self) -> (answer: bool)
        ensures
            answer == !(self@ is Integer),
    {
        !self.is_integer()
    }

    /// Whether the term is no float.
    pub fn is_not_float(&self) -> (answer: bool)
        ensures
            answer == !(self@ is Float),
    {
        !self.is_float()
    }

    /// Whether the term is no list.
    pub fn is_not_list(&self) -> (answer: bool)
        ensures
            answer == !(self@ is Nil || self@ is Cons),
    {
        !self.is_list()
    }

    /// Whether the term is no tuple.
    pub fn is_not_tuple(&self) -> (answer: bool)
        ensures
            answer == !(self@ is Tuple),
    {
        !self.is_tuple()
    }

    /// Whether the term is no bitstring.
    pub fn is_not_bitstring(&self) -> (answer: bool)
        ensures
            answer == !(self@ is Bitstring),
    {
        !self.is_bitstring()
    }

    /// Whether the term is no binary.
    pub fn is_not_binary(&self) -> (answer: bool)
        requires
            self.wf(),
        ensures
            answer == !(self@ matches TermView::Bitstring(bits) && bits.len() % 8 == 0),
    {
        !self.is_binary()
    }

    /// The integer of a term that is one.
    pub fn to_integer(&self) -> (integer: Result<Integer, TypeError>)
        requires
            self.wf(),
        ensures
            integer is Ok <==> self@ is Integer,
            integer matches Ok(i) ==> i.wf() && self@ == TermView::Integer(i@),
    {
        match self {
            Term::SmallInteger(i) => Ok(Integer::Small(*i)),
            Term::BigInteger(i) => Ok(Integer::Big(*i)),
            _ => Err(TypeError {  }),
        }
    }

    /// The float of a term that is one.
    pub fn to_float(&self) -> (float: Result<Float, TypeError>)
        requires
            self.wf(),
        ensures
            float is Ok <==> self@ is Float,
            float matches Ok(f) ==> f.wf() && self@ == TermView::Float(f@),
    {
        match self {
            Term::Float(f) => Ok(*f),
            _ => Err(TypeError {  }),
        }
    }

    /// The elements of a term that is a tuple.
    pub fn to_tuple(&self) -> (elements: Result<&Vec<Term>, TypeError>)
        requires
            self.wf(),
        ensures
            elements is Ok <==> self@ is Tuple,
            elements matches Ok(e) ==> *self == Term::Tuple(*e) && terms_wf(e@),
    {
        match self {
            Term::Tuple(elements) => Ok(elements),
            _ => Err(TypeError {  }),
        }
    }

    /// The atom of a term that is one.
    pub fn to_atom(&self) -> (atom: Result<&Atom, TypeError>)
        ensures
            atom is Ok <==> self@ is Atom,
            atom matches Ok(a) ==> self@ == TermView::Atom(a@),
    {
        match self {
            Term::Atom(atom) => Ok(atom),
            _ => Err(TypeError {  }),
        }
    }

    /// The head and the tail of a term that is a cons cell.
    pub fn to_cons(&self) -> (cell: Result<(&Term, &Term), TypeError>)
        requires
            self.wf(),
        ensures
            cell is Ok <==> self@ is Cons,
            cell matches Ok((head, tail)) ==> head.wf() && tail.wf() && self@ == TermView::Cons(
                Box::new(head@),
                Box::new(tail@),
            ),
    {
        match self {
            Term::Cons(head, tail) => Ok((&**head, &**tail)),
            _ => Err(TypeError {  }),
        }
    }

    /// The keys and the values of a term that is a map, the value of each
    /// key at the same place.
    pub fn to_map(&self) -> (entries: Result<(&Vec<Term>, &Vec<Term>), TypeError>)
        requires
            self.wf(),
        ensures
            entries is Ok <==> self@ is Mapping,
            entries matches Ok((keys, values)) ==> keys@.len() == values@.len() && terms_wf(keys@)
                && terms_wf(values@) && self@ == TermView::Mapping(
                terms_view(keys@),
                terms_view(values@),
            ),
    {
        match self {
            Term::Mapping(keys, values) => Ok((keys, values)),
            _ => Err(TypeError {  }),
        }
    }

    /// The closure of a term that is a function.
    pub fn to_closure(&self) -> (closure: Result<&crate::term::Closure, TypeError>)
        requires
            self.wf(),
        ensures
            closure is Ok <==> self@ is Closure,
            closure matches Ok(c) ==> c.wf() && self@ == TermView::Closure(c@),
    {
        match self {
            Term::Closure(closure) => Ok(&**closure),
            _ => Err(TypeError {  }),
        }
    }

    /// The local process identifier of a term that is one.
    pub fn to_pid(&self) -> (pid: Result<Pid, TypeError>)
        ensures
            pid is Ok <==> self@ is Pid,
            pid matches Ok(p) ==> self@ == TermView::Pid(p),
    {
        match self {
            Term::Pid(pid) => Ok(*pid),
            _ => Err(TypeError {  }),
        }
    }

    /// The reference of a term that is one.
    pub fn to_reference(&self) -> (reference: Result<Reference, TypeError>)
        ensures
            reference is Ok <==> self@ is Reference,
            reference matches Ok(r) ==> self@ == TermView::Reference(r),
    {
        match self {
            Term::Reference(reference) => Ok(*reference),
            _ => Err(TypeError {  }),
        }
    }

    /// The bytes of a term that is a binary.
    pub fn to_bytes(&self) -> (bytes: Result<Vec<u8>, TypeError>)
        requires
            self.wf(),
        ensures
            bytes is Ok <==> (self@ matches TermView::Bitstring(bits) && bits.len() % 8 == 0),
            bytes matches Ok(b) ==> self@ == TermView::Bitstring(bits_of(b@)) && b@
                == crate::term::bytes_of_bits(self@->Bitstring_0),
    {
        match self {
            Term::HeapBinary(bytes) => {
                proof {
                    crate::term::lemma_bytes_of_bits(bytes@);
                }
                Ok(copy_bytes(bytes))
            },
            Term::SubBinary(sub) => {
                if sub.partial_bit_len != 0 {
                    return Err(TypeError {  });
                }
                let bytes = sub_bytes(sub);
                proof {
                    crate::term::lemma_bytes_of_bits(bytes@);
                }
                Ok(bytes)
            },
            _ => Err(TypeError {  }),
        }
    }
}

/// The bytes of a part of a binary that holds whole bytes.
fn sub_bytes(sub: &SubBinary) -> (bytes: Vec<u8>)
    requires
        sub.wf(),
        sub.partial_bit_len == 0,
    ensures
        bits_of(bytes@) == sub@,
{
    let mut bytes: Vec<u8> = Vec::new();
    let mut i: usize = 0;
    while i < sub.full_byte_len
        invariant
            i <= sub.full_byte_len,
            sub.wf(),
            sub.partial_bit_len == 0,
            bytes@.len() == i,
            forall|j: int| 0 <= j < 8 * i ==> bits_of(bytes@)[j] == sub@[j],
        decreases sub.full_byte_len - i,
    {
        let byte = sub_byte(sub, i);
        let ghost before = bytes@;
        bytes.push(byte);
        proof {
            assert forall|j: int| 0 <= j < 8 * (i + 1) implies bits_of(bytes@)[j] == sub@[j] by {
                if j < 8 * i {
                    assert(bits_of(before)[j] == sub@[j]);
                    assert(bytes@[j / 8] == before[j / 8]);
                } else {
                    let k = j - 8 * i;
                    assert(j / 8 == i);
                    assert(j % 8 == k);
                    assert(bytes@[j / 8] == byte);
                    assert(crate::term::bit_of(seq![byte], k) == sub@[8 * i + k]);
                    assert(seq![byte][k / 8] == byte);
                }
            }
        }
        i += 1;
    }
    assert(bits_of(bytes@) =~= sub@);
    bytes
}

/// The byte made of the eight bits of `sub` from bit `8 * i` on.
fn sub_byte(sub: &SubBinary, i: usize) -> (byte: u8)
    requires
        sub.wf(),
        i < sub.full_byte_len,
    ensures
        forall|k: int| 0 <= k < 8 ==> crate::term::bit_of(seq![byte], k) == sub@[8 * i + k],
{
    let count = sub.original.len();
    assert(sub.byte_offset + sub.full_byte_len <= count);
    assert(sub.bit_offset > 0 ==> sub.byte_offset + sub.full_byte_len < sub.original@.len());
    let start = sub.byte_offset + i;
    let high = sub.original[start];
    if sub.bit_offset == 0 {
        proof {
            assert forall|k: int| 0 <= k < 8 implies crate::term::bit_of(seq![high], k) == sub@[8
                * i + k] by {
                assert((sub.first_bit() + 8 * i + k) / 8 == start);
                assert((sub.first_bit() + 8 * i + k) % 8 == k);
            }
        }
        high
    } else {
        let low = sub.original[start + 1];
        let offset = sub.bit_offset;
        let byte = (high << offset) | (low >> (8 - offset));
        proof {
            assert forall|k: int| 0 <= k < 8 implies crate::term::bit_of(seq![byte], k) == sub@[8
                * i + k] by {
                let bit = sub.first_bit() + 8 * i + k;
                lemma_shifted_bit(high, low, offset, k as u8);
                if k + offset < 8 {
                    assert(bit / 8 == start);
                    assert(bit % 8 == k + offset);
                } else {
                    assert(bit / 8 == start + 1);
                    assert(bit % 8 == k + offset - 8);
                }
            }
        }
        byte
    }
}

/// Bit `k` of two bytes shifted left by `offset` bits is bit `k + offset`
/// of the two bytes.
proof fn lemma_shifted_bit(high: u8, low: u8, offset: u8, k: u8)
    requires
        0 < offset < 8,
        k < 8,
    ensures
        ({
            let byte = (high << offset) | (low >> ((8 - offset) as u8));
            let from = if k + offset < 8 {
                high
            } else {
                low
            };
            let at = if k + offset < 8 {
                k + offset
            } else {
                k + offset - 8
            };
            (byte as int / crate::term::bit_weight(k as int)) % 2 == (from as int
                / crate::term::bit_weight(at as int)) % 2
        }),
{
    let byte: u8 = (high << offset) | (low >> ((8 - offset) as u8));
    let from: u8 = if k + offset < 8 {
        high
    } else {
        low
    };
    let at: u8 = if k + offset < 8 {
        (k + offset) as u8
    } else {
        (k + offset - 8) as u8
    };
    let wk: u8 = 128u8 >> k;
    let wa: u8 = 128u8 >> at;
    assert(wk as int == crate::term::bit_weight(k as int) && wa as int == crate::term::bit_weight(
        at as int,
    )) by {
        assert(128u8 >> 0u8 == 128 && 128u8 >> 1u8 == 64 && 128u8 >> 2u8 == 32 && 128u8 >> 3u8
            == 16 && 128u8 >> 4u8 == 8 && 128u8 >> 5u8 == 4 && 128u8 >> 6u8 == 2 && 128u8 >> 7u8
            == 1) by (bit_vector);
    }
    assert((byte / wk) % 2 == (from / wa) % 2) by (bit_vector)
        requires
            0 < offset < 8,
            k < 8,
            byte == (high << offset) | (low >> ((8 - offset) as u8)),
            from == (if k + offset < 8 {
                high
            } else {
                low
            }),
            at == (if k + offset < 8 {
                (k + offset) as u8
            } else {
                (k + offset - 8) as u8
            }),
            wk == 128u8 >> k,
            wa == 128u8 >> at,
    ;
}

impl Heap {
    /// The integer `value`, on this heap where it does not fit in a word.
    pub fn integer(&mut self, value: i64) -> (term: Result<Term, AllocError>)
        requires
            old(self).wf(),
        ensures
            final(self).wf(),
            final(self).capacity() == old(self).capacity(),
            term matches Ok(t) ==> {
                &&& t.wf()
                &&& t@ == TermView::Integer(value as int)
                &&& t is SmallInteger <==> crate::number::is_small(value as int)
                &&& final(self).used() == old(self).used() + object_words(&t)
            },
            term is Ok <==> (crate::number::is_small(value as int) || old(self).used() + 2
                + crate::term::words_for(16) <= old(self).capacity()),
            term is Err ==> final(self).used() == old(self).used(),
    {
        self.integer_term(Integer::from_i64(value))
    }

    /// The term of `integer`, on this heap where it does not fit in a word.
    pub fn integer_term(&mut self, integer: Integer) -> (term: Result<Term, AllocError>)
        requires
            old(self).wf(),
            integer.wf(),
        ensures
            final(self).wf(),
            final(self).capacity() == old(self).capacity(),
            term matches Ok(t) ==> {
                &&& t.wf()
                &&& t@ == TermView::Integer(integer@)
                &&& t is SmallInteger <==> crate::number::is_small(integer@)
                &&& final(self).used() == old(self).used() + object_words(&t)
            },
            term is Ok <==> (crate::number::is_small(integer@) || old(self).used() + 2
                + crate::term::words_for(16) <= old(self).capacity()),
            term is Err ==> final(self).used() == old(self).used(),
    {
        proof {
            lemma_word_is_pow2();
        }
        match integer {
            Integer::Small(small) => Ok(Term::SmallInteger(small)),
            Integer::Big(big) => {
                let word = crate::closure_layout::native_word_size();
                match alloc_words(self, 2 + 16 / word) {
                    Ok(_) => Ok(Term::BigInteger(big)),
                    Err(e) => Err(e),
                }
            },
        }
    }

    /// The float with the given bits, on this heap.
    pub fn float(&mut self, bits: u64) -> (term: Result<Term, AllocError>)
        requires
            old(self).wf(),
            float_finite(bits),
        ensures
            final(self).wf(),
            final(self).capacity() == old(self).capacity(),
            term is Ok <==> old(self).used() + 1 + crate::term::words_for(8) <= old(
                self,
            ).capacity(),
            term matches Ok(t) ==> {
                &&& t.wf()
                &&& t@ == TermView::Float(
                    if bits == 0x8000_0000_0000_0000 {
                        0
                    } else {
                        bits
                    },
                )
                &&& final(self).used() == old(self).used() + object_words(&t)
            },
            term is Err ==> final(self).used() == old(self).used(),
    {
        match Float::from_bits(bits) {
            Some(float) => self.float_term(float),
            None => vstd::pervasive::unreached(),
        }
    }

    /// The term of `float`, on this heap.
    pub fn float_term(&mut self, float: Float) -> (term: Result<Term, AllocError>)
        requires
            old(self).wf(),
            float.wf(),
        ensures
            final(self).wf(),
            final(self).capacity() == old(self).capacity(),
            term is Ok <==> old(self).used() + 1 + crate::term::words_for(8) <= old(
                self,
            ).capacity(),
            term matches Ok(t) ==> {
                &&& t.wf()
                &&& t@ == TermView::Float(float@)
                &&& final(self).used() == old(self).used() + object_words(&t)
            },
            term is Err ==> final(self).used() == old(self).used(),
    {
        proof {
            lemma_word_is_pow2();
        }
        let word = crate::closure_layout::native_word_size();
        match alloc_words(self, 1 + 8 / word) {
            Ok(_) => Ok(Term::Float(float)),
            Err(e) => Err(e),
        }
    }

    /// The reference with the given node, creation and number, on this heap.
    pub fn reference(&mut self, node: u32, creation: u32, number: u64) -> (term: Result<
        Term,
        AllocError,
    >)
        requires
            old(self).wf(),
        ensures
            final(self).wf(),
            final(self).capacity() == old(self).capacity(),
            term is Ok <==> old(self).used() + 1 + crate::term::words_for(16) <= old(
                self,
            ).capacity(),
            term matches Ok(t) ==> {
                &&& t.wf()
                &&& t == Term::Reference(Reference { node, creation, number })
                &&& final(self).used() == old(self).used() + object_words(&t)
            },
            term is Err ==> final(self).used() == old(self).used(),
    {
        proof {
            lemma_word_is_pow2();
        }
        let word = crate::closure_layout::native_word_size();
        match alloc_words(self, 1 + 16 / word) {
            Ok(_) => Ok(Term::Reference(Reference { node, creation, number })),
            Err(e) => Err(e),
        }
    }

    /// The identifier of the process with the given number and serial on
    /// the node `node`, on this heap.
    pub fn external_pid(&mut self, node: u32, number: u32, serial: u32) -> (term: Result<
        Term,
        AllocError,
    >)
        requires
            old(self).wf(),
            number <= PID_NUMBER_MAX,
            serial <= PID_SERIAL_MAX,
        ensures
            final(self).wf(),
            final(self).capacity() == old(self).capacity(),
            term is Ok <==> old(self).used() + 3 <= old(self).capacity(),
            term matches Ok(t) ==> {
                &&& t.wf()
                &&& t == Term::ExternalPid(ExternalPid { node, number, serial })
                &&& final(self).used() == old(self).used() + 3
            },
            term is Err ==> final(self).used() == old(self).used(),
    {
        match alloc_words(self, 3) {
            Ok(_) => Ok(Term::ExternalPid(ExternalPid { node, number, serial })),
            Err(e) => Err(e),
        }
    }

    /// The cons cell of `head` and `tail`, on this heap.
    pub fn cons(&mut self, head: Term, tail: Term) -> (term: Result<Term, AllocError>)
        requires
            old(self).wf(),
            head.wf(),
            tail.wf(),
        ensures
            final(self).wf(),
            final(self).capacity() == old(self).capacity(),
            term is Ok <==> old(self).used() + 3 <= old(self).capacity(),
            term matches Ok(t) ==> {
                &&& t.wf()
                &&& t == Term::Cons(Box::new(head), Box::new(tail))
                &&& final(self).used() == old(self).used() + 3
            },
            term is Err ==> final(self).used() == old(self).used(),
    {
        match alloc_words(self, 3) {
            Ok(_) => Ok(Term::Cons(Box::new(head), Box::new(tail))),
            Err(e) => Err(e),
        }
    }

    /// The tuple of the terms of `elements`, on this heap.
    pub fn tuple_from_slice(&mut self, elements: &[Term]) -> (term: Result<Term, AllocError>)
        requires
            old(self).wf(),
            terms_wf(elements@),
        ensures
            final(self).wf(),
            final(self).capacity() == old(self).capacity(),
            term is Ok <==> old(self).used() + 1 + elements@.len() <= old(self).capacity(),
            term matches Ok(t) ==> {
                &&& t.wf()
                &&& t@ == TermView::Tuple(terms_view(elements@))
                &&& t matches Term::Tuple(e) && same_terms(e@, elements@)
                &&& final(self).used() == old(self).used() + 1 + elements@.len()
            },
            term is Err ==> final(self).used() == old(self).used(),
    {
        proof {
            self.lemma_wf();
        }
        if elements.len() >= self.words_available() {
            return Err(AllocError {  });
        }
        match alloc_words(self, 1 + elements.len()) {
            Ok(_) => {
                let copies = duplicate_slice(elements);
                proof {
                    self.lemma_wf();
                    crate::copy::lemma_same_terms(copies@, elements@, 0);
                    let w = native_word();
                    assert((1 + elements@.len()) * w <= self.capacity() * w) by (nonlinear_arith)
                        requires
                            1 + elements@.len() <= self.capacity(),
                            w > 0,
                    ;
                }
                Ok(Term::Tuple(copies))
            },
            Err(e) => Err(e),
        }
    }

    /// The map of the keys and values of `entries`, on this heap.
    pub fn map_from_slice(&mut self, entries: &[(Term, Term)]) -> (term: Result<Term, AllocError>)
        requires
            old(self).wf(),
            forall|i: int| 0 <= i < entries@.len() ==> (#[trigger] entries@[i]).0.wf() && entries@[i].1.wf(),
        ensures
            final(self).wf(),
            final(self).capacity() == old(self).capacity(),
            term is Ok <==> old(self).used() + 2 + 2 * entries@.len() <= old(self).capacity(),
            term matches Ok(t) ==> {
                &&& t.wf()
                &&& t matches Term::Mapping(keys, values) && keys@.len() == entries@.len()
                    && values@.len() == entries@.len() && forall|i: int|
                    0 <= i < entries@.len() ==> same_term(#[trigger] &keys@[i], &entries@[i].0)
                        && same_term(&values@[i], &entries@[i].1)
                &&& final(self).used() == old(self).used() + 2 + 2 * entries@.len()
            },
            term is Err ==> final(self).used() == old(self).used(),
    {
        proof {
            self.lemma_wf();
        }
        let available = self.words_available();
        if available < 2 || entries.len() > (available - 2) / 2 {
            return Err(AllocError {  });
        }
        match alloc_words(self, 2 + 2 * entries.len()) {
            Ok(_) => {
                let mut keys: Vec<Term> = Vec::new();
                let mut values: Vec<Term> = Vec::new();
                let mut i: usize = 0;
                while i < entries.len()
                    invariant
                        i <= entries.len(),
                        keys@.len() == i,
                        values@.len() == i,
                        forall|j: int|
                            0 <= j < entries@.len() ==> (#[trigger] entries@[j]).0.wf()
                                && entries@[j].1.wf(),
                        forall|j: int|
                            0 <= j < i ==> same_term(#[trigger] &keys@[j], &entries@[j].0)
                                && same_term(&values@[j], &entries@[j].1),
                    decreases entries.len() - i,
                {
                    assert(entries@[i as int].0.wf() && entries@[i as int].1.wf());
                    let key = entries[i].0.duplicate();
                    let value = entries[i].1.duplicate();
                    keys.push(key);
                    values.push(value);
                    i += 1;
                }
                proof {
                    self.lemma_wf();
                    let w = native_word();
                    assert(2 + 2 * entries@.len() <= self.capacity());
                    assert((2 + 2 * entries@.len()) * w <= self.capacity() * w)
                        by (nonlinear_arith)
                        requires
                            2 + 2 * entries@.len() <= self.capacity(),
                            w > 0,
                    ;
                    assert forall|j: int| 0 <= j < keys@.len() implies term_wf(
                        #[trigger] &keys@[j],
                    ) by {
                        assert(same_term(&keys@[j], &entries@[j].0));
                    }
                    assert forall|j: int| 0 <= j < values@.len() implies term_wf(
                        #[trigger] &values@[j],
                    ) by {
                        assert(same_term(&keys@[j], &entries@[j].0));
                    }
                }
                let term = Term::Mapping(keys, values);
                assert(terms_wf(keys@));
                assert(terms_wf(values@));
                assert(term.wf());
                Ok(term)
            },
            Err(e) => Err(e),
        }
    }

    /// The list of the terms of `elements`, on this heap: a cons cell for
    /// each, the last of which ends in `nil`.
    pub fn list_from_slice(&mut self, elements: &[Term]) -> (term: Result<Term, AllocError>)
        requires
            old(self).wf(),
            terms_wf(elements@),
        ensures
            final(self).wf(),
            final(self).capacity() == old(self).capacity(),
            term is Ok <==> old(self).used() + 3 * elements@.len() <= old(self).capacity(),
            term matches Ok(t) ==> {
                &&& t.wf()
                &&& t@ == list_view(terms_view(elements@))
                &&& final(self).used() == old(self).used() + 3 * elements@.len()
            },
            term is Err ==> final(self).used() == old(self).used(),
    {
        proof {
            self.lemma_wf();
            lemma_terms_view(elements@);
        }
        if elements.len() > self.words_available() / 3 {
            return Err(AllocError {  });
        }
        match alloc_words(self, 3 * elements.len()) {
            Err(e) => {
                return Err(e);
            },
            Ok(_) => {},
        }
        let mut list = Term::Nil;
        let mut i: usize = elements.len();
        while i > 0
            invariant
                i <= elements.len(),
                terms_wf(elements@),
                list.wf(),
                list@ == list_view_from(terms_view(elements@), i as int),
                terms_view(elements@).len() == elements@.len(),
            decreases i,
        {
            i -= 1;
            proof {
                lemma_terms_view(elements@);
            }
            let head = elements[i].duplicate();
            list = Term::Cons(Box::new(head), Box::new(list));
        }
        Ok(list)
    }

    /// The binary of the bytes of `bytes`, on this heap.
    pub fn binary_from_bytes(&mut self, bytes: &[u8]) -> (term: Result<Term, AllocError>)
        requires
            old(self).wf(),
        ensures
            final(self).wf(),
            final(self).capacity() == old(self).capacity(),
            term is Ok <==> old(self).used() + 2 + crate::term::words_for(bytes@.len() as int)
                <= old(self).capacity(),
            term matches Ok(t) ==> {
                &&& t.wf()
                &&& t matches Term::HeapBinary(b) && b@ == bytes@
                &&& final(self).used() == old(self).used() + object_words(&t)
            },
            term is Err ==> final(self).used() == old(self).used(),
    {
        proof {
            self.lemma_wf();
            lemma_word_is_pow2();
        }
        let word = crate::closure_layout::native_word_size();
        let available = self.words_available();
        if available < 2 || bytes.len() > (available - 2) * word {
            proof {
                let w = native_word();
                let n = bytes@.len() as int;
                if available >= 2 {
                    // More bytes than the words that are left hold.
                    assert((n + w - 1) / w > available - 2) by (nonlinear_arith)
                        requires
                            n > (available - 2) * w,
                            w > 0,
                    ;
                } else {
                    assert((n + w - 1) / w >= 0) by (nonlinear_arith)
                        requires
                            n >= 0,
                            w > 0,
                    ;
                }
            }
            return Err(AllocError {  });
        }
        let words = 2 + (bytes.len() + (word - 1)) / word;
        proof {
            let w = native_word();
            let n = bytes@.len() as int;
            assert((n + w - 1) / w <= available - 2) by (nonlinear_arith)
                requires
                    n <= (available - 2) * w,
                    w > 0,
            ;
            assert(self.capacity() * w <= isize::MAX);
            assert(2 * w + n <= self.capacity() * w) by (nonlinear_arith)
                requires
                    n <= (available - 2) * w,
                    available <= self.capacity(),
                    w > 0,
            ;
        }
        match alloc_words(self, words) {
            Ok(_) => {
                let mut copy: Vec<u8> = Vec::new();
                let mut i: usize = 0;
                while i < bytes.len()
                    invariant
                        i <= bytes.len(),
                        copy@ == bytes@.subrange(0, i as int),
                    decreases bytes.len() - i,
                {
                    copy.push(bytes[i]);
                    assert(copy@ == bytes@.subrange(0, i + 1));
                    i += 1;
                }
                assert(copy@ == bytes@);
                Ok(Term::HeapBinary(copy))
            },
            Err(e) => Err(e),
        }
    }

    /// The part of the binary `original` that begins after `byte_offset`
    /// bytes and `bit_offset` bits and holds `full_byte_len` bytes and
    /// `partial_bit_len` bits, on this heap.
    pub fn subbinary_from_original(
        &mut self,
        original: &Term,
        byte_offset: usize,
        bit_offset: u8,
        full_byte_len: usize,
        partial_bit_len: u8,
    ) -> (term: Result<Term, AllocError>)
        requires
            old(self).wf(),
            original.wf(),
            original is HeapBinary,
            bit_offset < 8,
            partial_bit_len < 8,
            8 * byte_offset + bit_offset + 8 * full_byte_len + partial_bit_len <= 8
                * original->HeapBinary_0@.len(),
        ensures
            final(self).wf(),
            final(self).capacity() == old(self).capacity(),
            term is Ok <==> old(self).used() + 6 <= old(self).capacity(),
            term matches Ok(t) ==> {
                &&& t.wf()
                &&& t matches Term::SubBinary(sub) && sub.original@ == original->HeapBinary_0@
                    && sub.byte_offset == byte_offset && sub.bit_offset == bit_offset
                    && sub.full_byte_len == full_byte_len && sub.partial_bit_len
                    == partial_bit_len
                &&& final(self).used() == old(self).used() + 6
            },
            term is Err ==> final(self).used() == old(self).used(),
    {
        match original {
            Term::HeapBinary(bytes) => match alloc_words(self, 6) {
                Ok(_) => Ok(
                    Term::SubBinary(
                        SubBinary {
                            original: copy_bytes(bytes),
                            byte_offset,
                            bit_offset,
                            full_byte_len,
                            partial_bit_len,
                        },
                    ),
                ),
                Err(e) => Err(e),
            },
            _ => vstd::pervasive::unreached(),
        }
    }
}

} // verus!
