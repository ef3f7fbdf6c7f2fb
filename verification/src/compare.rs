//! The order of terms.
//!
//! Terms of different kinds are ordered by kind: number, atom, reference,
//! function, port, process identifier, tuple, map, nil, list, bitstring.
//! Terms of one kind are ordered by what they hold. Numbers are ordered by
//! value, so that an integer and a float may be equal in order without being
//! the same term.

use vstd::prelude::*;
use crate::closure::definition_order;
use crate::number::{float_scaled, integer_scaled, lemma_scale_keeps_order, Float, Integer};
use crate::order::{bits_order, bit_key, bytes_order, int_order, lex_order_from, Order};
use crate::term::{bit_of, bit_weight, bits_of, lemma_terms_view, term_wf, terms_view, terms_wf,
    Closure, ClosureView, ExternalPid, Pid, Reference, SubBinary, Term, TermView};

verus! {

/// The place of the kind of a term among the kinds.
pub open spec fn rank(term: TermView) -> int {
    match term {
        TermView::Integer(_) => 0,
        TermView::Float(_) => 0,
        TermView::Atom(_) => 1,
        TermView::Reference(_) => 2,
        TermView::Closure(_) => 3,
        TermView::Port(_) => 4,
        TermView::Pid(_) => 5,
        TermView::ExternalPid(_) => 5,
        TermView::Tuple(_) => 6,
        TermView::Mapping(_, _) => 7,
        TermView::Nil => 8,
        TermView::Cons(_, _) => 9,
        TermView::Bitstring(_) => 10,
    }
}

/// The value of a number, times `2^1074`; zero for what is no number.
pub open spec fn number_key(term: TermView) -> int {
    match term {
        TermView::Integer(i) => integer_scaled(i),
        TermView::Float(bits) => float_scaled(bits),
        _ => 0,
    }
}

/// The order of two native addresses: none is below any.
pub open spec fn native_order(a: Option<nat>, b: Option<nat>) -> Order {
    match (a, b) {
        (None, None) => Order::Equal,
        (None, Some(_)) => Order::Less,
        (Some(_), None) => Order::Greater,
        (Some(x), Some(y)) => int_order(x as int, y as int),
    }
}

/// The order of two references: by node, then creation, then number.
pub open spec fn reference_order(a: Reference, b: Reference) -> Order {
    int_order(a.node as int, b.node as int).chain(
        int_order(a.creation as int, b.creation as int),
    ).chain(int_order(a.number as int, b.number as int))
}

/// The order of two local process identifiers: by serial, then number.
pub open spec fn pid_order(a: Pid, b: Pid) -> Order {
    int_order(a.serial as int, b.serial as int).chain(int_order(a.number as int, b.number as int))
}

/// The order of two process identifiers of other nodes: by node, then
/// serial, then number.
pub open spec fn external_pid_order(a: ExternalPid, b: ExternalPid) -> Order {
    int_order(a.node as int, b.node as int).chain(
        int_order(a.serial as int, b.serial as int),
    ).chain(int_order(a.number as int, b.number as int))
}

/// The order of two sequences of terms from place `i` on: the first place
/// at which the terms differ in order decides; where one sequence ends
/// first, it is the lesser.
pub open spec fn terms_order_from(a: Seq<TermView>, b: Seq<TermView>, i: int) -> Order
    decreases a, a.len() - i,
{
    if i < 0 {
        Order::Equal
    } else if i >= a.len() {
        if i >= b.len() {
            Order::Equal
        } else {
            Order::Less
        }
    } else if i >= b.len() {
        Order::Greater
    } else {
        term_order(a[i], b[i]).chain(terms_order_from(a, b, i + 1))
    }
}

/// The order of two closures: by module, then arity, then definition, then
/// native address, then environment.
pub open spec fn closure_order(a: ClosureView, b: ClosureView) -> Order
    decreases a, 0nat,
{
    bytes_order(a.module, b.module).chain(int_order(a.arity as int, b.arity as int)).chain(
        definition_order(a.definition, b.definition),
    ).chain(native_order(a.native, b.native)).chain(terms_order_from(a.env, b.env, 0))
}

/// The order of two terms.
pub open spec fn term_order(a: TermView, b: TermView) -> Order
    decreases a, 0nat,
{
    if rank(a) != rank(b) {
        int_order(rank(a), rank(b))
    } else {
        match (a, b) {
            (TermView::Atom(x), TermView::Atom(y)) => bytes_order(x, y),
            (TermView::Reference(x), TermView::Reference(y)) => reference_order(x, y),
            (TermView::Closure(x), TermView::Closure(y)) => closure_order(x, y),
            (TermView::Port(x), TermView::Port(y)) => int_order(
                x.number as int,
                y.number as int,
            ),
            (TermView::Pid(x), TermView::Pid(y)) => pid_order(x, y),
            (TermView::Pid(_), TermView::ExternalPid(_)) => Order::Less,
            (TermView::ExternalPid(_), TermView::Pid(_)) => Order::Greater,
            (TermView::ExternalPid(x), TermView::ExternalPid(y)) => external_pid_order(x, y),
            (TermView::Tuple(x), TermView::Tuple(y)) => int_order(
                x.len() as int,
                y.len() as int,
            ).chain(terms_order_from(x, y, 0)),
            (TermView::Mapping(k, v), TermView::Mapping(l, w)) => int_order(
                k.len() as int,
                l.len() as int,
            ).chain(terms_order_from(k, l, 0)).chain(terms_order_from(v, w, 0)),
            (TermView::Cons(h, t), TermView::Cons(i, u)) => term_order(*h, *i).chain(
                term_order(*t, *u),
            ),
            (TermView::Bitstring(x), TermView::Bitstring(y)) => bits_order(x, y),
            (TermView::Nil, TermView::Nil) => Order::Equal,
            _ => int_order(number_key(a), number_key(b)),
        }
    }
}

/// The order of two small unsigned integers.
fn compare_u64(a: u64, b: u64) -> (order: Order)
    ensures
        order == int_order(a as int, b as int),
{
    if a < b {
        Order::Less
    } else if a == b {
        Order::Equal
    } else {
        Order::Greater
    }
}

/// The weight of bit `i` of a byte, counted from the high bit.
fn bit_weight_of(i: usize) -> (weight: u8)
    requires
        i < 8,
    ensures
        weight == bit_weight(i as int),
        weight > 0,
{
    if i == 0 {
        128
    } else if i == 1 {
        64
    } else if i == 2 {
        32
    } else if i == 3 {
        16
    } else if i == 4 {
        8
    } else if i == 5 {
        4
    } else if i == 6 {
        2
    } else {
        1
    }
}

/// Bit `i` of a byte string.
fn bit_at(bytes: &Vec<u8>, i: u128) -> (bit: bool)
    requires
        i < 8 * bytes@.len(),
    ensures
        bit == bit_of(bytes@, i as int),
{
    let count = bytes.len();
    assert(i / 8 < count);
    let place = (i / 8) as usize;
    let within = (i % 8) as usize;
    (bytes[place] / bit_weight_of(within)) % 2 == 1
}

/// The bytes and the range of bits that a binary term stands for.
struct Bits<'a> {
    bytes: &'a Vec<u8>,
    first: u128,
    len: u128,
}

impl<'a> Bits<'a> {
    spec fn wf(&self) -> bool {
        self.first + self.len <= 8 * self.bytes@.len()
    }

    spec fn bits(&self) -> Seq<bool> {
        Seq::new(self.len as nat, |i: int| bit_of(self.bytes@, self.first + i))
    }
}

/// The bits of a binary term.
fn bits_of_term<'a>(term: &'a Term) -> (bits: Bits<'a>)
    requires
        term.wf(),
        term@ is Bitstring,
    ensures
        bits.wf(),
        term@ == TermView::Bitstring(bits.bits()),
{
    match term {
        Term::HeapBinary(bytes) => {
            let bits = Bits { bytes, first: 0, len: 8 * (bytes.len() as u128) };
            assert(bits.bits() =~= bits_of(bytes@));
            bits
        },
        Term::SubBinary(sub) => {
            let bits = Bits {
                bytes: &sub.original,
                first: 8 * (sub.byte_offset as u128) + sub.bit_offset as u128,
                len: 8 * (sub.full_byte_len as u128) + sub.partial_bit_len as u128,
            };
            assert(bits.bits() =~= sub@);
            bits
        },
        _ => vstd::pervasive::unreached(),
    }
}

/// The order of two bit strings.
fn compare_bits(a: &Bits, b: &Bits) -> (order: Order)
    requires
        a.wf(),
        b.wf(),
    ensures
        order == bits_order(a.bits(), b.bits()),
{
    let mut i: u128 = 0;
    let a_count = a.bytes.len();
    let b_count = b.bytes.len();
    while i < a.len && i < b.len
        invariant
            i <= a.len,
            i <= b.len,
            a.wf(),
            b.wf(),
            a.bytes@.len() == a_count,
            b.bytes@.len() == b_count,
            bits_order(a.bits(), b.bits()) == lex_order_from(
                a.bits(),
                b.bits(),
                bit_key(),
                i as int,
            ),
        decreases a.len - i,
    {
        let x = bit_at(a.bytes, a.first + i);
        let y = bit_at(b.bytes, b.first + i);
        proof {
            assert(a.bits()[i as int] == x);
            assert(b.bits()[i as int] == y);
            assert(a.bits().len() == a.len);
            assert(b.bits().len() == b.len);
        }
        if !x && y {
            return Order::Less;
        }
        if x && !y {
            return Order::Greater;
        }
        i += 1;
    }
    if i < b.len {
        Order::Less
    } else if i < a.len {
        Order::Greater
    } else {
        Order::Equal
    }
}

/// The integer of a term that is one.
fn integer_of(term: &Term) -> (integer: Integer)
    requires
        term.wf(),
        term is SmallInteger || term is BigInteger,
    ensures
        integer.wf(),
        term@ == TermView::Integer(integer@),
{
    match term {
        Term::SmallInteger(i) => Integer::Small(*i),
        Term::BigInteger(i) => Integer::Big(*i),
        _ => vstd::pervasive::unreached(),
    }
}

/// The order of two sequences of terms.
pub fn compare_terms(a: &[Term], b: &[Term]) -> (order: Order)
    requires
        terms_wf(a@),
        terms_wf(b@),
    ensures
        order == terms_order_from(terms_view(a@), terms_view(b@), 0),
    decreases a@,
{
    proof {
        lemma_terms_view(a@);
        lemma_terms_view(b@);
    }
    let mut i: usize = 0;
    while i < a.len() && i < b.len()
        invariant
            i <= a.len(),
            i <= b.len(),
            terms_wf(a@),
            terms_wf(b@),
            terms_view(a@).len() == a@.len(),
            terms_view(b@).len() == b@.len(),
            terms_order_from(terms_view(a@), terms_view(b@), 0) == terms_order_from(
                terms_view(a@),
                terms_view(b@),
                i as int,
            ),
        decreases a.len() - i,
    {
        proof {
            lemma_terms_view(a@);
            lemma_terms_view(b@);
        }
        let order = a[i].compare(&b[i]);
        match order {
            Order::Equal => {},
            _ => {
                return order;
            },
        }
        i += 1;
    }
    if i < b.len() {
        Order::Less
    } else if i < a.len() {
        Order::Greater
    } else {
        Order::Equal
    }
}

/// The order of two native addresses.
fn compare_native(a: Option<usize>, b: Option<usize>) -> (order: Order)
    ensures
        order == native_order(
            match a {
                Some(x) => Some(x as nat),
                None => None,
            },
            match b {
                Some(y) => Some(y as nat),
                None => None,
            },
        ),
{
    match (a, b) {
        (None, None) => Order::Equal,
        (None, Some(_)) => Order::Less,
        (Some(_), None) => Order::Greater,
        (Some(x), Some(y)) => compare_u64(x as u64, y as u64),
    }
}

impl Closure {
    /// The order of two closures.
    pub fn compare(&self, other: &Closure) -> (order: Order)
        requires
            self.wf(),
            other.wf(),
        ensures
            order == closure_order(self@, other@),
        decreases self,
    {
        let order = self.module.compare(&other.module).chain(
            compare_u64(self.arity as u64, other.arity as u64),
        ).chain(self.definition.compare(&other.definition)).chain(
            compare_native(self.native, other.native),
        );
        match order {
            Order::Equal => compare_terms(self.env.as_slice(), other.env.as_slice()),
            _ => order,
        }
    }

    /// Whether the closures are equal in order.
    pub fn equals(&self, other: &Closure) -> (equal: bool)
        requires
            self.wf(),
            other.wf(),
        ensures
            equal == (closure_order(self@, other@) == Order::Equal),
    {
        match self.compare(other) {
            Order::Equal => true,
            _ => false,
        }
    }
}

/// The place of the kind of a term among the kinds.
fn rank_of(term: &Term) -> (r: u8)
    ensures
        r == rank(term@),
{
    match term {
        Term::SmallInteger(_) => 0,
        Term::BigInteger(_) => 0,
        Term::Float(_) => 0,
        Term::Atom(_) => 1,
        Term::Reference(_) => 2,
        Term::Closure(_) => 3,
        Term::Port(_) => 4,
        Term::Pid(_) => 5,
        Term::ExternalPid(_) => 5,
        Term::Tuple(_) => 6,
        Term::Mapping(_, _) => 7,
        Term::Nil => 8,
        Term::Cons(_, _) => 9,
        Term::HeapBinary(_) => 10,
        Term::SubBinary(_) => 10,
    }
}

/// The order of two numbers.
fn compare_numbers(a: &Term, b: &Term) -> (order: Order)
    requires
        a.wf(),
        b.wf(),
        rank(a@) == 0,
        rank(b@) == 0,
    ensures
        order == int_order(number_key(a@), number_key(b@)),
{
    proof {
        vstd::arithmetic::power2::lemma_pow2_pos(1074);
    }
    match (a, b) {
        (Term::Float(x), Term::Float(y)) => x.compare(y),
        (Term::Float(x), _) => x.compare_integer(&integer_of(b)),
        (_, Term::Float(y)) => y.compare_integer(&integer_of(a)).reverse(),
        _ => {
            let x = integer_of(a);
            let y = integer_of(b);
            proof {
                lemma_scale_keeps_order(
                    x@,
                    y@,
                    vstd::arithmetic::power2::pow2(1074) as int,
                );
            }
            x.compare(&y)
        },
    }
}

impl Term {
    /// The order of two terms.
    pub fn compare(&self, other: &Term) -> (order: Order)
        requires
            self.wf(),
            other.wf(),
        ensures
            order == term_order(self@, other@),
        decreases self,
    {
        proof {
            reveal_with_fuel(term_wf, 2);
        }
        let r = rank_of(self);
        let s = rank_of(other);
        if r != s {
            return compare_u64(r as u64, s as u64);
        }
        match (self, other) {
            (Term::Atom(x), Term::Atom(y)) => x.compare(y),
            (Term::Reference(x), Term::Reference(y)) => compare_u64(
                x.node as u64,
                y.node as u64,
            ).chain(compare_u64(x.creation as u64, y.creation as u64)).chain(
                compare_u64(x.number, y.number),
            ),
            (Term::Closure(x), Term::Closure(y)) => x.compare(y),
            (Term::Port(x), Term::Port(y)) => compare_u64(x.number as u64, y.number as u64),
            (Term::Pid(x), Term::Pid(y)) => compare_u64(x.serial as u64, y.serial as u64).chain(
                compare_u64(x.number as u64, y.number as u64),
            ),
            (Term::Pid(_), Term::ExternalPid(_)) => Order::Less,
            (Term::ExternalPid(_), Term::Pid(_)) => Order::Greater,
            (Term::ExternalPid(x), Term::ExternalPid(y)) => compare_u64(
                x.node as u64,
                y.node as u64,
            ).chain(compare_u64(x.serial as u64, y.serial as u64)).chain(
                compare_u64(x.number as u64, y.number as u64),
            ),
            (Term::Tuple(x), Term::Tuple(y)) => {
                proof {
                    lemma_terms_view(x@);
                    lemma_terms_view(y@);
                }
                match compare_u64(x.len() as u64, y.len() as u64) {
                    Order::Equal => compare_terms(x.as_slice(), y.as_slice()),
                    order => order,
                }
            },
            (Term::Mapping(k, v), Term::Mapping(l, w)) => {
                proof {
                    lemma_terms_view(k@);
                    lemma_terms_view(l@);
                }
                match compare_u64(k.len() as u64, l.len() as u64) {
                    Order::Equal => match compare_terms(k.as_slice(), l.as_slice()) {
                        Order::Equal => compare_terms(v.as_slice(), w.as_slice()),
                        order => order,
                    },
                    order => order,
                }
            },
            (Term::Cons(h, t), Term::Cons(i, u)) => match h.compare(i) {
                Order::Equal => t.compare(u),
                order => order,
            },
            (Term::Nil, Term::Nil) => Order::Equal,
            _ => {
                if r == 10 {
                    let a = bits_of_term(self);
                    let b = bits_of_term(other);
                    compare_bits(&a, &b)
                } else {
                    compare_numbers(self, other)
                }
            },
        }
    }

    /// Whether the terms are equal in order: the same but for the form of
    /// the numbers in them.
    pub fn equals(&self, other: &Term) -> (equal: bool)
        requires
            self.wf(),
            other.wf(),
        ensures
            equal == (term_order(self@, other@) == Order::Equal),
    {
        match self.compare(other) {
            Order::Equal => true,
            _ => false,
        }
    }
}

/// Whether two bit strings hold the same bits.
fn bits_equal(a: &Bits, b: &Bits) -> (equal: bool)
    requires
        a.wf(),
        b.wf(),
    ensures
        equal == (a.bits() == b.bits()),
{
    if a.len != b.len {
        assert(a.bits().len() != b.bits().len());
        return false;
    }
    let mut i: u128 = 0;
    let a_count = a.bytes.len();
    let b_count = b.bytes.len();
    while i < a.len
        invariant
            i <= a.len,
            a.len == b.len,
            a.wf(),
            b.wf(),
            a.bytes@.len() == a_count,
            b.bytes@.len() == b_count,
            forall|j: int| 0 <= j < i ==> a.bits()[j] == b.bits()[j],
        decreases a.len - i,
    {
        let x = bit_at(a.bytes, a.first + i);
        let y = bit_at(b.bytes, b.first + i);
        if x != y {
            assert(a.bits()[i as int] != b.bits()[i as int]);
            return false;
        }
        i += 1;
    }
    assert(a.bits() =~= b.bits());
    true
}

/// Whether two bitstrings hold the same bits.
pub fn bitstrings_equal(a: &Term, b: &Term) -> (equal: bool)
    requires
        a.wf(),
        b.wf(),
        a@ is Bitstring,
        b@ is Bitstring,
    ensures
        equal == (a@ == b@),
{
    bits_equal(&bits_of_term(a), &bits_of_term(b))
}

/// The hash of a bitstring: of its bits, and then of their number.
pub fn bitstring_hash(term: &Term) -> (hash: u64)
    requires
        term.wf(),
        term@ is Bitstring,
    ensures
        hash == crate::hash::term_hash(term@),
{
    let bits = bits_of_term(term);
    let count = bits.bytes.len();
    let mut hash = crate::hash::mix_in(crate::hash::HASH_SEED, 12);
    let mut i: u128 = 0;
    while i < bits.len
        invariant
            i <= bits.len,
            bits.wf(),
            bits.bytes@.len() == count,
            bits.bits().len() == bits.len,
            hash == crate::hash::mix_bits_to(
                crate::hash::mix(crate::hash::HASH_SEED, 12),
                bits.bits(),
                i as int,
            ),
        decreases bits.len - i,
    {
        let bit = bit_at(bits.bytes, bits.first + i);
        hash = crate::hash::mix_in(
            hash,
            if bit {
                1
            } else {
                0
            },
        );
        i += 1;
    }
    crate::hash::mix_in(hash, (bits.len % 0x1_0000_0000_0000_0000) as u64)
}

} // verus!
