//! Hashes of terms, and whether two terms are the same term.
//!
//! The hash of a term is a function of its view: terms with the same view
//! have the same hash. A float that holds an integer has the hash of that
//! integer, so that terms that are equal in order have the same hash too.

use vstd::prelude::*;
use crate::atom::Atom;
use crate::compare::{bitstring_hash, bitstrings_equal};
use crate::number::Integer;
use crate::term::{lemma_terms_view, term_wf, terms_view, terms_wf, Closure, ClosureView,
    Definition, DefinitionView, Term, TermView};

verus! {

/// Where every hash begins.
pub const HASH_SEED: u64 = 0xcbf2_9ce4_8422_2325;

/// The factor that spreads what was mixed in.
pub const HASH_PRIME: u64 = 0x0000_0100_0000_01b3;

/// The hash `hash` with `word` mixed in.
pub open spec fn mix(hash: u64, word: u64) -> u64 {
    (hash ^ word).wrapping_mul(HASH_PRIME)
}

/// The hash `hash` with `word` mixed in.
pub fn mix_in(hash: u64, word: u64) -> (mixed: u64)
    ensures
        mixed == mix(hash, word),
{
    (hash ^ word).wrapping_mul(HASH_PRIME)
}

/// The hash `hash` with the first `n` bytes of `bytes` mixed in, and then
/// their number.
pub open spec fn mix_bytes_to(hash: u64, bytes: Seq<u8>, n: int) -> u64
    decreases n,
{
    if n <= 0 {
        hash
    } else {
        mix(mix_bytes_to(hash, bytes, n - 1), bytes[n - 1] as u64)
    }
}

/// The hash `hash` with `bytes` mixed in.
pub open spec fn mix_bytes(hash: u64, bytes: Seq<u8>) -> u64 {
    mix(mix_bytes_to(hash, bytes, bytes.len() as int), bytes.len() as u64)
}

/// The hash `hash` with the first `n` bits of `bits` mixed in.
pub open spec fn mix_bits_to(hash: u64, bits: Seq<bool>, n: int) -> u64
    decreases n,
{
    if n <= 0 {
        hash
    } else {
        mix(
            mix_bits_to(hash, bits, n - 1),
            if bits[n - 1] {
                1u64
            } else {
                0u64
            },
        )
    }
}

/// The hash `hash` with an integer mixed in: its sign, and the low and the
/// high half of its magnitude.
pub open spec fn mix_integer(hash: u64, value: int) -> u64 {
    let magnitude = if value < 0 {
        -value
    } else {
        value
    };
    mix(
        mix(
            mix(
                hash,
                if value < 0 {
                    1u64
                } else {
                    0u64
                },
            ),
            (magnitude % 0x1_0000_0000_0000_0000) as u64,
        ),
        (magnitude / 0x1_0000_0000_0000_0000) as u64,
    )
}

/// The hash `hash` with a definition mixed in.
pub open spec fn mix_definition(hash: u64, definition: DefinitionView) -> u64 {
    match definition {
        DefinitionView::Export { function } => mix_bytes(mix(hash, 0), function),
        DefinitionView::Anonymous { index, unique, old_unique } => mix(
            mix_bytes(mix(mix(hash, 1), index as u64), unique),
            old_unique as u64,
        ),
    }
}

/// The hash `hash` with the first `n` terms of `terms` mixed in.
pub open spec fn mix_terms_to(hash: u64, terms: Seq<TermView>, n: int) -> u64
    decreases terms, n,
{
    if n <= 0 || n > terms.len() {
        hash
    } else {
        mix(mix_terms_to(hash, terms, n - 1), term_hash(terms[n - 1]))
    }
}

/// The hash `hash` with the terms of `terms` mixed in, and then their
/// number.
pub open spec fn mix_terms(hash: u64, terms: Seq<TermView>) -> u64
    decreases terms, terms.len() + 1,
{
    mix(mix_terms_to(hash, terms, terms.len() as int), terms.len() as u64)
}

/// The hash of a closure: of its module, arity, definition, native address
/// and environment.
pub open spec fn closure_hash(closure: ClosureView) -> u64
    decreases closure,
{
    mix_terms(
        mix(
            mix_definition(
                mix(mix_bytes(HASH_SEED, closure.module), closure.arity as u64),
                closure.definition,
            ),
            match closure.native {
                Some(address) => address as u64,
                None => 0u64,
            },
        ),
        closure.env,
    )
}

/// The hash of a term.
pub open spec fn term_hash(term: TermView) -> u64
    decreases term,
{
    match term {
        TermView::Integer(value) => mix_integer(mix(HASH_SEED, 0), value),
        TermView::Float(bits) => match crate::number::float_integral(bits) {
            Some(value) => mix_integer(mix(HASH_SEED, 0), value),
            None => mix(mix(HASH_SEED, 1), bits),
        },
        TermView::Atom(name) => mix_bytes(mix(HASH_SEED, 2), name),
        TermView::Reference(r) => mix(
            mix(mix(mix(HASH_SEED, 3), r.node as u64), r.creation as u64),
            r.number,
        ),
        TermView::Closure(c) => mix(mix(HASH_SEED, 4), closure_hash(c)),
        TermView::Port(p) => mix(mix(HASH_SEED, 5), p.number as u64),
        TermView::Pid(p) => mix(mix(mix(HASH_SEED, 6), p.number as u64), p.serial as u64),
        TermView::ExternalPid(p) => mix(
            mix(mix(mix(HASH_SEED, 7), p.node as u64), p.number as u64),
            p.serial as u64,
        ),
        TermView::Tuple(elements) => mix_terms(mix(HASH_SEED, 8), elements),
        TermView::Mapping(keys, values) => mix_terms(mix_terms(mix(HASH_SEED, 9), keys), values),
        TermView::Nil => mix(HASH_SEED, 10),
        TermView::Cons(head, tail) => mix(
            mix(mix(HASH_SEED, 11), term_hash(*head)),
            term_hash(*tail),
        ),
        TermView::Bitstring(bits) => mix(
            mix_bits_to(mix(HASH_SEED, 12), bits, bits.len() as int),
            (bits.len() % 0x1_0000_0000_0000_0000) as u64,
        ),
    }
}

/// Terms that are the same have the same hash.
pub proof fn lemma_same_terms_same_hash(a: TermView, b: TermView)
    requires
        a == b,
    ensures
        term_hash(a) == term_hash(b),
{
}

/// The hash `hash` with `bytes` mixed in.
pub fn mix_in_bytes(hash: u64, bytes: &[u8]) -> (mixed: u64)
    ensures
        mixed == mix_bytes(hash, bytes@),
{
    let mut mixed = hash;
    let mut i: usize = 0;
    while i < bytes.len()
        invariant
            i <= bytes.len(),
            mixed == mix_bytes_to(hash, bytes@, i as int),
        decreases bytes.len() - i,
    {
        mixed = mix_in(mixed, bytes[i] as u64);
        i += 1;
    }
    mix_in(mixed, bytes.len() as u64)
}

/// The hash `hash` with `integer` mixed in.
fn mix_in_integer(hash: u64, integer: &Integer) -> (mixed: u64)
    requires
        integer.wf(),
    ensures
        mixed == mix_integer(hash, integer@),
{
    let magnitude = integer.magnitude();
    let sign: u64 = if integer.is_negative() {
        1
    } else {
        0
    };
    let low = (magnitude % 0x1_0000_0000_0000_0000) as u64;
    let high = (magnitude / 0x1_0000_0000_0000_0000) as u64;
    mix_in(mix_in(mix_in(hash, sign), low), high)
}

impl Definition {
    /// The hash `hash` with the definition mixed in.
    pub fn mix_into(&self, hash: u64) -> (mixed: u64)
        ensures
            mixed == mix_definition(hash, self@),
    {
        match self {
            Definition::Export { function } => mix_in_bytes(
                mix_in(hash, 0),
                function.name().as_slice(),
            ),
            Definition::Anonymous { index, unique, old_unique } => mix_in(
                mix_in_bytes(
                    mix_in(mix_in(hash, 1), *index as u64),
                    vstd::array::array_as_slice(unique),
                ),
                *old_unique as u64,
            ),
        }
    }
}

/// The hash `hash` with `terms` mixed in.
fn mix_in_terms(hash: u64, terms: &Vec<Term>) -> (mixed: u64)
    requires
        terms_wf(terms@),
    ensures
        mixed == mix_terms(hash, terms_view(terms@)),
    decreases terms,
{
    proof {
        lemma_terms_view(terms@);
    }
    let mut mixed = hash;
    let mut i: usize = 0;
    while i < terms.len()
        invariant
            i <= terms.len(),
            terms_wf(terms@),
            terms_view(terms@).len() == terms@.len(),
            mixed == mix_terms_to(hash, terms_view(terms@), i as int),
        decreases terms.len() - i,
    {
        proof {
            lemma_terms_view(terms@);
        }
        mixed = mix_in(mixed, terms[i].hash());
        i += 1;
    }
    mix_in(mixed, terms.len() as u64)
}

impl Closure {
    /// The hash of the closure.
    pub fn hash(&self) -> (hash: u64)
        requires
            self.wf(),
        ensures
            hash == closure_hash(self@),
        decreases self,
    {
        let hash = mix_in_bytes(HASH_SEED, self.module.name().as_slice());
        let hash = mix_in(hash, self.arity as u64);
        let hash = self.definition.mix_into(hash);
        let hash = mix_in(
            hash,
            match self.native {
                Some(address) => address as u64,
                None => 0,
            },
        );
        mix_in_terms(hash, &self.env)
    }

    /// Whether both are the same closure: the same module, arity,
    /// definition, native address and environment.
    pub fn exact_eq(&self, other: &Closure) -> (equal: bool)
        requires
            self.wf(),
            other.wf(),
        ensures
            equal == (self@ == other@),
        decreases self,
    {
        let equal = self.module.same(&other.module) && self.arity == other.arity
            && self.definition.same(&other.definition) && self.native == other.native
            && same_views(&self.env, &other.env);
        proof {
            if self.native != other.native {
                assert(self@.native != other@.native);
            }
        }
        equal
    }
}

/// Whether the terms of two sequences are the same, each at its place.
fn same_views(a: &Vec<Term>, b: &Vec<Term>) -> (equal: bool)
    requires
        terms_wf(a@),
        terms_wf(b@),
    ensures
        equal == (terms_view(a@) == terms_view(b@)),
    decreases a,
{
    proof {
        lemma_terms_view(a@);
        lemma_terms_view(b@);
    }
    if a.len() != b.len() {
        return false;
    }
    let mut i: usize = 0;
    while i < a.len()
        invariant
            i <= a.len(),
            a.len() == b.len(),
            terms_wf(a@),
            terms_wf(b@),
            terms_view(a@).len() == a@.len(),
            terms_view(b@).len() == b@.len(),
            forall|j: int| 0 <= j < i ==> terms_view(a@)[j] == terms_view(b@)[j],
        decreases a.len() - i,
    {
        proof {
            lemma_terms_view(a@);
            lemma_terms_view(b@);
        }
        if !a[i].exact_eq(&b[i]) {
            assert(terms_view(a@)[i as int] != terms_view(b@)[i as int]);
            return false;
        }
        i += 1;
    }
    assert(terms_view(a@) =~= terms_view(b@));
    true
}

impl Term {
    /// The hash of the term.
    pub fn hash(&self) -> (hash: u64)
        requires
            self.wf(),
        ensures
            hash == term_hash(self@),
        decreases self,
    {
        proof {
            reveal_with_fuel(term_wf, 2);
        }
        match self {
            Term::SmallInteger(i) => mix_in_integer(mix_in(HASH_SEED, 0), &Integer::Small(*i)),
            Term::BigInteger(i) => mix_in_integer(mix_in(HASH_SEED, 0), &Integer::Big(*i)),
            Term::Float(f) => match f.to_integer() {
                Some(i) => mix_in_integer(mix_in(HASH_SEED, 0), &i),
                None => mix_in(mix_in(HASH_SEED, 1), f.to_bits()),
            },
            Term::Atom(a) => mix_in_bytes(mix_in(HASH_SEED, 2), a.name().as_slice()),
            Term::Reference(r) => mix_in(
                mix_in(mix_in(mix_in(HASH_SEED, 3), r.node as u64), r.creation as u64),
                r.number,
            ),
            Term::Closure(c) => mix_in(mix_in(HASH_SEED, 4), c.hash()),
            Term::Port(p) => mix_in(mix_in(HASH_SEED, 5), p.number as u64),
            Term::Pid(p) => mix_in(
                mix_in(mix_in(HASH_SEED, 6), p.number as u64),
                p.serial as u64,
            ),
            Term::ExternalPid(p) => mix_in(
                mix_in(mix_in(mix_in(HASH_SEED, 7), p.node as u64), p.number as u64),
                p.serial as u64,
            ),
            Term::Tuple(elements) => mix_in_terms(mix_in(HASH_SEED, 8), elements),
            Term::Mapping(keys, values) => mix_in_terms(
                mix_in_terms(mix_in(HASH_SEED, 9), keys),
                values,
            ),
            Term::Nil => mix_in(HASH_SEED, 10),
            Term::Cons(head, tail) => mix_in(
                mix_in(mix_in(HASH_SEED, 11), head.hash()),
                tail.hash(),
            ),
            _ => bitstring_hash(self),
        }
    }

    /// Whether both are the same term: of the same kind, and holding the
    /// same. An integer and a float are never the same term.
    pub fn exact_eq(&self, other: &Term) -> (equal: bool)
        requires
            self.wf(),
            other.wf(),
        ensures
            equal == (self@ == other@),
        decreases self,
    {
        proof {
            reveal_with_fuel(term_wf, 2);
        }
        match (self, other) {
            (Term::Float(x), Term::Float(y)) => x.to_bits() == y.to_bits(),
            (Term::Atom(x), Term::Atom(y)) => x.same(y),
            (Term::Reference(x), Term::Reference(y)) => x.node == y.node && x.creation
                == y.creation && x.number == y.number,
            (Term::Closure(x), Term::Closure(y)) => x.exact_eq(y),
            (Term::Port(x), Term::Port(y)) => x.number == y.number,
            (Term::Pid(x), Term::Pid(y)) => x.number == y.number && x.serial == y.serial,
            (Term::ExternalPid(x), Term::ExternalPid(y)) => x.node == y.node && x.number
                == y.number && x.serial == y.serial,
            (Term::Tuple(x), Term::Tuple(y)) => same_views(x, y),
            (Term::Mapping(k, v), Term::Mapping(l, w)) => same_views(k, l) && same_views(v, w),
            (Term::Nil, Term::Nil) => true,
            (Term::Cons(h, t), Term::Cons(i, u)) => h.exact_eq(i) && t.exact_eq(u),
            _ => {
                if self.is_integer() && other.is_integer() {
                    match (self.to_integer(), other.to_integer()) {
                        (Ok(x), Ok(y)) => match x.compare(&y) {
                            crate::order::Order::Equal => true,
                            _ => false,
                        },
                        _ => false,
                    }
                } else if self.is_bitstring() && other.is_bitstring() {
                    bitstrings_equal(self, other)
                } else {
                    false
                }
            },
        }
    }
}

} // verus!
