//! Whether a term that came from elsewhere is well formed.

use vstd::prelude::*;
use crate::closure_layout::{native_word, native_word_size, ClosureLayout};
use crate::heap::lemma_word_is_pow2;
use crate::term::{lemma_object_words, term_wf, terms_wf, Closure, Kind, SubBinary, Term,
    PID_NUMBER_MAX, PID_SERIAL_MAX};

verus! {

/// Whether `words` words make up no more than `isize::MAX` bytes.
fn words_fit(words: u128) -> (fit: bool)
    ensures
        fit == (words * native_word() <= isize::MAX),
{
    let word = native_word_size() as u128;
    proof {
        lemma_word_is_pow2();
        if words > isize::MAX {
            assert(words * word > isize::MAX) by (nonlinear_arith)
                requires
                    words > isize::MAX,
                    word >= 1,
            ;
        }
    }
    if words > isize::MAX as u128 {
        return false;
    }
    assert(words * word < 0x8_0000_0000_0000_0000) by (nonlinear_arith)
        requires
            words <= 0x7fff_ffff_ffff_ffff,
            word <= 8,
    ;
    words * word <= isize::MAX as u128
}

/// Whether every term of `terms` is well formed.
fn terms_valid(terms: &Vec<Term>) -> (valid: bool)
    ensures
        valid == terms_wf(terms@),
    decreases terms,
{
    let mut i: usize = 0;
    while i < terms.len()
        invariant
            i <= terms.len(),
            forall|j: int| 0 <= j < i ==> term_wf(#[trigger] &terms@[j]),
        decreases terms.len() - i,
    {
        if !terms[i].is_valid() {
            return false;
        }
        i += 1;
    }
    true
}

impl SubBinary {
    /// Whether the part lies within the original.
    pub fn is_valid(&self) -> (valid: bool)
        ensures
            valid == self.wf(),
    {
        let first = 8 * (self.byte_offset as u128) + self.bit_offset as u128;
        let len = 8 * (self.full_byte_len as u128) + self.partial_bit_len as u128;
        self.bit_offset < 8 && self.partial_bit_len < 8 && first + len <= 8
            * (self.original.len() as u128)
    }
}

impl Closure {
    /// Whether the closure is well formed: whether its header tells the
    /// size of its layout, its arity fits a byte, its native address is not
    /// null, and its environment is well formed.
    pub fn is_valid(&self) -> (valid: bool)
        ensures
            valid == self.wf(),
        decreases self,
    {
        proof {
            lemma_object_words(&Term::Nil);
        }
        let base = Closure::base_size_words();
        let header_fits = match self.header.kind {
            Kind::Closure => self.header.arity_words >= base - 1 && self.header.arity_words - (
            base - 1) == self.env.len(),
            _ => false,
        };
        let native_is_set = match self.native {
            Some(address) => address != 0,
            None => true,
        };
        header_fits && self.arity <= 255 && native_is_set && ClosureLayout::for_target(
            native_word_size(),
            self.env.len(),
        ).is_ok() && terms_valid(&self.env)
    }
}

impl Term {
    /// Whether the term is well formed.
    pub fn is_valid(&self) -> (valid: bool)
        ensures
            valid == self.wf(),
        decreases self,
    {
        proof {
            lemma_word_is_pow2();
        }
        match self {
            Term::SmallInteger(i) => i.is_valid(),
            Term::BigInteger(i) => i.is_valid(),
            Term::Float(f) => f.is_valid(),
            Term::Closure(c) => c.is_valid(),
            Term::Pid(p) => p.number <= PID_NUMBER_MAX && p.serial <= PID_SERIAL_MAX,
            Term::ExternalPid(p) => p.number <= PID_NUMBER_MAX && p.serial <= PID_SERIAL_MAX,
            Term::Tuple(elements) => words_fit(1 + elements.len() as u128) && terms_valid(
                elements,
            ),
            Term::Mapping(keys, values) => keys.len() == values.len() && words_fit(
                2 + 2 * (keys.len() as u128),
            ) && terms_valid(keys) && terms_valid(values),
            Term::Cons(head, tail) => head.is_valid() && tail.is_valid(),
            Term::HeapBinary(bytes) => {
                let word = native_word_size() as u128;
                words_fit(2 + (bytes.len() as u128 + (word - 1)) / word)
            },
            Term::SubBinary(sub) => sub.is_valid(),
            _ => true,
        }
    }
}

} // verus!
