//! Copies of terms: on no heap, and deep onto a heap.

use vstd::prelude::*;
use crate::closure_layout::{native_word_size, ClosureLayout};
use crate::heap::{alloc_object, lemma_word_is_pow2, AllocError, Heap};
use crate::object::{closure_size_in_words, words_layout};
use crate::term::{lemma_size_nonnegative, lemma_sum_size_nonnegative, lemma_terms_view,
    object_words, size_in_words, sum_size_in_words, term_wf, terms_view, terms_wf, Closure,
    Definition, SubBinary, Term};

verus! {

/// Whether `copy` is `term` over again: the same view, in the same form.
pub open spec fn same_term(copy: &Term, term: &Term) -> bool {
    &&& copy@ == term@
    &&& copy.wf()
    &&& object_words(copy) == object_words(term)
    &&& size_in_words(copy) == size_in_words(term)
}

/// Whether `copies` holds the terms of `terms` over again.
pub open spec fn same_terms(copies: Seq<Term>, terms: Seq<Term>) -> bool {
    &&& copies.len() == terms.len()
    &&& forall|i: int| 0 <= i < terms.len() ==> same_term(#[trigger] &copies[i], &terms[i])
}

/// Copies of the same terms have the same views, are well formed and take
/// the same room.
pub proof fn lemma_same_terms(copies: Seq<Term>, terms: Seq<Term>, n: int)
    requires
        same_terms(copies, terms),
        0 <= n <= terms.len(),
    ensures
        terms_view(copies) == terms_view(terms),
        terms_wf(copies),
        sum_size_in_words(copies, n) == sum_size_in_words(terms, n),
    decreases n,
{
    lemma_terms_view(copies);
    lemma_terms_view(terms);
    assert(terms_view(copies) =~= terms_view(terms)) by {
        assert forall|i: int| 0 <= i < terms.len() implies terms_view(copies)[i] == terms_view(
            terms,
        )[i] by {
            assert(same_term(&copies[i], &terms[i]));
        }
    }
    assert forall|i: int| 0 <= i < copies.len() implies term_wf(#[trigger] &copies[i]) by {
        assert(same_term(&copies[i], &terms[i]));
    }
    if n > 0 {
        lemma_same_terms(copies, terms, n - 1);
        assert(same_term(&copies[n - 1], &terms[n - 1]));
    }
}

impl SubBinary {
    /// The same part of the same original.
    pub fn duplicate(&self) -> (copy: SubBinary)
        ensures
            copy@ == self@,
            copy.wf() == self.wf(),
            copy.original@ == self.original@,
            copy.byte_offset == self.byte_offset,
            copy.bit_offset == self.bit_offset,
            copy.full_byte_len == self.full_byte_len,
            copy.partial_bit_len == self.partial_bit_len,
    {
        SubBinary {
            original: copy_bytes(&self.original),
            byte_offset: self.byte_offset,
            bit_offset: self.bit_offset,
            full_byte_len: self.full_byte_len,
            partial_bit_len: self.partial_bit_len,
        }
    }
}

/// The same bytes over again.
pub fn copy_bytes(bytes: &Vec<u8>) -> (copy: Vec<u8>)
    ensures
        copy@ == bytes@,
{
    let mut copy: Vec<u8> = Vec::new();
    let mut i: usize = 0;
    while i < bytes.len()
        invariant
            i <= bytes.len(),
            copy@ == bytes@.subrange(0, i as int),
        decreases bytes.len() - i,
    {
        copy.push(bytes[i]);
        assert(copy@ == bytes@.subrange(0, i + 1));
        i += 1;
    }
    assert(copy@ == bytes@);
    copy
}

impl Definition {
    /// The same definition over again.
    pub fn duplicate(&self) -> (copy: Definition)
        ensures
            copy@ == self@,
    {
        match self {
            Definition::Export { function } => Definition::Export {
                function: function.duplicate(),
            },
            Definition::Anonymous { index, unique, old_unique } => Definition::Anonymous {
                index: *index,
                unique: *unique,
                old_unique: *old_unique,
            },
        }
    }
}

/// The terms of `terms` over again.
fn duplicate_terms(terms: &Vec<Term>) -> (copies: Vec<Term>)
    requires
        terms_wf(terms@),
    ensures
        same_terms(copies@, terms@),
    decreases terms,
{
    let mut copies: Vec<Term> = Vec::new();
    let mut i: usize = 0;
    while i < terms.len()
        invariant
            i <= terms.len(),
            copies@.len() == i,
            terms_wf(terms@),
            forall|j: int| 0 <= j < i ==> same_term(#[trigger] &copies@[j], &terms@[j]),
        decreases terms.len() - i,
    {
        let copy = terms[i].duplicate();
        copies.push(copy);
        i += 1;
    }
    copies
}

/// Copies each of `terms` onto `heap`, one after another.
pub fn clone_terms(terms: &[Term], heap: &mut Heap) -> (copies: Result<Vec<Term>, AllocError>)
    requires
        terms_wf(terms@),
        old(heap).wf(),
    ensures
        final(heap).wf(),
        final(heap).capacity() == old(heap).capacity(),
        old(heap).used() <= final(heap).used(),
        copies is Ok <==> old(heap).used() + sum_size_in_words(terms@, terms@.len() as int) <= old(
            heap,
        ).capacity(),
        copies matches Ok(c) ==> same_terms(c@, terms@) && final(heap).used() == old(heap).used()
            + sum_size_in_words(terms@, terms@.len() as int),
    decreases terms@,
{
    let ghost start = heap.used();
    let mut copies: Vec<Term> = Vec::new();
    let mut i: usize = 0;
    while i < terms.len()
        invariant
            i <= terms.len(),
            copies@.len() == i,
            terms_wf(terms@),
            heap.wf(),
            heap.capacity() == old(heap).capacity(),
            heap.used() == start + sum_size_in_words(terms@, i as int),
            start == old(heap).used(),
            forall|j: int| 0 <= j < i ==> same_term(#[trigger] &copies@[j], &terms@[j]),
        decreases terms.len() - i,
    {
        proof {
            lemma_sum_size_nonnegative(terms@, terms@.len() as int);
            lemma_sum_size_nonnegative(terms@, i as int);
            lemma_size_nonnegative(&terms@[i as int]);
        }
        match terms[i].clone_to_heap(heap) {
            Ok(copy) => {
                copies.push(copy);
            },
            Err(e) => {
                proof {
                    assert(sum_size_in_words(terms@, i + 1) <= sum_size_in_words(
                        terms@,
                        terms@.len() as int,
                    ));
                }
                return Err(e);
            },
        }
        i += 1;
    }
    proof {
        heap.lemma_wf();
        lemma_sum_size_nonnegative(terms@, terms@.len() as int);
    }
    Ok(copies)
}

impl Closure {
    /// The closure with `env` for its environment, which holds the terms of
    /// the environment over again.
    fn with_env(&self, env: Vec<Term>) -> (copy: Closure)
        requires
            self.wf(),
            same_terms(env@, self.env@),
        ensures
            copy@ == self@,
            copy.wf(),
            copy.header == self.header,
            copy.env == env,
    {
        proof {
            lemma_same_terms(env@, self.env@, 0);
        }
        Closure {
            header: self.header,
            module: self.module.duplicate(),
            arity: self.arity,
            definition: self.definition.duplicate(),
            native: self.native,
            env,
        }
    }

    /// The same closure over again, on no heap.
    pub fn duplicate(&self) -> (copy: Closure)
        requires
            self.wf(),
        ensures
            copy@ == self@,
            copy.wf(),
            copy.header == self.header,
            same_terms(copy.env@, self.env@),
        decreases self,
    {
        let env = duplicate_terms(&self.env);
        self.with_env(env)
    }

    /// Copies the closure onto `heap`: its own object first, then the terms
    /// of its environment. The copy equals the closure and has its header;
    /// the heap holds it exactly when it has as many words left as the
    /// closure takes.
    pub fn clone_to(&self, heap: &mut Heap) -> (copy: Result<Box<Closure>, AllocError>)
        requires
            self.wf(),
            old(heap).wf(),
        ensures
            final(heap).wf(),
            final(heap).capacity() == old(heap).capacity(),
            old(heap).used() <= final(heap).used(),
            copy is Ok <==> old(heap).used() + closure_size_in_words(self) <= old(
                heap,
            ).capacity(),
            copy matches Ok(c) ==> {
                &&& c@ == self@
                &&& c.wf()
                &&& c.header == self.header
                &&& same_terms(c.env@, self.env@)
                &&& final(heap).used() == old(heap).used() + closure_size_in_words(self)
            },
        decreases self,
    {
        let word = native_word_size();
        proof {
            heap.lemma_wf();
            lemma_word_is_pow2();
            crate::closure_layout::lemma_closure_size_linear(
                word as int,
                self.env@.len() as int,
            );
            crate::closure_layout::lemma_closure_fields_32bit(self.env@.len() as int);
            crate::closure_layout::lemma_closure_fields_64bit(self.env@.len() as int);
            lemma_sum_size_nonnegative(self.env@, self.env@.len() as int);
        }
        let closure_layout = ClosureLayout::for_env_len(self.env.len());
        let layout = *closure_layout.layout();
        match alloc_object(heap, layout) {
            Err(e) => {
                return Err(e);
            },
            Ok(_) => {},
        }
        proof {
            heap.lemma_wf();
        }
        match clone_terms(self.env.as_slice(), heap) {
            Ok(env) => Ok(Box::new(self.with_env(env))),
            Err(e) => Err(e),
        }
    }
}

impl Closure {
    /// Copies the closure onto `heap` and returns the term of the copy.
    pub fn clone_to_heap(&self, heap: &mut Heap) -> (copy: Result<Term, AllocError>)
        requires
            self.wf(),
            old(heap).wf(),
        ensures
            final(heap).wf(),
            final(heap).capacity() == old(heap).capacity(),
            old(heap).used() <= final(heap).used(),
            copy is Ok <==> old(heap).used() + closure_size_in_words(self) <= old(
                heap,
            ).capacity(),
            copy matches Ok(t) ==> {
                &&& t@ == crate::term::TermView::Closure(self@)
                &&& t.wf()
                &&& size_in_words(&t) == closure_size_in_words(self)
                &&& final(heap).used() == old(heap).used() + closure_size_in_words(self)
            },
    {
        match self.clone_to(heap) {
            Ok(copy) => {
                proof {
                    lemma_same_terms(copy.env@, self.env@, self.env@.len() as int);
                }
                Ok(Term::Closure(copy))
            },
            Err(e) => Err(e),
        }
    }
}

impl Term {
    /// The same term over again, on no heap.
    pub fn duplicate(&self) -> (copy: Term)
        requires
            self.wf(),
        ensures
            same_term(&copy, self),
        decreases self,
    {
        proof {
            reveal_with_fuel(term_wf, 2);
        }
        match self {
            Term::SmallInteger(i) => Term::SmallInteger(*i),
            Term::BigInteger(i) => Term::BigInteger(*i),
            Term::Float(f) => Term::Float(*f),
            Term::Atom(a) => Term::Atom(a.duplicate()),
            Term::Reference(r) => Term::Reference(*r),
            Term::Closure(c) => {
                let copy = c.duplicate();
                proof {
                    lemma_same_terms(copy.env@, c.env@, c.env@.len() as int);
                }
                Term::Closure(Box::new(copy))
            },
            Term::Port(p) => Term::Port(*p),
            Term::Pid(p) => Term::Pid(*p),
            Term::ExternalPid(p) => Term::ExternalPid(*p),
            Term::Tuple(elements) => {
                let copies = duplicate_terms(elements);
                proof {
                    lemma_same_terms(copies@, elements@, elements@.len() as int);
                }
                Term::Tuple(copies)
            },
            Term::Mapping(keys, values) => {
                let key_copies = duplicate_terms(keys);
                let value_copies = duplicate_terms(values);
                proof {
                    lemma_same_terms(key_copies@, keys@, keys@.len() as int);
                    lemma_same_terms(value_copies@, values@, values@.len() as int);
                }
                Term::Mapping(key_copies, value_copies)
            },
            Term::Nil => Term::Nil,
            Term::Cons(head, tail) => Term::Cons(
                Box::new(head.duplicate()),
                Box::new(tail.duplicate()),
            ),
            Term::HeapBinary(bytes) => Term::HeapBinary(copy_bytes(bytes)),
            Term::SubBinary(sub) => Term::SubBinary(sub.duplicate()),
        }
    }

    /// Copies the term onto `heap`: the object of the term first, then the
    /// objects of its parts, each where the heap ends. The copy has the view
    /// of the term and takes `size_in_words` words; the heap holds it exactly
    /// when it has that many words left. Where it does not, the copy fails,
    /// and what was taken before stays taken.
    pub fn clone_to_heap(&self, heap: &mut Heap) -> (copy: Result<Term, AllocError>)
        requires
            self.wf(),
            old(heap).wf(),
        ensures
            final(heap).wf(),
            final(heap).capacity() == old(heap).capacity(),
            old(heap).used() <= final(heap).used(),
            copy is Ok <==> old(heap).used() + size_in_words(self) <= old(heap).capacity(),
            copy matches Ok(c) ==> same_term(&c, self) && final(heap).used() == old(heap).used()
                + size_in_words(self),
        decreases self,
    {
        proof {
            lemma_size_nonnegative(self);
            heap.lemma_wf();
            reveal_with_fuel(term_wf, 2);
        }
        if self.is_immediate() {
            return Ok(self.duplicate());
        }
        if let Term::Closure(c) = self {
            return match c.clone_to(heap) {
                Ok(copy) => {
                    proof {
                        lemma_same_terms(copy.env@, c.env@, c.env@.len() as int);
                    }
                    let copy = Term::Closure(copy);
                    assert(same_term(&copy, self));
                    Ok(copy)
                },
                Err(e) => Err(e),
            };
        }
        let layout = words_layout(self.object_size_in_words());
        match alloc_object(heap, layout) {
            Err(e) => {
                return Err(e);
            },
            Ok(_) => {},
        }
        proof {
            heap.lemma_wf();
        }
        match self {
            Term::Tuple(elements) => {
                proof {
                    lemma_sum_size_nonnegative(elements@, elements@.len() as int);
                }
                match clone_terms(elements.as_slice(), heap) {
                    Ok(copies) => {
                        proof {
                            lemma_same_terms(copies@, elements@, elements@.len() as int);
                        }
                        let copy = Term::Tuple(copies);
                        assert(same_term(&copy, self));
                        Ok(copy)
                    },
                    Err(e) => Err(e),
                }
            },
            Term::Mapping(keys, values) => {
                proof {
                    lemma_sum_size_nonnegative(keys@, keys@.len() as int);
                    lemma_sum_size_nonnegative(values@, values@.len() as int);
                }
                let key_copies = match clone_terms(keys.as_slice(), heap) {
                    Ok(copies) => copies,
                    Err(e) => {
                        return Err(e);
                    },
                };
                match clone_terms(values.as_slice(), heap) {
                    Ok(value_copies) => {
                        proof {
                            lemma_same_terms(key_copies@, keys@, keys@.len() as int);
                            lemma_same_terms(value_copies@, values@, values@.len() as int);
                        }
                        let copy = Term::Mapping(key_copies, value_copies);
                        assert(same_term(&copy, self));
                        Ok(copy)
                    },
                    Err(e) => Err(e),
                }
            },
            Term::Cons(head, tail) => {
                proof {
                    lemma_size_nonnegative(head);
                    lemma_size_nonnegative(tail);
                }
                let head_copy = match head.clone_to_heap(heap) {
                    Ok(copy) => copy,
                    Err(e) => {
                        return Err(e);
                    },
                };
                match tail.clone_to_heap(heap) {
                    Ok(tail_copy) => {
                        let copy = Term::Cons(Box::new(head_copy), Box::new(tail_copy));
                        assert(same_term(&copy, self));
                        Ok(copy)
                    },
                    Err(e) => Err(e),
                }
            },
            _ => {
                assert(size_in_words(self) == object_words(self));
                Ok(self.duplicate())
            },
        }
    }
}

} // verus!
