//! The object of a term on a heap: its layout, its header and its size.

use vstd::prelude::*;
use crate::closure_layout::{closure_size_spec, native_word, native_word_size, ClosureLayout};
use crate::heap::lemma_word_is_pow2;
use crate::layout::Layout;
use crate::term::{lemma_object_words, lemma_size_nonnegative, lemma_sum_size_nonnegative,
    object_words, size_in_words, sum_size_in_words, term_wf, terms_wf, Closure, Header, Kind,
    Term};

verus! {

/// The kind of the object of a term that has one.
pub open spec fn kind_of(term: &Term) -> Kind {
    match term {
        Term::BigInteger(_) => Kind::BigInteger,
        Term::Float(_) => Kind::Float,
        Term::Reference(_) => Kind::Reference,
        Term::Closure(_) => Kind::Closure,
        Term::ExternalPid(_) => Kind::ExternalPid,
        Term::Tuple(_) => Kind::Tuple,
        Term::Mapping(_, _) => Kind::Mapping,
        Term::Cons(_, _) => Kind::Cons,
        Term::HeapBinary(_) => Kind::HeapBinary,
        _ => Kind::SubBinary,
    }
}

/// The header of the object of a term that has one: its kind, and the
/// number of words that follow the header.
pub open spec fn header_spec(term: &Term) -> Option<Header> {
    match term {
        Term::Closure(c) => Some(c.header),
        _ => if crate::term::is_immediate_spec(term) {
            None
        } else {
            Some(Header { kind: kind_of(term), arity_words: (object_words(term) - 1) as usize })
        },
    }
}

/// Of every object on a heap, the arity that the header tells and the
/// header itself make up the size of the object, in words and in bytes.
pub proof fn lemma_header_tells_size(term: &Term)
    requires
        term.wf(),
        !crate::term::is_immediate_spec(term),
    ensures
        header_spec(term) matches Some(h) && h.kind == kind_of(term) && h.arity_words + 1
            == object_words(term) && h.arity_words * native_word() + native_word()
            == object_words(term) * native_word(),
{
    reveal_with_fuel(term_wf, 2);
    lemma_object_words(term);
    lemma_word_is_pow2();
    let w = native_word();
    let words = object_words(term);
    assert(words * w <= isize::MAX) by {
        match term {
            Term::Closure(c) => {
                crate::closure_layout::lemma_closure_size_linear(w, c.env@.len() as int);
                vstd::arithmetic::div_mod::lemma_fundamental_div_mod(
                    closure_size_spec(w, c.env@.len() as int),
                    w,
                );
                assert(words * w == w * words) by (nonlinear_arith);
            },
            _ => {},
        }
    }
    assert((words - 1) * w + w == words * w) by (nonlinear_arith);
}

/// The number of words of the object of a closure whose environment holds
/// `env_len` terms.
pub open spec fn closure_words(env_len: int) -> int {
    closure_size_spec(native_word(), env_len) / native_word()
}

/// The number of words that a closure takes on a heap: its own object and
/// the objects of the terms of its environment.
pub open spec fn closure_size_in_words(closure: &Closure) -> int {
    closure_words(closure.env@.len() as int) + sum_size_in_words(
        closure.env@,
        closure.env@.len() as int,
    )
}

/// The layout of `words` words.
pub fn words_layout(words: usize) -> (layout: Layout)
    requires
        words * native_word() <= isize::MAX,
    ensures
        layout.size() == words * native_word(),
        layout.align() == native_word(),
        layout.size() as int % native_word() == 0,
        layout.size() as int / native_word() == words,
{
    let word = native_word_size();
    proof {
        lemma_word_is_pow2();
        vstd::arithmetic::div_mod::lemma_mod_multiples_basic(words as int, word as int);
        vstd::arithmetic::div_mod::lemma_div_multiples_vanish(words as int, word as int);
        assert(words * word == word * words) by (nonlinear_arith);
    }
    match Layout::array(word, word, words) {
        Ok(layout) => layout,
        Err(_) => vstd::pervasive::unreached(),
    }
}

impl Closure {
    /// The number of words that the closure takes on a heap: its own object
    /// and the objects of the terms of its environment.
    pub fn size_in_words(&self) -> (words: usize)
        requires
            self.wf(),
            closure_size_in_words(self) <= usize::MAX,
        ensures
            words == closure_size_in_words(self),
    {
        let word = native_word_size();
        proof {
            lemma_word_is_pow2();
            crate::closure_layout::lemma_closure_fields_32bit(self.env@.len() as int);
            crate::closure_layout::lemma_closure_fields_64bit(self.env@.len() as int);
            lemma_sum_size_nonnegative(self.env@, self.env@.len() as int);
        }
        let layout = ClosureLayout::for_env(self.env.as_slice());
        let own = crate::utils::divide_round_up(layout.layout().size(), word);
        proof {
            let n = self.env@.len() as int;
            if word == 4 {
                assert((11 + n) * 4 + 0 == 44 + 4 * n) by (nonlinear_arith);
                assert((11 + n) * 4 + 3 == 44 + 4 * n + 4 - 1) by (nonlinear_arith);
                vstd::arithmetic::div_mod::lemma_fundamental_div_mod_converse(
                    44 + 4 * n,
                    4,
                    11 + n,
                    0,
                );
                vstd::arithmetic::div_mod::lemma_fundamental_div_mod_converse(
                    44 + 4 * n + 4 - 1,
                    4,
                    11 + n,
                    3,
                );
            } else {
                assert((9 + n) * 8 + 0 == 72 + 8 * n) by (nonlinear_arith);
                assert((9 + n) * 8 + 7 == 72 + 8 * n + 8 - 1) by (nonlinear_arith);
                vstd::arithmetic::div_mod::lemma_fundamental_div_mod_converse(
                    72 + 8 * n,
                    8,
                    9 + n,
                    0,
                );
                vstd::arithmetic::div_mod::lemma_fundamental_div_mod_converse(
                    72 + 8 * n + 8 - 1,
                    8,
                    9 + n,
                    7,
                );
            }
        }
        own + sum_terms_size(&self.env, Ghost(usize::MAX - own))
    }
}

impl Term {
    /// Whether the term fits in a word, with no object on a heap.
    pub fn is_immediate(&self) -> (immediate: bool)
        ensures
            immediate == crate::term::is_immediate_spec(self),
            immediate == (self is SmallInteger || self is Atom || self is Port || self is Pid
                || self is Nil),
            immediate ==> size_in_words(self) == 0,
    {
        proof {
            lemma_object_words(self);
            lemma_word_is_pow2();
        }
        match self {
            Term::SmallInteger(_) => true,
            Term::Atom(_) => true,
            Term::Port(_) => true,
            Term::Pid(_) => true,
            Term::Nil => true,
            _ => false,
        }
    }

    /// Whether the term is an object on a heap.
    pub fn is_boxed(&self) -> (boxed: bool)
        ensures
            boxed == !crate::term::is_immediate_spec(self),
    {
        !self.is_immediate()
    }

    /// The number of words of the object of the term, without its parts.
    pub fn object_size_in_words(&self) -> (words: usize)
        requires
            self.wf(),
        ensures
            words == object_words(self),
            words * native_word() <= isize::MAX,
    {
        let word = native_word_size();
        proof {
            lemma_object_words(self);
            lemma_word_is_pow2();
            reveal_with_fuel(term_wf, 2);
        }
        match self {
            Term::BigInteger(_) => 2 + 16 / word,
            Term::Float(_) => 1 + 8 / word,
            Term::Reference(_) => 1 + 16 / word,
            Term::Closure(c) => {
                proof {
                    crate::closure_layout::lemma_closure_size_linear(
                        word as int,
                        c.env@.len() as int,
                    );
                    vstd::arithmetic::div_mod::lemma_fundamental_div_mod(
                        closure_size_spec(word as int, c.env@.len() as int),
                        word as int,
                    );
                }
                let layout = ClosureLayout::for_env_len(c.env.len());
                layout.layout().size() / word
            },
            Term::ExternalPid(_) => 3,
            Term::Tuple(elements) => 1 + elements.len(),
            Term::Mapping(keys, _) => 2 + 2 * keys.len(),
            Term::Cons(_, _) => 3,
            Term::HeapBinary(bytes) => 2 + (bytes.len() + (word - 1)) / word,
            Term::SubBinary(_) => 6,
            _ => 0,
        }
    }

    /// The layout of the object of the term, if it has one. It takes whole
    /// words and is aligned to a word.
    pub fn layout(&self) -> (layout: Option<Layout>)
        requires
            self.wf(),
        ensures
            layout is Some <==> !crate::term::is_immediate_spec(self),
            layout matches Some(l) ==> {
                &&& l.size() == object_words(self) * native_word()
                &&& l.align() == native_word()
            },
    {
        if self.is_immediate() {
            None
        } else {
            Some(words_layout(self.object_size_in_words()))
        }
    }

    /// The header of the object of the term, if it has one. The arity that
    /// it tells, and the header itself, make up the size of the object.
    pub fn header(&self) -> (header: Option<Header>)
        requires
            self.wf(),
        ensures
            header == header_spec(self),
            header is Some <==> !crate::term::is_immediate_spec(self),
            header matches Some(h) ==> {
                &&& h.kind == kind_of(self)
                &&& h.arity_words * native_word() + native_word() == object_words(self)
                    * native_word()
            },
    {
        proof {
            lemma_object_words(self);
            lemma_word_is_pow2();
            reveal_with_fuel(term_wf, 2);
        }
        let kind = match self {
            Term::BigInteger(_) => Kind::BigInteger,
            Term::Float(_) => Kind::Float,
            Term::Reference(_) => Kind::Reference,
            Term::Closure(c) => {
                proof {
                    let w = native_word();
                    let arity = c.header.arity_words;
                    assert(arity * w + w == (arity + 1) * w) by (nonlinear_arith);
                }
                return Some(c.header);
            },
            Term::ExternalPid(_) => Kind::ExternalPid,
            Term::Tuple(_) => Kind::Tuple,
            Term::Mapping(_, _) => Kind::Mapping,
            Term::Cons(_, _) => Kind::Cons,
            Term::HeapBinary(_) => Kind::HeapBinary,
            Term::SubBinary(_) => Kind::SubBinary,
            _ => {
                return None;
            },
        };
        let words = self.object_size_in_words();
        let arity_words = words - 1;
        proof {
            let w = native_word();
            assert(arity_words * w + w == words * w) by (nonlinear_arith)
                requires
                    arity_words + 1 == words,
            ;
        }
        Some(Header { kind, arity_words })
    }

    /// The number of words that the term takes on a heap: its own object and
    /// the objects of its parts.
    pub fn size_in_words(&self) -> (words: usize)
        requires
            self.wf(),
            size_in_words(self) <= usize::MAX,
        ensures
            words == size_in_words(self),
        decreases self,
    {
        let own = self.object_size_in_words();
        proof {
            lemma_size_nonnegative(self);
            reveal_with_fuel(term_wf, 2);
        }
        match self {
            Term::Closure(c) => own + sum_terms_size(&c.env, Ghost(usize::MAX - own)),
            Term::Tuple(elements) => own + sum_terms_size(elements, Ghost(usize::MAX - own)),
            Term::Mapping(keys, values) => {
                proof {
                    lemma_sum_size_nonnegative(keys@, keys@.len() as int);
                    lemma_sum_size_nonnegative(values@, values@.len() as int);
                }
                let of_keys = sum_terms_size(keys, Ghost(usize::MAX - own));
                own + of_keys + sum_terms_size(values, Ghost(usize::MAX - own - of_keys))
            },
            Term::Cons(head, tail) => {
                proof {
                    lemma_size_nonnegative(head);
                    lemma_size_nonnegative(tail);
                }
                own + head.size_in_words() + tail.size_in_words()
            },
            _ => own,
        }
    }

    /// The number of words that the term takes on a heap, if that number
    /// fits in a `usize`.
    pub fn checked_size_in_words(&self) -> (words: Option<usize>)
        requires
            self.wf(),
        ensures
            words is Some <==> size_in_words(self) <= usize::MAX,
            words matches Some(w) ==> w == size_in_words(self),
        decreases self,
    {
        let own = self.object_size_in_words();
        proof {
            lemma_size_nonnegative(self);
            reveal_with_fuel(term_wf, 2);
        }
        match self {
            Term::Closure(c) => checked_sum_terms_size(&c.env, own),
            Term::Tuple(elements) => checked_sum_terms_size(elements, own),
            Term::Mapping(keys, values) => {
                proof {
                    lemma_sum_size_nonnegative(keys@, keys@.len() as int);
                    lemma_sum_size_nonnegative(values@, values@.len() as int);
                }
                match checked_sum_terms_size(keys, own) {
                    Some(with_keys) => checked_sum_terms_size(values, with_keys),
                    None => None,
                }
            },
            Term::Cons(head, tail) => {
                proof {
                    lemma_size_nonnegative(head);
                    lemma_size_nonnegative(tail);
                }
                let of_head = match head.checked_size_in_words() {
                    Some(size) => size,
                    None => {
                        return None;
                    },
                };
                let of_tail = match tail.checked_size_in_words() {
                    Some(size) => size,
                    None => {
                        return None;
                    },
                };
                match own.checked_add(of_head) {
                    Some(sum) => sum.checked_add(of_tail),
                    None => None,
                }
            },
            _ => Some(own),
        }
    }
}

/// The sum of the sizes of `terms` and `base`, if it fits in a `usize`.
fn checked_sum_terms_size(terms: &Vec<Term>, base: usize) -> (words: Option<usize>)
    requires
        terms_wf(terms@),
    ensures
        words is Some <==> base + sum_size_in_words(terms@, terms@.len() as int) <= usize::MAX,
        words matches Some(w) ==> w == base + sum_size_in_words(terms@, terms@.len() as int),
    decreases terms,
{
    let mut words: usize = base;
    let mut i: usize = 0;
    while i < terms.len()
        invariant
            i <= terms.len(),
            terms_wf(terms@),
            words == base + sum_size_in_words(terms@, i as int),
        decreases terms.len() - i,
    {
        proof {
            lemma_sum_size_nonnegative(terms@, terms@.len() as int);
            lemma_sum_size_nonnegative(terms@, i as int);
            lemma_size_nonnegative(&terms@[i as int]);
            assert(sum_size_in_words(terms@, i + 1) <= sum_size_in_words(
                terms@,
                terms@.len() as int,
            ));
        }
        let size = match terms[i].checked_size_in_words() {
            Some(size) => size,
            None => {
                return None;
            },
        };
        words = match words.checked_add(size) {
            Some(sum) => sum,
            None => {
                return None;
            },
        };
        i += 1;
    }
    Some(words)
}

/// The sum of the sizes of `terms`, which is known to stay within `bound`.
fn sum_terms_size(terms: &Vec<Term>, Ghost(bound): Ghost<int>) -> (words: usize)
    requires
        terms_wf(terms@),
        sum_size_in_words(terms@, terms@.len() as int) <= bound <= usize::MAX,
    ensures
        words == sum_size_in_words(terms@, terms@.len() as int),
    decreases terms,
{
    let mut words: usize = 0;
    let mut i: usize = 0;
    while i < terms.len()
        invariant
            i <= terms.len(),
            terms_wf(terms@),
            words == sum_size_in_words(terms@, i as int),
            sum_size_in_words(terms@, terms@.len() as int) <= usize::MAX,
        decreases terms.len() - i,
    {
        proof {
            lemma_sum_size_nonnegative(terms@, terms@.len() as int);
            lemma_sum_size_nonnegative(terms@, i as int);
            lemma_size_nonnegative(&terms@[i as int]);
            assert(sum_size_in_words(terms@, i + 1) <= sum_size_in_words(
                terms@,
                terms@.len() as int,
            ));
        }
        words = words + terms[i].size_in_words();
        i += 1;
    }
    words
}

} // verus!
