//! Terms that are equal in order have the same hash.

use vstd::prelude::*;
use crate::closure::definition_order;
use crate::compare::{closure_order, number_key, rank, term_order, terms_order_from};
use crate::hash::{closure_hash, mix_terms, mix_terms_to, term_hash};
use crate::number::{float_scaled, lemma_float_scaled_injective};
use crate::order::{bit_key, byte_key, bytes_order, lemma_lex_order_equal, Order};
use crate::term::{lemma_terms_view, term_wf, terms_view, terms_wf, Closure, DefinitionView, Term,
    TermView};

verus! {

/// Byte strings that are equal in order are the same.
pub proof fn lemma_bytes_equal(a: Seq<u8>, b: Seq<u8>)
    requires
        bytes_order(a, b) == Order::Equal,
    ensures
        a == b,
{
    lemma_lex_order_equal(a, b, byte_key(), 0);
    assert(a =~= b) by {
        assert forall|i: int| 0 <= i < a.len() implies a[i] == b[i] by {
            assert(byte_key()(a[i]) == byte_key()(b[i]));
        }
    }
}

/// Bit strings that are equal in order are the same.
pub proof fn lemma_bits_equal(a: Seq<bool>, b: Seq<bool>)
    requires
        crate::order::bits_order(a, b) == Order::Equal,
    ensures
        a == b,
{
    lemma_lex_order_equal(a, b, bit_key(), 0);
    assert(a =~= b) by {
        assert forall|i: int| 0 <= i < a.len() implies a[i] == b[i] by {
            assert(bit_key()(a[i]) == bit_key()(b[i]));
        }
    }
}

/// Definitions that are equal in order are the same.
pub proof fn lemma_definitions_equal(a: DefinitionView, b: DefinitionView)
    requires
        definition_order(a, b) == Order::Equal,
    ensures
        a == b,
{
    match (a, b) {
        (DefinitionView::Export { function: f }, DefinitionView::Export { function: g }) => {
            lemma_bytes_equal(f, g);
        },
        (
            DefinitionView::Anonymous { unique: u, .. },
            DefinitionView::Anonymous { unique: v, .. },
        ) => {
            lemma_bytes_equal(u, v);
        },
        _ => {},
    }
}

/// Numbers that are equal in order have the same hash.
pub proof fn lemma_numbers_same_hash(a: &Term, b: &Term)
    requires
        a.wf(),
        b.wf(),
        rank(a@) == 0,
        rank(b@) == 0,
        number_key(a@) == number_key(b@),
    ensures
        term_hash(a@) == term_hash(b@),
{
    let unit = vstd::arithmetic::power2::pow2(1074) as int;
    vstd::arithmetic::power2::lemma_pow2_pos(1074);
    match (a@, b@) {
        (TermView::Integer(i), TermView::Integer(j)) => {
            assert(i == j) by (nonlinear_arith)
                requires
                    i * unit == j * unit,
                    unit > 0,
            ;
        },
        (TermView::Integer(i), TermView::Float(bits)) => {
            vstd::arithmetic::div_mod::lemma_fundamental_div_mod_converse(
                float_scaled(bits),
                unit,
                i,
                0,
            );
        },
        (TermView::Float(bits), TermView::Integer(j)) => {
            vstd::arithmetic::div_mod::lemma_fundamental_div_mod_converse(
                float_scaled(bits),
                unit,
                j,
                0,
            );
        },
        (TermView::Float(x), TermView::Float(y)) => {
            lemma_float_scaled_injective(x, y);
        },
        _ => {},
    }
}

/// Sequences of terms that are equal in order from `i` on have the same
/// length, and terms that are equal in order at each place from `i` on.
pub proof fn lemma_terms_equal_in_order(a: Seq<TermView>, b: Seq<TermView>, i: int)
    requires
        0 <= i <= a.len(),
        i <= b.len(),
        terms_order_from(a, b, i) == Order::Equal,
    ensures
        a.len() == b.len(),
        forall|j: int| i <= j < a.len() ==> term_order(#[trigger] a[j], b[j]) == Order::Equal,
    decreases a.len() - i,
{
    if i < a.len() && i < b.len() {
        lemma_terms_equal_in_order(a, b, i + 1);
    }
}

/// Sequences of well-formed terms that are equal in order mix into the same
/// hash.
pub proof fn lemma_terms_same_hash(a: Seq<Term>, b: Seq<Term>, hash: u64, n: int)
    requires
        terms_wf(a),
        terms_wf(b),
        terms_order_from(terms_view(a), terms_view(b), 0) == Order::Equal,
        0 <= n <= a.len(),
    ensures
        a.len() == b.len(),
        mix_terms_to(hash, terms_view(a), n) == mix_terms_to(hash, terms_view(b), n),
    decreases a, n,
{
    lemma_terms_view(a);
    lemma_terms_view(b);
    lemma_terms_equal_in_order(terms_view(a), terms_view(b), 0);
    if n > 0 {
        lemma_terms_same_hash(a, b, hash, n - 1);
        assert(term_order(terms_view(a)[n - 1], terms_view(b)[n - 1]) == Order::Equal);
        lemma_equal_same_hash(&a[n - 1], &b[n - 1]);
    }
}

/// Closures that are equal in order have the same hash.
pub proof fn lemma_closures_same_hash(a: &Closure, b: &Closure)
    requires
        a.wf(),
        b.wf(),
        closure_order(a@, b@) == Order::Equal,
    ensures
        closure_hash(a@) == closure_hash(b@),
    decreases a,
{
    lemma_bytes_equal(a@.module, b@.module);
    lemma_definitions_equal(a@.definition, b@.definition);
    let seed = crate::hash::mix(
        crate::hash::mix_definition(
            crate::hash::mix(
                crate::hash::mix_bytes(crate::hash::HASH_SEED, a@.module),
                a@.arity as u64,
            ),
            a@.definition,
        ),
        match a@.native {
            Some(address) => address as u64,
            None => 0u64,
        },
    );
    lemma_terms_view(a.env@);
    lemma_terms_view(b.env@);
    lemma_terms_same_hash(a.env@, b.env@, seed, a.env@.len() as int);
    assert(a@.native == b@.native);
    assert(mix_terms(seed, a@.env) == mix_terms(seed, b@.env));
}

/// Well-formed terms that are equal in order have the same hash.
#[verifier::rlimit(60)]
pub proof fn lemma_equal_same_hash(a: &Term, b: &Term)
    requires
        a.wf(),
        b.wf(),
        term_order(a@, b@) == Order::Equal,
    ensures
        term_hash(a@) == term_hash(b@),
    decreases a,
{
    reveal_with_fuel(term_wf, 2);
    if rank(a@) != rank(b@) {
        return ;
    }
    match (a, b) {
        (Term::Atom(x), Term::Atom(y)) => {
            lemma_bytes_equal(x@, y@);
            assert(term_hash(a@) == term_hash(b@));
        },
        (Term::Closure(x), Term::Closure(y)) => {
            lemma_closures_same_hash(x, y);
            assert(term_hash(a@) == term_hash(b@));
        },
        (Term::Tuple(x), Term::Tuple(y)) => {
            lemma_terms_view(x@);
            lemma_terms_view(y@);
            let seed = crate::hash::mix(crate::hash::HASH_SEED, 8);
            lemma_terms_same_hash(x@, y@, seed, x@.len() as int);
            assert(mix_terms(seed, terms_view(x@)) == mix_terms(seed, terms_view(y@)));
            assert(term_hash(a@) == term_hash(b@));
        },
        (Term::Mapping(k, v), Term::Mapping(l, w)) => {
            lemma_terms_view(k@);
            lemma_terms_view(l@);
            lemma_terms_view(v@);
            lemma_terms_view(w@);
            let seed = crate::hash::mix(crate::hash::HASH_SEED, 9);
            lemma_terms_same_hash(k@, l@, seed, k@.len() as int);
            let keyed = mix_terms(seed, terms_view(k@));
            assert(keyed == mix_terms(seed, terms_view(l@)));
            lemma_terms_same_hash(v@, w@, keyed, v@.len() as int);
            assert(mix_terms(keyed, terms_view(v@)) == mix_terms(keyed, terms_view(w@)));
            assert(term_hash(a@) == term_hash(b@));
        },
        (Term::Cons(h, t), Term::Cons(i, u)) => {
            lemma_equal_same_hash(h, i);
            lemma_equal_same_hash(t, u);
            assert(term_hash(a@) == term_hash(b@));
        },
        (Term::Reference(x), Term::Reference(y)) => {
            assert(x == y);
        },
        (Term::Port(x), Term::Port(y)) => {
            assert(x == y);
        },
        (Term::Pid(x), Term::Pid(y)) => {
            assert(x == y);
        },
        (Term::ExternalPid(x), Term::ExternalPid(y)) => {
            assert(x == y);
        },
        (Term::Nil, Term::Nil) => {},
        _ => {
            if rank(a@) == 10 {
                lemma_bits_equal(a@->Bitstring_0, b@->Bitstring_0);
                assert(term_hash(a@) == term_hash(b@));
            } else if rank(a@) == 0 {
                lemma_numbers_same_hash(a, b);
            } else {
                assert(rank(a@) == 5);
            }
        },
    }
}

} // verus!
