//! What holds of the order of terms: it is total, and it is transitive.

use vstd::prelude::*;
use crate::closure::definition_order;
use crate::compare::{closure_order, rank, term_order, terms_order_from};
use crate::order::{bits_order, bit_key, byte_key, bytes_order, lemma_lex_order_antisymmetric,
    lemma_lex_order_transitive, Order};
use crate::term::{ClosureView, DefinitionView, TermView};

verus! {

/// What transitivity asks of the outcomes of comparing a first with a
/// second, the second with a third, and the first with the third: where
/// neither of the first two is `Greater`, the last is not either, and it is
/// `Equal` only where both are.
pub open spec fn transitive(ab: Order, bc: Order, ac: Order) -> bool {
    (ab.is_le() && bc.is_le()) ==> (ac.is_le() && (ac == Order::Equal ==> ab == Order::Equal
        && bc == Order::Equal))
}

/// The order of byte strings is transitive.
pub proof fn lemma_bytes_order_transitive(a: Seq<u8>, b: Seq<u8>, c: Seq<u8>)
    ensures
        transitive(bytes_order(a, b), bytes_order(b, c), bytes_order(a, c)),
{
    if bytes_order(a, b).is_le() && bytes_order(b, c).is_le() {
        lemma_lex_order_transitive(a, b, c, byte_key(), 0);
    }
}

/// The order of bit strings is transitive.
pub proof fn lemma_bits_order_transitive(a: Seq<bool>, b: Seq<bool>, c: Seq<bool>)
    ensures
        transitive(bits_order(a, b), bits_order(b, c), bits_order(a, c)),
{
    if bits_order(a, b).is_le() && bits_order(b, c).is_le() {
        lemma_lex_order_transitive(a, b, c, bit_key(), 0);
    }
}

/// Exchanging two definitions reverses their order.
pub proof fn lemma_definition_order_antisymmetric(a: DefinitionView, b: DefinitionView)
    ensures
        definition_order(b, a) == definition_order(a, b).reverse_spec(),
{
    match (a, b) {
        (DefinitionView::Export { function: f }, DefinitionView::Export { function: g }) => {
            lemma_lex_order_antisymmetric(f, g, byte_key(), 0);
        },
        (
            DefinitionView::Anonymous { unique: u, .. },
            DefinitionView::Anonymous { unique: v, .. },
        ) => {
            lemma_lex_order_antisymmetric(u, v, byte_key(), 0);
        },
        _ => {},
    }
}

/// The order of definitions is transitive.
pub proof fn lemma_definition_order_transitive(
    a: DefinitionView,
    b: DefinitionView,
    c: DefinitionView,
)
    ensures
        transitive(definition_order(a, b), definition_order(b, c), definition_order(a, c)),
{
    match (a, b, c) {
        (
            DefinitionView::Export { function: f },
            DefinitionView::Export { function: g },
            DefinitionView::Export { function: h },
        ) => {
            lemma_bytes_order_transitive(f, g, h);
        },
        (
            DefinitionView::Anonymous { unique: u, .. },
            DefinitionView::Anonymous { unique: v, .. },
            DefinitionView::Anonymous { unique: w, .. },
        ) => {
            lemma_bytes_order_transitive(u, v, w);
        },
        _ => {},
    }
}

/// An export is above every anonymous function, whatever each holds.
pub proof fn lemma_export_above_anonymous(export: DefinitionView, anonymous: DefinitionView)
    requires
        export is Export,
        anonymous is Anonymous,
    ensures
        definition_order(export, anonymous) == Order::Greater,
        definition_order(anonymous, export) == Order::Less,
{
}

/// Of two closures of one module and arity, the one that captures an export
/// is above the one of an anonymous function, whatever else they hold.
pub proof fn lemma_export_closure_above_anonymous(export: ClosureView, anonymous: ClosureView)
    requires
        export.definition is Export,
        anonymous.definition is Anonymous,
        export.module == anonymous.module,
        export.arity == anonymous.arity,
    ensures
        term_order(TermView::Closure(export), TermView::Closure(anonymous)) == Order::Greater,
        term_order(TermView::Closure(anonymous), TermView::Closure(export)) == Order::Less,
{
    lemma_lex_order_antisymmetric(export.module, anonymous.module, byte_key(), 0);
    assert(closure_order(export, anonymous) == Order::Greater);
    assert(closure_order(anonymous, export) == Order::Less);
}

/// Exchanging two sequences of terms reverses their order from `i` on.
pub proof fn lemma_terms_order_antisymmetric(a: Seq<TermView>, b: Seq<TermView>, i: int)
    ensures
        terms_order_from(b, a, i) == terms_order_from(a, b, i).reverse_spec(),
    decreases a, a.len() - i,
{
    if 0 <= i < a.len() && i < b.len() {
        lemma_term_order_antisymmetric(a[i], b[i]);
        lemma_terms_order_antisymmetric(a, b, i + 1);
    }
}

/// Exchanging two terms reverses their order: of `a < b`, `a == b` and
/// `a > b` exactly one holds, and `b > a`, `b == a` or `b < a` with it.
pub proof fn lemma_term_order_antisymmetric(a: TermView, b: TermView)
    ensures
        term_order(b, a) == term_order(a, b).reverse_spec(),
    decreases a, 0nat,
{
    if rank(a) == rank(b) {
        match (a, b) {
            (TermView::Atom(x), TermView::Atom(y)) => {
                lemma_lex_order_antisymmetric(x, y, byte_key(), 0);
            },
            (TermView::Closure(x), TermView::Closure(y)) => {
                lemma_lex_order_antisymmetric(x.module, y.module, byte_key(), 0);
                lemma_definition_order_antisymmetric(x.definition, y.definition);
                lemma_terms_order_antisymmetric(x.env, y.env, 0);
                assert(closure_order(y, x) == closure_order(x, y).reverse_spec());
            },
            (TermView::Tuple(x), TermView::Tuple(y)) => {
                lemma_terms_order_antisymmetric(x, y, 0);
            },
            (TermView::Mapping(k, v), TermView::Mapping(l, w)) => {
                lemma_terms_order_antisymmetric(k, l, 0);
                lemma_terms_order_antisymmetric(v, w, 0);
            },
            (TermView::Cons(h, t), TermView::Cons(i, u)) => {
                lemma_term_order_antisymmetric(*h, *i);
                lemma_term_order_antisymmetric(*t, *u);
            },
            (TermView::Bitstring(x), TermView::Bitstring(y)) => {
                lemma_lex_order_antisymmetric(x, y, bit_key(), 0);
            },
            _ => {},
        }
    }
}

/// Every term is equal to itself in order.
pub proof fn lemma_term_order_reflexive(a: TermView)
    ensures
        term_order(a, a) == Order::Equal,
{
    lemma_term_order_antisymmetric(a, a);
}

/// The order of sequences of terms from `i` on is transitive.
pub proof fn lemma_terms_order_transitive(
    a: Seq<TermView>,
    b: Seq<TermView>,
    c: Seq<TermView>,
    i: int,
)
    ensures
        transitive(terms_order_from(a, b, i), terms_order_from(b, c, i), terms_order_from(a, c, i)),
    decreases a, a.len() - i,
{
    if 0 <= i < a.len() && i < b.len() && i < c.len() {
        lemma_term_order_transitive(a[i], b[i], c[i]);
        lemma_terms_order_transitive(a, b, c, i + 1);
    }
}

/// The order of closures is transitive.
pub proof fn lemma_closure_order_transitive(a: ClosureView, b: ClosureView, c: ClosureView)
    ensures
        transitive(closure_order(a, b), closure_order(b, c), closure_order(a, c)),
    decreases a, 0nat,
{
    lemma_bytes_order_transitive(a.module, b.module, c.module);
    lemma_definition_order_transitive(a.definition, b.definition, c.definition);
    lemma_terms_order_transitive(a.env, b.env, c.env, 0);
}

/// The order of terms is transitive: where `a` is not above `b` and `b` is
/// not above `c`, `a` is not above `c`, and is equal to it only where all
/// three are equal.
pub proof fn lemma_term_order_transitive(a: TermView, b: TermView, c: TermView)
    ensures
        transitive(term_order(a, b), term_order(b, c), term_order(a, c)),
    decreases a, 1nat,
{
    if rank(a) == rank(b) && rank(b) == rank(c) {
        match (a, b, c) {
            (TermView::Atom(x), TermView::Atom(y), TermView::Atom(z)) => {
                lemma_bytes_order_transitive(x, y, z);
            },
            (TermView::Closure(x), TermView::Closure(y), TermView::Closure(z)) => {
                lemma_closure_order_transitive(x, y, z);
            },
            (TermView::Tuple(x), TermView::Tuple(y), TermView::Tuple(z)) => {
                lemma_terms_order_transitive(x, y, z, 0);
            },
            (TermView::Mapping(k, v), TermView::Mapping(l, w), TermView::Mapping(m, x)) => {
                lemma_terms_order_transitive(k, l, m, 0);
                lemma_terms_order_transitive(v, w, x, 0);
            },
            (TermView::Cons(h, t), TermView::Cons(i, u), TermView::Cons(j, v)) => {
                lemma_term_order_transitive(*h, *i, *j);
                lemma_term_order_transitive(*t, *u, *v);
            },
            (TermView::Bitstring(x), TermView::Bitstring(y), TermView::Bitstring(z)) => {
                lemma_bits_order_transitive(x, y, z);
            },
            _ => {},
        }
    }
}

/// Of three terms in order, the first is below the last as soon as it is
/// below the second or the second is below the last.
pub proof fn lemma_term_order_strict(a: TermView, b: TermView, c: TermView)
    requires
        term_order(a, b).is_le(),
        term_order(b, c).is_le(),
    ensures
        term_order(a, c).is_le(),
        term_order(a, b) == Order::Less || term_order(b, c) == Order::Less ==> term_order(a, c)
            == Order::Less,
        term_order(a, b) == Order::Equal && term_order(b, c) == Order::Equal ==> term_order(a, c)
            == Order::Equal,
{
    lemma_term_order_transitive(a, b, c);
    lemma_term_order_transitive(c, b, a);
    lemma_term_order_antisymmetric(a, b);
    lemma_term_order_antisymmetric(b, c);
    lemma_term_order_antisymmetric(a, c);
}

/// A copy of a term is equal to the term in order, has its hash, and takes
/// as many words on a heap.
pub proof fn lemma_copy_is_equal(copy: &crate::term::Term, term: &crate::term::Term)
    requires
        crate::copy::same_term(copy, term),
    ensures
        term_order(copy@, term@) == Order::Equal,
        crate::hash::term_hash(copy@) == crate::hash::term_hash(term@),
        crate::term::size_in_words(copy) == crate::term::size_in_words(term),
{
    lemma_term_order_reflexive(term@);
}

} // verus!
