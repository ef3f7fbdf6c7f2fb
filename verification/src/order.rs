//! The three outcomes of a comparison, and the lexicographic order of
//! sequences whose elements are ordered by an integer key.

use vstd::prelude::*;

verus! {

/// The outcome of comparing a left value with a right value.
#[derive(Clone, Copy, Debug, PartialEq, Eq, Structural)]
pub enum Order {
    Less,
    Equal,
    Greater,
}

impl Order {
    /// The outcome with the two sides exchanged.
    pub open spec fn reverse_spec(self) -> Order {
        match self {
            Order::Less => Order::Greater,
            Order::Equal => Order::Equal,
            Order::Greater => Order::Less,
        }
    }

    /// This outcome, unless it is `Equal`: then `next` decides.
    pub open spec fn chain_spec(self, next: Order) -> Order {
        if self == Order::Equal {
            next
        } else {
            self
        }
    }

    /// The outcome with the two sides exchanged.
    #[verifier::when_used_as_spec(reverse_spec)]
    pub fn reverse(self) -> (reversed: Order)
        ensures
            reversed == self.reverse_spec(),
    {
        match self {
            Order::Less => Order::Greater,
            Order::Equal => Order::Equal,
            Order::Greater => Order::Less,
        }
    }

    /// This outcome, unless it is `Equal`: then `next` decides.
    #[verifier::when_used_as_spec(chain_spec)]
    pub fn chain(self, next: Order) -> (chained: Order)
        ensures
            chained == self.chain_spec(next),
    {
        match self {
            Order::Equal => next,
            _ => self,
        }
    }

    /// Whether the left value is not above the right one.
    pub open spec fn is_le(self) -> bool {
        self != Order::Greater
    }
}

/// The order of two integers.
pub open spec fn int_order(a: int, b: int) -> Order {
    if a < b {
        Order::Less
    } else if a == b {
        Order::Equal
    } else {
        Order::Greater
    }
}

/// The order of two sequences from index `i` on: the first position at which
/// the keys differ decides; where one sequence ends first, it is the lesser.
pub open spec fn lex_order_from<T>(a: Seq<T>, b: Seq<T>, key: spec_fn(T) -> int, i: int) -> Order
    decreases a.len() - i,
{
    if i >= a.len() {
        if i >= b.len() {
            Order::Equal
        } else {
            Order::Less
        }
    } else if i >= b.len() {
        Order::Greater
    } else if key(a[i]) != key(b[i]) {
        int_order(key(a[i]), key(b[i]))
    } else {
        lex_order_from(a, b, key, i + 1)
    }
}

/// The lexicographic order of two sequences by the keys of their elements.
pub open spec fn lex_order<T>(a: Seq<T>, b: Seq<T>, key: spec_fn(T) -> int) -> Order {
    lex_order_from(a, b, key, 0)
}

/// The key of a byte: its value.
pub open spec fn byte_key() -> spec_fn(u8) -> int {
    |b: u8| b as int
}

/// The key of a bit: one where it is set.
pub open spec fn bit_key() -> spec_fn(bool) -> int {
    |b: bool|
        if b {
            1int
        } else {
            0int
        }
}

/// The order of two byte strings.
pub open spec fn bytes_order(a: Seq<u8>, b: Seq<u8>) -> Order {
    lex_order(a, b, byte_key())
}

/// The order of two bit strings.
pub open spec fn bits_order(a: Seq<bool>, b: Seq<bool>) -> Order {
    lex_order(a, b, bit_key())
}

/// Exchanging the sequences reverses the outcome.
pub proof fn lemma_lex_order_antisymmetric<T>(
    a: Seq<T>,
    b: Seq<T>,
    key: spec_fn(T) -> int,
    i: int,
)
    requires
        0 <= i,
    ensures
        lex_order_from(b, a, key, i) == lex_order_from(a, b, key, i).reverse_spec(),
    decreases a.len() - i,
{
    if i < a.len() && i < b.len() && key(a[i]) == key(b[i]) {
        lemma_lex_order_antisymmetric(a, b, key, i + 1);
    }
}

/// Sequences are equal in order exactly when they have the same length and
/// the same keys from `i` on.
pub proof fn lemma_lex_order_equal<T>(a: Seq<T>, b: Seq<T>, key: spec_fn(T) -> int, i: int)
    requires
        0 <= i,
    ensures
        lex_order_from(a, b, key, i) == Order::Equal <==> {
            &&& (a.len() == b.len() || (a.len() <= i && b.len() <= i))
            &&& forall|j: int| i <= j < a.len() ==> key(#[trigger] a[j]) == key(b[j])
        },
    decreases a.len() - i,
{
    if i < a.len() && i < b.len() && key(a[i]) == key(b[i]) {
        lemma_lex_order_equal(a, b, key, i + 1);
        if lex_order_from(a, b, key, i) == Order::Equal {
            assert forall|j: int| i <= j < a.len() implies key(#[trigger] a[j]) == key(b[j]) by {
                if j > i {
                }
            }
        }
    } else if i < a.len() && i < b.len() {
        assert(key(a[i]) != key(b[i]));
    }
}

/// The order from `i` on is transitive.
pub proof fn lemma_lex_order_transitive<T>(
    a: Seq<T>,
    b: Seq<T>,
    c: Seq<T>,
    key: spec_fn(T) -> int,
    i: int,
)
    requires
        0 <= i,
        lex_order_from(a, b, key, i).is_le(),
        lex_order_from(b, c, key, i).is_le(),
    ensures
        lex_order_from(a, c, key, i).is_le(),
        lex_order_from(a, c, key, i) == Order::Equal ==> lex_order_from(a, b, key, i)
            == Order::Equal && lex_order_from(b, c, key, i) == Order::Equal,
    decreases a.len() - i,
{
    if i < a.len() && i < b.len() && i < c.len() && key(a[i]) == key(b[i]) && key(b[i]) == key(
        c[i],
    ) {
        lemma_lex_order_transitive(a, b, c, key, i + 1);
    }
}

/// The order of two byte strings, as `[u8]::cmp` gives it.
pub fn compare_bytes(a: &[u8], b: &[u8]) -> (order: Order)
    ensures
        order == bytes_order(a@, b@),
{
    let mut i: usize = 0;
    while i < a.len() && i < b.len()
        invariant
            i <= a.len(),
            i <= b.len(),
            bytes_order(a@, b@) == lex_order_from(a@, b@, byte_key(), i as int),
        decreases a.len() - i,
    {
        if a[i] < b[i] {
            return Order::Less;
        }
        if a[i] > b[i] {
            return Order::Greater;
        }
        i += 1;
    }
    if i < b.len() {
        Order::Less
    } else if i < a.len() {
        Order::Greater
    } else {
        Order::Equal
    }
}

/// The order of two unsigned integers.
pub fn compare_unsigned(a: u128, b: u128) -> (order: Order)
    ensures
        order == int_order(a as int, b as int),
{
    if a < b {
        Order::Less
    } else if a == b {
        Order::Equal
    } else {
        Order::Greater
    }
}

/// Whether two byte strings hold the same bytes.
pub fn bytes_equal(a: &[u8], b: &[u8]) -> (equal: bool)
    ensures
        equal == (a@ == b@),
{
    if a.len() != b.len() {
        return false;
    }
    let mut i: usize = 0;
    while i < a.len()
        invariant
            i <= a.len(),
            a.len() == b.len(),
            forall|j: int| 0 <= j < i ==> a@[j] == b@[j],
        decreases a.len() - i,
    {
        if a[i] != b[i] {
            return false;
        }
        i += 1;
    }
    assert(a@ =~= b@);
    true
}

} // verus!
