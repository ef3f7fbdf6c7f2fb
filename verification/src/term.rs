//! Terms: the values of the language, each with its mathematical view.
//!
//! A term is either an immediate, which fits in a tagged word, or a boxed
//! object on a heap, which begins with a header word. Here a term owns its
//! parts; what a term takes on a heap is counted in words by
//! [`size_in_words`].

use vstd::prelude::*;
use crate::atom::Atom;
use crate::closure_layout::{closure_size_spec, native_word};
use crate::number::{BigInteger, Float, SmallInteger};

verus! {

/// The greatest number of a local process identifier.
pub const PID_NUMBER_MAX: u32 = 0x7fff;

/// The greatest serial of a local process identifier.
pub const PID_SERIAL_MAX: u32 = 0x1fff;

/// A local process identifier.
#[derive(Clone, Copy, Debug, PartialEq, Eq, Structural)]
pub struct Pid {
    pub number: u32,
    pub serial: u32,
}

/// The identifier of a process on another node.
#[derive(Clone, Copy, Debug, PartialEq, Eq, Structural)]
pub struct ExternalPid {
    pub node: u32,
    pub number: u32,
    pub serial: u32,
}

/// A local port.
#[derive(Clone, Copy, Debug, PartialEq, Eq, Structural)]
pub struct Port {
    pub number: u32,
}

/// A reference: the node that made it, the creation of that node, and the
/// count at which it was made.
#[derive(Clone, Copy, Debug, PartialEq, Eq, Structural)]
pub struct Reference {
    pub node: u32,
    pub creation: u32,
    pub number: u64,
}

/// The kinds of boxed objects.
#[derive(Clone, Copy, Debug, PartialEq, Eq, Structural)]
pub enum Kind {
    Closure,
    Tuple,
    Cons,
    HeapBinary,
    SubBinary,
    BigInteger,
    Float,
    Mapping,
    Reference,
    ExternalPid,
}

/// The first word of a boxed object: its kind and its arity, the number of
/// words that follow the header.
#[derive(Clone, Copy, Debug, PartialEq, Eq, Structural)]
pub struct Header {
    pub kind: Kind,
    pub arity_words: usize,
}

/// What a closure calls.
#[derive(Debug, Eq)]
pub enum Definition {
    /// A function captured by name; module and arity are those of the closure.
    Export { function: Atom },
    /// A function without a name.
    Anonymous {
        /// Its place among the anonymous functions of the module.
        index: usize,
        /// The 16-byte digest of the significant parts of the module.
        unique: [u8; 16],
        /// The hash of the parse tree of the function.
        old_unique: u32,
    },
}

/// The view of a definition.
pub enum DefinitionView {
    Export { function: Seq<u8> },
    Anonymous { index: nat, unique: Seq<u8>, old_unique: nat },
}

impl View for Definition {
    type V = DefinitionView;

    open spec fn view(&self) -> DefinitionView {
        match self {
            Definition::Export { function } => DefinitionView::Export { function: function@ },
            Definition::Anonymous { index, unique, old_unique } => DefinitionView::Anonymous {
                index: *index as nat,
                unique: unique@,
                old_unique: *old_unique as nat,
            },
        }
    }
}

/// A function value: the module it belongs to, the number of arguments it
/// takes, what it calls, the address of its native code where it has any,
/// and the terms it captured.
#[derive(Debug, PartialEq, Eq)]
pub struct Closure {
    pub header: Header,
    pub module: Atom,
    pub arity: u32,
    pub definition: Definition,
    pub native: Option<usize>,
    pub env: Vec<Term>,
}

/// The view of a closure.
pub struct ClosureView {
    pub module: Seq<u8>,
    pub arity: nat,
    pub definition: DefinitionView,
    pub native: Option<nat>,
    pub env: Seq<TermView>,
}

/// A part of a binary: `full_byte_len` bytes and then `partial_bit_len`
/// bits, taken from `original` after `byte_offset` bytes and `bit_offset`
/// bits.
#[derive(Debug, PartialEq, Eq)]
pub struct SubBinary {
    pub original: Vec<u8>,
    pub byte_offset: usize,
    pub bit_offset: u8,
    pub full_byte_len: usize,
    pub partial_bit_len: u8,
}

/// A term.
#[derive(Debug, PartialEq, Eq)]
pub enum Term {
    SmallInteger(SmallInteger),
    BigInteger(BigInteger),
    Float(Float),
    Atom(Atom),
    Reference(Reference),
    Closure(Box<Closure>),
    Port(Port),
    Pid(Pid),
    ExternalPid(ExternalPid),
    Tuple(Vec<Term>),
    /// A map: its keys, and the value of each key at the same place.
    Mapping(Vec<Term>, Vec<Term>),
    Nil,
    Cons(Box<Term>, Box<Term>),
    HeapBinary(Vec<u8>),
    SubBinary(SubBinary),
}

/// The view of a term: what it stands for, whatever form holds it.
pub enum TermView {
    Integer(int),
    /// A float, by the bits of its binary64 form.
    Float(u64),
    Atom(Seq<u8>),
    Reference(Reference),
    Closure(ClosureView),
    Port(Port),
    Pid(Pid),
    ExternalPid(ExternalPid),
    Tuple(Seq<TermView>),
    Mapping(Seq<TermView>, Seq<TermView>),
    Nil,
    Cons(Box<TermView>, Box<TermView>),
    /// A binary or a part of one, bit by bit, the high bit of each byte
    /// first.
    Bitstring(Seq<bool>),
}

/// Bit `i` of a byte string, the high bit of each byte first.
pub open spec fn bit_of(bytes: Seq<u8>, i: int) -> bool {
    (bytes[i / 8] as int / bit_weight(i % 8)) % 2 == 1
}

/// The weight of bit `i` of a byte, counted from the high bit.
pub open spec fn bit_weight(i: int) -> int {
    if i == 0 {
        128
    } else if i == 1 {
        64
    } else if i == 2 {
        32
    } else if i == 3 {
        16
    } else if i == 4 {
        8
    } else if i == 5 {
        4
    } else if i == 6 {
        2
    } else {
        1
    }
}

/// The bits of a byte string.
pub open spec fn bits_of(bytes: Seq<u8>) -> Seq<bool> {
    Seq::new(8 * bytes.len(), |i: int| bit_of(bytes, i))
}

/// The weight of bit `k` of a byte where the bit is set, else nothing.
pub open spec fn bit_value(bit: bool, k: int) -> int {
    if bit {
        bit_weight(k)
    } else {
        0
    }
}

/// The byte made of the eight bits from bit `8 * i` on.
pub open spec fn byte_of_bits(bits: Seq<bool>, i: int) -> u8 {
    (bit_value(bits[8 * i], 0) + bit_value(bits[8 * i + 1], 1) + bit_value(bits[8 * i + 2], 2)
        + bit_value(bits[8 * i + 3], 3) + bit_value(bits[8 * i + 4], 4) + bit_value(
        bits[8 * i + 5],
        5,
    ) + bit_value(bits[8 * i + 6], 6) + bit_value(bits[8 * i + 7], 7)) as u8
}

/// The bytes of a bit string of whole bytes.
pub open spec fn bytes_of_bits(bits: Seq<bool>) -> Seq<u8> {
    Seq::new(bits.len() / 8, |i: int| byte_of_bits(bits, i))
}

/// The bytes of the bits of a byte string are that byte string.
pub proof fn lemma_bytes_of_bits(bytes: Seq<u8>)
    ensures
        bytes_of_bits(bits_of(bytes)) == bytes,
{
    let bits = bits_of(bytes);
    assert(bits.len() / 8 == bytes.len());
    assert forall|i: int| 0 <= i < bytes.len() implies byte_of_bits(bits, i) == bytes[i] by {
        let b = bytes[i];
        assert((8 * i) / 8 == i && (8 * i + 1) / 8 == i && (8 * i + 2) / 8 == i && (8 * i + 3) / 8
            == i && (8 * i + 4) / 8 == i && (8 * i + 5) / 8 == i && (8 * i + 6) / 8 == i && (8 * i
            + 7) / 8 == i);
        assert((8 * i) % 8 == 0 && (8 * i + 1) % 8 == 1 && (8 * i + 2) % 8 == 2 && (8 * i + 3) % 8
            == 3 && (8 * i + 4) % 8 == 4 && (8 * i + 5) % 8 == 5 && (8 * i + 6) % 8 == 6 && (8 * i
            + 7) % 8 == 7);
        assert(b == (if (b / 128) % 2 == 1 {
            128int
        } else {
            0int
        }) + (if (b / 64) % 2 == 1 {
            64int
        } else {
            0int
        }) + (if (b / 32) % 2 == 1 {
            32int
        } else {
            0int
        }) + (if (b / 16) % 2 == 1 {
            16int
        } else {
            0int
        }) + (if (b / 8) % 2 == 1 {
            8int
        } else {
            0int
        }) + (if (b / 4) % 2 == 1 {
            4int
        } else {
            0int
        }) + (if (b / 2) % 2 == 1 {
            2int
        } else {
            0int
        }) + (if (b / 1) % 2 == 1 {
            1int
        } else {
            0int
        })) by (bit_vector);
    }
    assert(bytes_of_bits(bits) =~= bytes);
}

impl SubBinary {
    /// The number of the first bit taken from the original.
    pub open spec fn first_bit(&self) -> int {
        8 * self.byte_offset + self.bit_offset
    }

    /// The number of bits taken.
    pub open spec fn bit_len(&self) -> int {
        8 * self.full_byte_len + self.partial_bit_len
    }

    /// Whether the part lies within the original.
    pub open spec fn wf(&self) -> bool {
        &&& self.bit_offset < 8
        &&& self.partial_bit_len < 8
        &&& self.first_bit() + self.bit_len() <= 8 * self.original@.len()
    }
}

impl View for SubBinary {
    type V = Seq<bool>;

    open spec fn view(&self) -> Seq<bool> {
        Seq::new(self.bit_len() as nat, |i: int| bit_of(self.original@, self.first_bit() + i))
    }
}

/// The views of the terms of a sequence.
pub open spec fn terms_view(terms: Seq<Term>) -> Seq<TermView>
    decreases terms,
{
    Seq::new(
        terms.len(),
        |i: int|
            if 0 <= i < terms.len() {
                term_view(&terms[i])
            } else {
                TermView::Nil
            },
    )
}

/// The view of a closure.
pub open spec fn closure_view(closure: &Closure) -> ClosureView
    decreases closure,
{
    ClosureView {
        module: closure.module@,
        arity: closure.arity as nat,
        definition: closure.definition@,
        native: match closure.native {
            Some(address) => Some(address as nat),
            None => None,
        },
        env: terms_view(closure.env@),
    }
}

/// The view of a term.
pub open spec fn term_view(term: &Term) -> TermView
    decreases term,
{
    match term {
        Term::SmallInteger(i) => TermView::Integer(i@),
        Term::BigInteger(i) => TermView::Integer(i@),
        Term::Float(f) => TermView::Float(f@),
        Term::Atom(a) => TermView::Atom(a@),
        Term::Reference(r) => TermView::Reference(*r),
        Term::Closure(c) => TermView::Closure(closure_view(c)),
        Term::Port(p) => TermView::Port(*p),
        Term::Pid(p) => TermView::Pid(*p),
        Term::ExternalPid(p) => TermView::ExternalPid(*p),
        Term::Tuple(elements) => TermView::Tuple(terms_view(elements@)),
        Term::Mapping(keys, values) => TermView::Mapping(terms_view(keys@), terms_view(values@)),
        Term::Nil => TermView::Nil,
        Term::Cons(head, tail) => TermView::Cons(
            Box::new(term_view(head)),
            Box::new(term_view(tail)),
        ),
        Term::HeapBinary(bytes) => TermView::Bitstring(bits_of(bytes@)),
        Term::SubBinary(sub) => TermView::Bitstring(sub@),
    }
}

impl View for Closure {
    type V = ClosureView;

    open spec fn view(&self) -> ClosureView {
        closure_view(self)
    }
}

impl View for Term {
    type V = TermView;

    open spec fn view(&self) -> TermView {
        term_view(self)
    }
}

/// The number of words in the fixed fields of a closure, header included.
pub open spec fn base_size_words_spec() -> int {
    closure_size_spec(native_word(), 0) / native_word()
}

/// The number of words that `bytes` bytes take.
pub open spec fn words_for(bytes: int) -> int {
    (bytes + native_word() - 1) / native_word()
}

/// The number of words that the object of a term takes on a heap, without
/// its parts: nothing for an immediate, and for a boxed object its header
/// and what follows it.
pub open spec fn object_words(term: &Term) -> int {
    match term {
        Term::SmallInteger(_) => 0,
        Term::BigInteger(_) => 2 + words_for(16),
        Term::Float(_) => 1 + words_for(8),
        Term::Atom(_) => 0,
        Term::Reference(_) => 1 + words_for(16),
        Term::Closure(c) => closure_size_spec(native_word(), c.env@.len() as int) / native_word(),
        Term::Port(_) => 0,
        Term::Pid(_) => 0,
        Term::ExternalPid(_) => 3,
        Term::Tuple(elements) => 1 + elements@.len() as int,
        Term::Mapping(keys, values) => 2 + 2 * keys@.len() as int,
        Term::Nil => 0,
        Term::Cons(_, _) => 3,
        Term::HeapBinary(bytes) => 2 + words_for(bytes@.len() as int),
        Term::SubBinary(_) => 6,
    }
}

/// Whether a term fits in a word, with no object on a heap.
pub open spec fn is_immediate_spec(term: &Term) -> bool {
    object_words(term) == 0
}

/// The sum of the sizes of the first `n` terms of a sequence.
pub open spec fn sum_size_in_words(terms: Seq<Term>, n: int) -> int
    decreases terms, n,
{
    if n <= 0 || n > terms.len() {
        0
    } else {
        sum_size_in_words(terms, n - 1) + size_in_words(&terms[n - 1])
    }
}

/// The number of words that a term takes on a heap: its own object, and the
/// objects of its parts.
pub open spec fn size_in_words(term: &Term) -> int
    decreases term,
{
    object_words(term) + match term {
        Term::Closure(c) => sum_size_in_words(c.env@, c.env@.len() as int),
        Term::Tuple(elements) => sum_size_in_words(elements@, elements@.len() as int),
        Term::Mapping(keys, values) => sum_size_in_words(keys@, keys@.len() as int)
            + sum_size_in_words(values@, values@.len() as int),
        Term::Cons(head, tail) => size_in_words(head) + size_in_words(tail),
        _ => 0,
    }
}

/// Whether every term of a sequence is well formed.
pub open spec fn terms_wf(terms: Seq<Term>) -> bool
    decreases terms,
{
    forall|i: int| 0 <= i < terms.len() ==> term_wf(#[trigger] &terms[i])
}

/// Whether a closure is well formed: its header tells the size of its
/// layout, its arity fits a byte, its native address is not null, and its
/// environment is well formed.
pub open spec fn closure_wf(closure: &Closure) -> bool
    decreases closure,
{
    &&& closure.header.kind == Kind::Closure
    &&& closure.header.arity_words == base_size_words_spec() - 1 + closure.env@.len()
    &&& closure.arity <= 255
    &&& closure.native != Some(0usize)
    &&& closure_size_spec(native_word(), closure.env@.len() as int) <= isize::MAX
    &&& terms_wf(closure.env@)
}

/// Whether a term is well formed: every integer is held in the form its
/// value calls for, every float is finite, every identifier is in range,
/// every part of a binary lies within its original, no object is larger than
/// memory allows, and so for every part.
pub open spec fn term_wf(term: &Term) -> bool
    decreases term,
{
    match term {
        Term::SmallInteger(i) => i.wf(),
        Term::BigInteger(i) => i.wf(),
        Term::Float(f) => f.wf(),
        Term::Atom(_) => true,
        Term::Reference(_) => true,
        Term::Closure(c) => closure_wf(c),
        Term::Port(_) => true,
        Term::Pid(p) => p.number <= PID_NUMBER_MAX && p.serial <= PID_SERIAL_MAX,
        Term::ExternalPid(p) => p.number <= PID_NUMBER_MAX && p.serial <= PID_SERIAL_MAX,
        Term::Tuple(elements) => {
            &&& (1 + elements@.len()) * native_word() <= isize::MAX
            &&& terms_wf(elements@)
        },
        Term::Mapping(keys, values) => {
            &&& keys@.len() == values@.len()
            &&& (2 + 2 * keys@.len()) * native_word() <= isize::MAX
            &&& terms_wf(keys@)
            &&& terms_wf(values@)
        },
        Term::Nil => true,
        Term::Cons(head, tail) => term_wf(head) && term_wf(tail),
        Term::HeapBinary(bytes) => (2 + words_for(bytes@.len() as int)) * native_word()
            <= isize::MAX,
        Term::SubBinary(sub) => sub.wf(),
    }
}

impl Closure {
    /// Whether the closure is well formed.
    pub open spec fn wf(&self) -> bool {
        closure_wf(self)
    }
}

impl Term {
    /// Whether the term is well formed.
    pub open spec fn wf(&self) -> bool {
        term_wf(self)
    }
}

/// The view of a sequence of terms has the view of each term at its place.
pub proof fn lemma_terms_view(terms: Seq<Term>)
    ensures
        terms_view(terms).len() == terms.len(),
        forall|i: int| 0 <= i < terms.len() ==> (#[trigger] terms_view(terms)[i]) == terms[i]@,
{
}

/// No object has a negative number of words, and a closure has as many as
/// its fixed fields and one more for each term of its environment.
pub proof fn lemma_object_words(term: &Term)
    ensures
        0 <= object_words(term),
        term matches Term::Closure(c) ==> object_words(term) == base_size_words_spec()
            + c.env@.len(),
        base_size_words_spec() == 9 || base_size_words_spec() == 11,
{
    let w = native_word();
    assert(w == 4 || w == 8);
    crate::closure_layout::lemma_closure_fields_32bit(0);
    crate::closure_layout::lemma_closure_fields_64bit(0);
    match term {
        Term::Closure(c) => {
            crate::closure_layout::lemma_closure_fields_32bit(c.env@.len() as int);
            crate::closure_layout::lemma_closure_fields_64bit(c.env@.len() as int);
        },
        _ => {},
    }
}

/// No term has a negative size.
pub proof fn lemma_size_nonnegative(term: &Term)
    ensures
        0 <= object_words(term) <= size_in_words(term),
    decreases term,
{
    lemma_object_words(term);
    match term {
        Term::Closure(c) => {
            lemma_sum_size_nonnegative(c.env@, c.env@.len() as int);
        },
        Term::Tuple(elements) => {
            lemma_sum_size_nonnegative(elements@, elements@.len() as int);
        },
        Term::Mapping(keys, values) => {
            lemma_sum_size_nonnegative(keys@, keys@.len() as int);
            lemma_sum_size_nonnegative(values@, values@.len() as int);
        },
        Term::Cons(head, tail) => {
            lemma_size_nonnegative(head);
            lemma_size_nonnegative(tail);
        },
        _ => {},
    }
}

/// The sizes of the first terms of a sequence sum to no less than those of
/// fewer, and to nothing negative.
pub proof fn lemma_sum_size_nonnegative(terms: Seq<Term>, n: int)
    ensures
        0 <= sum_size_in_words(terms, n),
        forall|m: int| 0 <= m <= n <= terms.len() ==> #[trigger] sum_size_in_words(terms, m)
            <= sum_size_in_words(terms, n),
    decreases terms, n,
{
    if 0 < n <= terms.len() {
        lemma_sum_size_nonnegative(terms, n - 1);
        lemma_size_nonnegative(&terms[n - 1]);
    }
}

} // verus!
