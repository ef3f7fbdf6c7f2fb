//! Closures: how they are made on a heap, what they tell of themselves, and
//! how their definitions are named and ordered.

use vstd::prelude::*;
use crate::atom::Atom;
use crate::closure_layout::{closure_size_spec, native_word, native_word_size, ClosureLayout};
use crate::copy::{clone_terms, same_terms};
use crate::object::{closure_size_in_words, closure_words};
use crate::heap::{lemma_word_is_pow2, AllocError, Heap};
use crate::order::{bytes_order, compare_bytes, int_order, Order};
use crate::term::{base_size_words_spec, lemma_object_words, lemma_sum_size_nonnegative,
    lemma_terms_view, sum_size_in_words, term_wf, terms_view, terms_wf, Closure, ClosureView,
    Definition, DefinitionView, ExternalPid, Header, Kind, Pid, Term, TermView};

verus! {

/// The number of arguments of a function.
pub type Arity = u8;

/// The place of an anonymous function in the function table of its module.
pub type Index = u32;

/// The hash of the parse tree of a function.
pub type OldUnique = u32;

/// The 16-byte digest of the significant parts of a module.
pub type Unique = [u8; 16];

/// An object on a heap, owned.
pub type Boxed<T> = Box<T>;

/// A term is not of the kind that was asked for.
#[derive(Clone, Copy, Debug, PartialEq, Eq)]
pub struct TypeError {}

/// The process that made an anonymous function.
#[derive(Clone, Copy, Debug, PartialEq, Eq)]
pub enum Creator {
    Local(Pid),
    External(ExternalPid),
}

impl From<Pid> for Creator {
    fn from(pid: Pid) -> (creator: Creator) {
        Creator::Local(pid)
    }
}

impl vstd::std_specs::convert::FromSpecImpl<Pid> for Creator {
    open spec fn obeys_from_spec() -> bool {
        true
    }

    open spec fn from_spec(pid: Pid) -> Creator {
        Creator::Local(pid)
    }
}

impl From<ExternalPid> for Creator {
    fn from(external_pid: ExternalPid) -> (creator: Creator) {
        Creator::External(external_pid)
    }
}

impl vstd::std_specs::convert::FromSpecImpl<ExternalPid> for Creator {
    open spec fn obeys_from_spec() -> bool {
        true
    }

    open spec fn from_spec(external_pid: ExternalPid) -> Creator {
        Creator::External(external_pid)
    }
}

/// The decimal digits of `n`, as ASCII.
pub open spec fn decimal_digits(n: nat) -> Seq<u8>
    decreases n,
{
    if n < 10 {
        seq![(48 + n) as u8]
    } else {
        decimal_digits(n / 10).push((48 + n % 10) as u8)
    }
}

/// The lower-case hexadecimal digit of `n`, as ASCII.
pub open spec fn hex_digit(n: int) -> u8 {
    if n < 10 {
        (48 + n) as u8
    } else {
        (87 + n) as u8
    }
}

/// Two lower-case hexadecimal digits for each byte, as ASCII.
pub open spec fn hex_digits(bytes: Seq<u8>) -> Seq<u8> {
    Seq::new(
        2 * bytes.len(),
        |i: int|
            if i % 2 == 0 {
                hex_digit(bytes[i / 2] as int / 16)
            } else {
                hex_digit(bytes[i / 2] as int % 16)
            },
    )
}

/// The name of an anonymous function: its index, its old unique and the
/// hexadecimal digits of its unique, with a hyphen between them.
pub open spec fn anonymous_name(index: nat, old_unique: nat, unique: Seq<u8>) -> Seq<u8> {
    decimal_digits(index) + seq![45u8] + decimal_digits(old_unique) + seq![45u8] + hex_digits(
        unique,
    )
}

/// The name of the function of a definition.
pub open spec fn function_name_spec(definition: DefinitionView) -> Seq<u8> {
    match definition {
        DefinitionView::Export { function } => function,
        DefinitionView::Anonymous { index, unique, old_unique } => anonymous_name(
            index,
            old_unique,
            unique,
        ),
    }
}

/// The order of two definitions: every anonymous function is below every
/// export; exports are ordered by their function, anonymous functions by
/// index, then unique, then old unique.
pub open spec fn definition_order(a: DefinitionView, b: DefinitionView) -> Order {
    match (a, b) {
        (DefinitionView::Export { function: f }, DefinitionView::Export { function: g }) =>
            bytes_order(f, g),
        (DefinitionView::Export { .. }, DefinitionView::Anonymous { .. }) => Order::Greater,
        (DefinitionView::Anonymous { .. }, DefinitionView::Export { .. }) => Order::Less,
        (
            DefinitionView::Anonymous { index: i, unique: u, old_unique: o },
            DefinitionView::Anonymous { index: j, unique: v, old_unique: p },
        ) => int_order(i as int, j as int).chain(bytes_order(u, v)).chain(
            int_order(o as int, p as int),
        ),
    }
}

/// Appends the decimal digits of `n` to `out`.
fn push_decimal(out: &mut Vec<u8>, n: u64)
    ensures
        final(out)@ == old(out)@ + decimal_digits(n as nat),
    decreases n,
{
    if n >= 10 {
        push_decimal(out, n / 10);
    }
    let digit = 48 + (n % 10) as u8;
    out.push(digit);
    proof {
        if n >= 10 {
            assert(final(out)@ =~= old(out)@ + decimal_digits(n as nat));
        } else {
            assert(final(out)@ =~= old(out)@ + decimal_digits(n as nat));
        }
    }
}

/// The lower-case hexadecimal digit of `n`.
fn hex_digit_of(n: u8) -> (digit: u8)
    requires
        n < 16,
    ensures
        digit == hex_digit(n as int),
{
    if n < 10 {
        48 + n
    } else {
        87 + n
    }
}

/// The order of two unsigned integers.
fn compare_sizes(a: usize, b: usize) -> (order: Order)
    ensures
        order == int_order(a as int, b as int),
{
    if a < b {
        Order::Less
    } else if a == b {
        Order::Equal
    } else {
        Order::Greater
    }
}

impl PartialEq for Definition {
    /// Whether both definitions are the same: exports of the same function,
    /// or anonymous functions of the same index, unique and old unique.
    fn eq(&self, other: &Definition) -> (equal: bool) {
        match (self, other) {
            (
                Definition::Export { function: self_function },
                Definition::Export { function: other_function },
            ) => self_function.same(other_function),
            (
                Definition::Anonymous {
                    index: self_index,
                    unique: self_unique,
                    old_unique: self_old_unique,
                },
                Definition::Anonymous {
                    index: other_index,
                    unique: other_unique,
                    old_unique: other_old_unique,
                },
            ) => {
                (*self_index == *other_index) && crate::order::bytes_equal(
                    vstd::array::array_as_slice(self_unique),
                    vstd::array::array_as_slice(other_unique),
                ) && (*self_old_unique == *other_old_unique)
            },
            _ => false,
        }
    }
}

impl vstd::std_specs::cmp::PartialEqSpecImpl for Definition {
    open spec fn obeys_eq_spec() -> bool {
        true
    }

    open spec fn eq_spec(&self, other: &Definition) -> bool {
        self@ == other@
    }
}

impl Definition {
    /// The name of the function: that of an export as it is, that of an
    /// anonymous function made of its index, old unique and unique.
    pub fn function_name(&self) -> (name: Atom)
        ensures
            name@ == function_name_spec(self@),
    {
        match self {
            Definition::Export { function } => function.duplicate(),
            Definition::Anonymous { index, unique, old_unique } => {
                let mut name: Vec<u8> = Vec::new();
                push_decimal(&mut name, *index as u64);
                name.push(45);
                push_decimal(&mut name, *old_unique as u64);
                name.push(45);
                let mut digits = Definition::format_unique(unique);
                name.append(&mut digits);
                proof {
                    assert(name@ =~= anonymous_name(
                        *index as nat,
                        *old_unique as nat,
                        unique@,
                    ));
                }
                Atom::from_bytes(name)
            },
        }
    }

    /// The unique in lower-case hexadecimal digits, two for each byte.
    pub fn format_unique(unique: &[u8; 16]) -> (digits: Vec<u8>)
        ensures
            digits@ == hex_digits(unique@),
    {
        let mut digits: Vec<u8> = Vec::with_capacity(32);
        let mut i: usize = 0;
        while i < 16
            invariant
                i <= 16,
                unique@.len() == 16,
                digits@.len() == 2 * i,
                forall|j: int| 0 <= j < 2 * i ==> digits@[j] == hex_digits(unique@)[j],
            decreases 16 - i,
        {
            let byte = unique[i];
            digits.push(hex_digit_of(byte / 16));
            digits.push(hex_digit_of(byte % 16));
            i += 1;
        }
        assert(digits@ =~= hex_digits(unique@));
        digits
    }

    /// Whether both definitions are the same.
    pub fn same(&self, other: &Definition) -> (equal: bool)
        ensures
            equal == (self@ == other@),
    {
        *self == *other
    }

    /// The order of two definitions.
    pub fn compare(&self, other: &Definition) -> (order: Order)
        ensures
            order == definition_order(self@, other@),
    {
        match (self, other) {
            (Definition::Export { function: f }, Definition::Export { function: g }) => f.compare(
                g,
            ),
            (Definition::Export { .. }, Definition::Anonymous { .. }) => Order::Greater,
            (Definition::Anonymous { .. }, Definition::Export { .. }) => Order::Less,
            (
                Definition::Anonymous { index: i, unique: u, old_unique: o },
                Definition::Anonymous { index: j, unique: v, old_unique: p },
            ) => {
                compare_sizes(*i, *j).chain(
                    compare_bytes(vstd::array::array_as_slice(u), vstd::array::array_as_slice(v)),
                ).chain(compare_sizes(*o as usize, *p as usize))
            },
        }
    }
}

/// A function by the names that call it: module, function and arity.
#[derive(Debug, PartialEq, Eq)]
pub struct ModuleFunctionArity {
    pub module: Atom,
    pub function: Atom,
    pub arity: Arity,
}

/// Native code: its address, and the number of arguments it takes.
#[derive(Clone, Copy, Debug, PartialEq, Eq, Structural)]
pub struct Native {
    pub address: usize,
    pub arity: Arity,
}

/// What a process is to run next: a function and its native code.
#[derive(Debug, PartialEq, Eq)]
pub struct Frame {
    pub module: Atom,
    pub definition: Definition,
    pub arity: Arity,
    pub native: Native,
}

/// A frame with the arguments that its native code is to be called with.
#[derive(Debug, PartialEq, Eq)]
pub struct FrameWithArguments {
    pub frame: Frame,
    pub uses_returned: bool,
    pub arguments: Vec<Term>,
}

/// The number of arguments that the native code of a closure takes: those of
/// the function, and before them the closure itself where it has captured
/// anything. The count is kept in a byte.
pub open spec fn native_arity_spec(closure: ClosureView) -> int {
    (closure.arity + if closure.env.len() > 0 {
        1int
    } else {
        0int
    }) % 256
}

/// The view of a closure that was just made, with nothing in its environment
/// yet but `nil`.
pub open spec fn fresh_closure_view(
    module: Seq<u8>,
    definition: DefinitionView,
    arity: Arity,
    native: Option<usize>,
    env_len: usize,
) -> ClosureView {
    ClosureView {
        module,
        arity: arity as nat,
        definition,
        native: match native {
            Some(address) => Some(address as nat),
            None => None,
        },
        env: Seq::new(env_len as nat, |i: int| TermView::Nil),
    }
}

/// The view of a closure that was made from a slice of terms.
pub open spec fn closure_view_of(
    module: Seq<u8>,
    definition: DefinitionView,
    arity: Arity,
    native: Option<usize>,
    env: Seq<Term>,
) -> ClosureView {
    ClosureView {
        module,
        arity: arity as nat,
        definition,
        native: match native {
            Some(address) => Some(address as nat),
            None => None,
        },
        env: terms_view(env),
    }
}

impl Closure {
    /// Makes a closure of an anonymous function on `heap`, with room for
    /// `env_len` terms in its environment. Every place of the environment
    /// holds `nil` until the caller writes it.
    pub fn new_anonymous(
        heap: &mut Heap,
        module: Atom,
        index: Index,
        old_unique: OldUnique,
        unique: Unique,
        arity: Arity,
        native: Option<usize>,
        _creator: Creator,
        env_len: usize,
    ) -> (closure: Result<Boxed<Closure>, AllocError>)
        requires
            old(heap).wf(),
            native != Some(0usize),
            closure_size_spec(native_word(), env_len as int) <= isize::MAX,
        ensures
            final(heap).wf(),
            final(heap).capacity() == old(heap).capacity(),
            closure is Ok <==> old(heap).used() + closure_words(env_len as int) <= old(
                heap,
            ).capacity(),
            closure matches Ok(c) ==> {
                &&& c.wf()
                &&& c@ == fresh_closure_view(
                    module@,
                    DefinitionView::Anonymous {
                        index: index as nat,
                        unique: unique@,
                        old_unique: old_unique as nat,
                    },
                    arity,
                    native,
                    env_len,
                )
                &&& c.header.arity_words == closure_words(env_len as int) - 1
                &&& final(heap).used() == old(heap).used() + closure_words(env_len as int)
            },
            closure is Err ==> final(heap).used() == old(heap).used(),
    {
        let definition = Definition::Anonymous { index: index as usize, unique, old_unique };
        Closure::new(heap, module, definition, arity, native, env_len)
    }

    /// Like `new_anonymous`, but for the definition of an export, which
    /// captures nothing.
    pub fn new_export(
        heap: &mut Heap,
        module: Atom,
        function: Atom,
        arity: Arity,
        native: Option<usize>,
    ) -> (closure: Result<Boxed<Closure>, AllocError>)
        requires
            old(heap).wf(),
            native != Some(0usize),
        ensures
            final(heap).wf(),
            final(heap).capacity() == old(heap).capacity(),
            closure is Ok <==> old(heap).used() + closure_words(0) <= old(heap).capacity(),
            closure matches Ok(c) ==> {
                &&& c.wf()
                &&& c@ == fresh_closure_view(
                    module@,
                    DefinitionView::Export { function: function@ },
                    arity,
                    native,
                    0,
                )
                &&& c.header.arity_words == closure_words(0) - 1
                &&& final(heap).used() == old(heap).used() + closure_words(0)
            },
            closure is Err ==> final(heap).used() == old(heap).used(),
    {
        proof {
            lemma_word_is_pow2();
            crate::closure_layout::lemma_closure_fields_32bit(0);
            crate::closure_layout::lemma_closure_fields_64bit(0);
        }
        let definition = Definition::Export { function };
        Closure::new(heap, module, definition, arity, native, 0)
    }

    /// Makes a closure on `heap` with room for `env_len` terms.
    pub fn new(
        heap: &mut Heap,
        module: Atom,
        definition: Definition,
        arity: Arity,
        native: Option<usize>,
        env_len: usize,
    ) -> (closure: Result<Boxed<Closure>, AllocError>)
        requires
            old(heap).wf(),
            native != Some(0usize),
            closure_size_spec(native_word(), env_len as int) <= isize::MAX,
        ensures
            final(heap).wf(),
            final(heap).capacity() == old(heap).capacity(),
            closure is Ok <==> old(heap).used() + closure_words(env_len as int) <= old(
                heap,
            ).capacity(),
            closure matches Ok(c) ==> {
                &&& c.wf()
                &&& c@ == fresh_closure_view(module@, definition@, arity, native, env_len)
                &&& c.header.arity_words == closure_words(env_len as int) - 1
                &&& final(heap).used() == old(heap).used() + closure_words(env_len as int)
            },
            closure is Err ==> final(heap).used() == old(heap).used(),
    {
        let header = match alloc_closure(heap, env_len) {
            Ok(header) => header,
            Err(e) => {
                return Err(e);
            },
        };
        let mut env: Vec<Term> = Vec::with_capacity(env_len);
        let mut i: usize = 0;
        while i < env_len
            invariant
                i <= env_len,
                env@.len() == i,
                forall|j: int| 0 <= j < i ==> (#[trigger] env@[j]) == Term::Nil,
            decreases env_len - i,
        {
            env.push(Term::Nil);
            i += 1;
        }
        let closure = Closure { header, module, arity: arity as u32, definition, native, env };
        proof {
            lemma_terms_view(closure.env@);
            assert(closure@.env =~= Seq::new(env_len as nat, |i: int| TermView::Nil));
        }
        Ok(Box::new(closure))
    }

    /// Makes a closure of an anonymous function on `heap` and copies each
    /// term of `env` into its environment, the objects of those terms onto
    /// the same heap after the closure.
    pub fn from_slice(
        heap: &mut Heap,
        module: Atom,
        index: Index,
        old_unique: OldUnique,
        unique: Unique,
        arity: Arity,
        native: Option<usize>,
        _creator: Creator,
        env: &[Term],
    ) -> (closure: Result<Boxed<Closure>, AllocError>)
        requires
            old(heap).wf(),
            native != Some(0usize),
            closure_size_spec(native_word(), env@.len() as int) <= isize::MAX,
            terms_wf(env@),
        ensures
            final(heap).wf(),
            final(heap).capacity() == old(heap).capacity(),
            old(heap).used() <= final(heap).used(),
            closure is Ok <==> old(heap).used() + closure_words(env@.len() as int)
                + sum_size_in_words(env@, env@.len() as int) <= old(heap).capacity(),
            closure matches Ok(c) ==> {
                &&& c.wf()
                &&& c@ == closure_view_of(
                    module@,
                    DefinitionView::Anonymous {
                        index: index as nat,
                        unique: unique@,
                        old_unique: old_unique as nat,
                    },
                    arity,
                    native,
                    env@,
                )
                &&& same_terms(c.env@, env@)
                &&& c.header.arity_words == closure_words(env@.len() as int) - 1
                &&& final(heap).used() == old(heap).used() + closure_size_in_words(&*c)
            },
    {
        let definition = Definition::Anonymous { index: index as usize, unique, old_unique };
        Closure::new_from_slice(heap, module, definition, arity, native, env)
    }

    /// Makes a closure on `heap` and copies each term of `env` into its
    /// environment.
    pub fn new_from_slice(
        heap: &mut Heap,
        module: Atom,
        definition: Definition,
        arity: Arity,
        native: Option<usize>,
        env: &[Term],
    ) -> (closure: Result<Boxed<Closure>, AllocError>)
        requires
            old(heap).wf(),
            native != Some(0usize),
            closure_size_spec(native_word(), env@.len() as int) <= isize::MAX,
            terms_wf(env@),
        ensures
            final(heap).wf(),
            final(heap).capacity() == old(heap).capacity(),
            old(heap).used() <= final(heap).used(),
            closure is Ok <==> old(heap).used() + closure_words(env@.len() as int)
                + sum_size_in_words(env@, env@.len() as int) <= old(heap).capacity(),
            closure matches Ok(c) ==> {
                &&& c.wf()
                &&& c@ == closure_view_of(module@, definition@, arity, native, env@)
                &&& same_terms(c.env@, env@)
                &&& c.header.arity_words == closure_words(env@.len() as int) - 1
                &&& final(heap).used() == old(heap).used() + closure_size_in_words(&*c)
            },
    {
        proof {
            heap.lemma_wf();
            lemma_sum_size_nonnegative(env@, env@.len() as int);
        }
        let header = match alloc_closure(heap, env.len()) {
            Ok(header) => header,
            Err(e) => {
                return Err(e);
            },
        };
        proof {
            heap.lemma_wf();
        }
        match clone_terms(env, heap) {
            Ok(copies) => {
                proof {
                    crate::copy::lemma_same_terms(copies@, env@, env@.len() as int);
                }
                Ok(
                    Box::new(
                        Closure {
                            header,
                            module,
                            arity: arity as u32,
                            definition,
                            native,
                            env: copies,
                        },
                    ),
                )
            },
            Err(e) => Err(e),
        }
    }

    /// The number of words in the fixed fields of a closure, header
    /// included.
    pub fn base_size_words() -> (words: usize)
        ensures
            words == base_size_words_spec(),
            words == 9 || words == 11,
    {
        proof {
            lemma_word_is_pow2();
            crate::closure_layout::lemma_closure_fields_32bit(0);
            crate::closure_layout::lemma_closure_fields_64bit(0);
        }
        ClosureLayout::base_size() / native_word_size()
    }

    /// The number of terms in the environment of the closure whose header
    /// is `header`: what the arity tells beyond the fixed fields.
    pub fn env_len_of(header: Header) -> (env_len: usize)
        requires
            header.arity_words >= base_size_words_spec() - 1,
        ensures
            env_len == header.arity_words - (base_size_words_spec() - 1),
    {
        header.arity_words - (Closure::base_size_words() - 1)
    }

    /// The header of the closure.
    pub fn header(&self) -> (header: Header)
        ensures
            header == self.header,
            self.wf() ==> header.arity_words == closure_words(self.env@.len() as int) - 1,
    {
        proof {
            lemma_object_words(&Term::Closure(Box::new(*self)));
        }
        self.header
    }

    /// The number of arguments of the function.
    pub fn arity(&self) -> (arity: Arity)
        requires
            self.wf(),
        ensures
            arity == self@.arity,
    {
        self.arity as Arity
    }

    /// What the closure calls.
    pub fn definition(&self) -> (definition: &Definition)
        ensures
            definition@ == self@.definition,
    {
        &self.definition
    }

    /// The address of the native code of the closure.
    pub fn native(&self) -> (address: usize)
        requires
            self.native is Some,
        ensures
            Some(address as nat) == self@.native,
    {
        match self.native {
            Some(address) => address,
            None => vstd::pervasive::unreached(),
        }
    }

    /// The number of arguments that the native code takes: those of the
    /// function, and before them the closure itself where the environment is
    /// not empty.
    pub fn native_arity(&self) -> (arity: Arity)
        requires
            self.wf(),
        ensures
            arity == native_arity_spec(self@),
    {
        let closure_term_arity: u32 = if self.env_len() > 0 {
            1
        } else {
            0
        };
        let sum: u32 = closure_term_arity + self.arity;
        proof {
            assert(#[verifier::truncate] (sum as u8) == sum % 256) by (bit_vector);
        }
        #[verifier::truncate]
        (sum as Arity)
    }

    /// The frame that runs the closure.
    pub fn frame(&self) -> (frame: Frame)
        requires
            self.wf(),
            self.native is Some,
        ensures
            frame.module@ == self@.module,
            frame.definition@ == self@.definition,
            frame.arity == self@.arity,
            Some(frame.native.address as nat) == self@.native,
            frame.native.arity == native_arity_spec(self@),
    {
        Frame {
            module: self.module.duplicate(),
            definition: self.definition.duplicate(),
            arity: self.arity as u8,
            native: Native { address: self.native(), arity: self.native_arity() },
        }
    }

    /// Module, function and arity of the closure.
    pub fn module_function_arity(&self) -> (mfa: ModuleFunctionArity)
        requires
            self.wf(),
        ensures
            mfa.module@ == self@.module,
            mfa.function@ == function_name_spec(self@.definition),
            mfa.arity == self@.arity,
    {
        ModuleFunctionArity {
            module: self.module.duplicate(),
            function: self.function(),
            arity: self.arity as u8,
        }
    }

    /// The frame that runs the closure on `arguments`: the closure itself
    /// comes before them exactly when its environment is not empty.
    pub fn frame_with_arguments(&self, uses_returned: bool, arguments: Vec<Term>) -> (frame:
        FrameWithArguments)
        requires
            self.wf(),
            self.native is Some,
        ensures
            frame.frame.module@ == self@.module,
            frame.frame.definition@ == self@.definition,
            frame.frame.arity == self@.arity,
            Some(frame.frame.native.address as nat) == self@.native,
            frame.frame.native.arity == native_arity_spec(self@),
            frame.uses_returned == uses_returned,
            self@.env.len() == 0 ==> frame.arguments@ == arguments@,
            self@.env.len() > 0 ==> {
                &&& frame.arguments@.len() == arguments@.len() + 1
                &&& frame.arguments@[0]@ == TermView::Closure(self@)
                &&& frame.arguments@.subrange(1, frame.arguments@.len() as int) == arguments@
            },
    {
        let mut arguments = arguments;
        let mut full_arguments: Vec<Term> = Vec::with_capacity(self.native_arity() as usize);
        if self.env_len() > 0 {
            full_arguments.push(Term::Closure(Box::new(self.duplicate())));
        }
        let ghost given = arguments@;
        full_arguments.append(&mut arguments);
        proof {
            lemma_terms_view(self.env@);
            if self.env@.len() > 0 {
                assert(full_arguments@.subrange(1, full_arguments@.len() as int) =~= given);
            } else {
                assert(full_arguments@ =~= given);
            }
        }
        FrameWithArguments { frame: self.frame(), uses_returned, arguments: full_arguments }
    }

    /// The module of the closure.
    pub fn module(&self) -> (module: Atom)
        ensures
            module@ == self@.module,
    {
        self.module.duplicate()
    }

    /// The name of the function of the closure.
    pub fn function(&self) -> (function: Atom)
        ensures
            function@ == function_name_spec(self@.definition),
    {
        self.definition.function_name()
    }

    /// The address of the native code of the closure, if it has any.
    pub fn native_address(&self) -> (address: Option<usize>)
        ensures
            address == self.native,
    {
        self.native
    }

    /// The number of terms in the environment. For a well-formed closure it
    /// is what the header tells beyond the fixed fields.
    pub fn env_len(&self) -> (env_len: usize)
        ensures
            env_len == self@.env.len(),
            self.wf() ==> env_len == self.header.arity_words - (base_size_words_spec() - 1),
    {
        proof {
            lemma_terms_view(self.env@);
        }
        self.env.len()
    }

    /// The environment of the closure.
    pub fn env_slice(&self) -> (env: &[Term])
        ensures
            env@ == self.env@,
    {
        self.env.as_slice()
    }

    /// The terms of the environment, one after another.
    pub fn env_iter<'a>(&'a self) -> (iter: core::slice::Iter<'a, Term>)
        ensures
            vstd::std_specs::iter::IteratorSpec::remaining(&iter) == self.env@.as_ref(),
    {
        broadcast use vstd::std_specs::slice::axiom_spec_slice_iter;

        self.env.as_slice().iter()
    }

    /// The environment of the closure, to be written. The closure stays well
    /// formed where the terms written are well formed and none is added or
    /// taken away.
    pub fn env_slice_mut(&mut self) -> (env: &mut [Term])
        ensures
            env@ == old(self).env@,
            final(self).env@ == final(env)@,
            final(self).header == old(self).header,
            final(self).module == old(self).module,
            final(self).arity == old(self).arity,
            final(self).definition == old(self).definition,
            final(self).native == old(self).native,
    {
        self.env.as_mut_slice()
    }

    /// The term at place `idx` of the environment.
    pub fn get_env_element(&self, idx: usize) -> (element: &Term)
        requires
            idx < self.env@.len(),
        ensures
            *element == self.env@[idx as int],
            element@ == self@.env[idx as int],
    {
        proof {
            lemma_terms_view(self.env@);
        }
        &self.env[idx]
    }

    /// Writes `term` at place `idx` of the environment.
    pub fn set_env_element(&mut self, idx: usize, term: Term)
        requires
            old(self).wf(),
            term.wf(),
            idx < old(self).env@.len(),
        ensures
            final(self).wf(),
            final(self).env@ == old(self).env@.update(idx as int, term),
            final(self)@ == (ClosureView {
                env: old(self)@.env.update(idx as int, term@),
                ..old(self)@
            }),
            final(self).header == old(self).header,
    {
        proof {
            lemma_terms_view(self.env@);
        }
        let ghost before = self.env@;
        self.env[idx] = term;
        proof {
            lemma_terms_view(self.env@);
            assert(self@.env =~= old(self)@.env.update(idx as int, term@));
            assert forall|i: int| 0 <= i < self.env@.len() implies term_wf(
                #[trigger] &self.env@[i],
            ) by {
                if i != idx {
                    assert(term_wf(&before[i]));
                }
            }
        }
    }

    /// The closure of a term that is one.
    pub fn try_from(term: Term) -> (closure: Result<Boxed<Closure>, TypeError>)
        ensures
            closure is Ok <==> term is Closure,
            closure matches Ok(c) ==> term == Term::Closure(c),
    {
        match term {
            Term::Closure(closure) => Ok(closure),
            _ => Err(TypeError {  }),
        }
    }
}

/// Takes the room for a closure with `env_len` terms on `heap` and returns
/// the header of the closure: its arity is the size of the layout in words,
/// less one.
fn alloc_closure(heap: &mut Heap, env_len: usize) -> (header: Result<Header, AllocError>)
    requires
        old(heap).wf(),
        closure_size_spec(native_word(), env_len as int) <= isize::MAX,
    ensures
        final(heap).wf(),
        final(heap).capacity() == old(heap).capacity(),
        header is Ok <==> old(heap).used() + closure_words(env_len as int) <= old(heap).capacity(),
        header matches Ok(h) ==> {
            &&& h.kind == Kind::Closure
            &&& h.arity_words == closure_words(env_len as int) - 1
            &&& h.arity_words == base_size_words_spec() - 1 + env_len
            &&& final(heap).used() == old(heap).used() + closure_words(env_len as int)
        },
        header is Err ==> final(heap).used() == old(heap).used(),
{
    let word = native_word_size();
    proof {
        lemma_word_is_pow2();
        crate::closure_layout::lemma_closure_fields_32bit(env_len as int);
        crate::closure_layout::lemma_closure_fields_64bit(env_len as int);
        crate::closure_layout::lemma_closure_fields_32bit(0);
        crate::closure_layout::lemma_closure_fields_64bit(0);
    }
    let closure_layout = ClosureLayout::for_env_len(env_len);
    let layout = *closure_layout.layout();
    let header_arity = crate::utils::divide_round_up(layout.size() - word, word);
    proof {
        let n = env_len as int;
        if word == 4 {
            assert(layout.size() == 44 + 4 * n);
            assert((11 + n) * 4 + 0 == 44 + 4 * n) by (nonlinear_arith);
            assert((10 + n) * 4 + 3 == 44 + 4 * n - 1) by (nonlinear_arith);
            vstd::arithmetic::div_mod::lemma_fundamental_div_mod_converse(44 + 4 * n, 4, 11 + n, 0);
            vstd::arithmetic::div_mod::lemma_fundamental_div_mod_converse(
                44 + 4 * n - 1,
                4,
                10 + n,
                3,
            );
        } else {
            assert(layout.size() == 72 + 8 * n);
            assert((9 + n) * 8 + 0 == 72 + 8 * n) by (nonlinear_arith);
            assert((8 + n) * 8 + 7 == 72 + 8 * n - 1) by (nonlinear_arith);
            vstd::arithmetic::div_mod::lemma_fundamental_div_mod_converse(72 + 8 * n, 8, 9 + n, 0);
            vstd::arithmetic::div_mod::lemma_fundamental_div_mod_converse(
                72 + 8 * n - 1,
                8,
                8 + n,
                7,
            );
        }
    }
    match crate::heap::alloc_object(heap, layout) {
        Ok(_) => Ok(Header { kind: Kind::Closure, arity_words: header_arity }),
        Err(e) => Err(e),
    }
}

} // verus!
