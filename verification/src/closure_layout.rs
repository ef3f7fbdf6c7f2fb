//! Where the fields of a closure lie in memory, for a 32-bit and for a 64-bit
//! target, and the size queries that generated code makes.
//!
//! A closure is a record of a header word, the module atom, the 32-bit arity,
//! the definition, the nullable native entry pointer and the environment, one
//! term per word. Each field follows the one before at its natural alignment,
//! and the record is padded to its own alignment.

use vstd::prelude::*;
use crate::layout::{extend_size, max_align, valid_size_align, Layout, LayoutError};
use crate::utils::round_up_spec;

verus! {

/// Size and field offsets of a closure, in bytes.
pub struct ClosureFields {
    pub size: int,
    pub align: int,
    pub module_offset: int,
    pub arity_offset: int,
    pub definition_offset: int,
    pub native_offset: int,
    pub env_offset: int,
}

/// Size of the payload of an anonymous definition: the index, one word; the
/// sixteen bytes of the unique; the 32-bit old unique; padded to a word.
pub open spec fn anonymous_payload_size(word: int) -> int {
    round_up_spec(extend_size(extend_size(word, 16, 1), 4, 4), max_align(word, 4))
}

/// Size of a definition: a 32-bit tag, then room for either payload, the
/// function atom of an export being one word.
pub open spec fn definition_size(word: int) -> int {
    let payload = round_up_spec(
        max_align(word, anonymous_payload_size(word)),
        max_align(word, 4),
    );
    round_up_spec(extend_size(4, payload, max_align(word, 4)), max_align(word, 4))
}

/// Alignment of a definition.
pub open spec fn definition_align(word: int) -> int {
    max_align(word, 4)
}

/// The fields of a closure with `env_len` environment slots, for a target
/// whose words have `word` bytes.
pub open spec fn closure_fields(word: int, env_len: int) -> ClosureFields {
    let align = max_align(max_align(word, 4), definition_align(word));
    let module_offset = round_up_spec(word, word);
    let arity_offset = round_up_spec(module_offset + word, 4);
    let definition_offset = round_up_spec(arity_offset + 4, definition_align(word));
    let native_offset = round_up_spec(definition_offset + definition_size(word), word);
    let env_offset = round_up_spec(native_offset + word, word);
    ClosureFields {
        size: round_up_spec(env_offset + word * env_len, align),
        align,
        module_offset,
        arity_offset,
        definition_offset,
        native_offset,
        env_offset,
    }
}

/// Size in bytes of a closure with `env_len` environment slots.
pub open spec fn closure_size_spec(word: int, env_len: int) -> int {
    closure_fields(word, env_len).size
}

/// Size in bytes of a closure without environment.
pub open spec fn base_size_spec(word: int) -> int {
    closure_size_spec(word, 0)
}

/// The 32-bit layout: 44 bytes of fixed fields, then four bytes per slot.
pub proof fn lemma_closure_fields_32bit(env_len: int)
    requires
        0 <= env_len,
    ensures
        definition_size(4) == 28,
        closure_fields(4, env_len) == (ClosureFields {
            size: 44 + 4 * env_len,
            align: 4,
            module_offset: 4,
            arity_offset: 8,
            definition_offset: 12,
            native_offset: 40,
            env_offset: 44,
        }),
{
    assert(anonymous_payload_size(4) == 24);
    assert(definition_size(4) == 28);
    assert((44 + 4 * env_len) % 4 == 0);
}

/// The 64-bit layout: 72 bytes of fixed fields, then eight bytes per slot.
pub proof fn lemma_closure_fields_64bit(env_len: int)
    requires
        0 <= env_len,
    ensures
        definition_size(8) == 40,
        closure_fields(8, env_len) == (ClosureFields {
            size: 72 + 8 * env_len,
            align: 8,
            module_offset: 8,
            arity_offset: 16,
            definition_offset: 24,
            native_offset: 64,
            env_offset: 72,
        }),
{
    assert(extend_size(8, 16, 1) == 24);
    assert(extend_size(24, 4, 4) == 28);
    assert(round_up_spec(28, 8) == 32);
    assert(anonymous_payload_size(8) == 32);
    assert(definition_size(8) == 40);
    assert((72 + 8 * env_len) % 8 == 0);
}

/// Layout determinism: the size and the offsets depend on the word size and
/// the number of environment slots alone, and grow by one word per slot.
pub proof fn lemma_closure_size_linear(word: int, env_len: int)
    requires
        word == 4 || word == 8,
        0 <= env_len,
    ensures
        closure_size_spec(word, env_len) == base_size_spec(word) + word * env_len,
        closure_size_spec(word, env_len) % word == 0,
        closure_fields(word, env_len).env_offset == base_size_spec(word),
{
    if word == 4 {
        lemma_closure_fields_32bit(env_len);
        lemma_closure_fields_32bit(0);
    } else {
        lemma_closure_fields_64bit(env_len);
        lemma_closure_fields_64bit(0);
    }
}

/// The layout of a closure together with the offsets of its fields.
#[derive(Clone, Copy, Debug, PartialEq, Eq)]
pub struct ClosureLayout {
    layout: Layout,
    module_offset: usize,
    arity_offset: usize,
    definition_offset: usize,
    native_offset: usize,
    env_offset: usize,
}

impl View for ClosureLayout {
    type V = ClosureFields;

    closed spec fn view(&self) -> ClosureFields {
        ClosureFields {
            size: self.layout.size() as int,
            align: self.layout.align() as int,
            module_offset: self.module_offset as int,
            arity_offset: self.arity_offset as int,
            definition_offset: self.definition_offset as int,
            native_offset: self.native_offset as int,
            env_offset: self.env_offset as int,
        }
    }
}

/// The number of bytes in a word of the machine that runs this code.
pub open spec fn native_word() -> int {
    usize::BITS as int / 8
}

/// The number of bytes in a word of the machine that runs this code.
pub fn native_word_size() -> (word: usize)
    ensures
        word == native_word(),
        word == 4 || word == 8,
{
    (usize::BITS / 8) as usize
}

/// The layout of a definition for a target with `word`-byte words.
fn definition_layout(word: usize) -> (layout: Layout)
    requires
        word == 4 || word == 8,
    ensures
        layout.size() == definition_size(word as int),
        layout.align() == definition_align(word as int),
{
    proof {
        reveal_pow2_small();
    }
    let tag = ok_layout(4, 4);
    let export = ok_layout(word, word);
    let index = ok_layout(word, word);
    let unique = ok_layout(16, 1);
    let old_unique = ok_layout(4, 4);
    let anonymous = ok_extend(&ok_extend(&index, unique).0, old_unique).0.pad_to_align();
    let payload = match export.union_with(anonymous) {
        Ok(l) => l,
        Err(_) => export,
    };
    ok_extend(&tag, payload).0.pad_to_align()
}

/// The small powers of two that field alignments take.
proof fn reveal_pow2_small()
    ensures
        vstd::arithmetic::power2::is_pow2(1),
        vstd::arithmetic::power2::is_pow2(4),
        vstd::arithmetic::power2::is_pow2(8),
{
    reveal_with_fuel(vstd::arithmetic::power2::is_pow2, 5);
}

/// A layout known to exist.
fn ok_layout(size: usize, align: usize) -> (layout: Layout)
    requires
        valid_size_align(size as int, align as int),
    ensures
        layout.size() == size,
        layout.align() == align,
{
    match Layout::from_size_align(size, align) {
        Ok(l) => l,
        Err(_) => vstd::pervasive::unreached(),
    }
}

/// An extension known to exist.
fn ok_extend(first: &Layout, next: Layout) -> (extended: (Layout, usize))
    requires
        valid_size_align(
            extend_size(first.size() as int, next.size() as int, next.align() as int),
            max_align(first.align() as int, next.align() as int),
        ),
    ensures
        extended.1 == round_up_spec(first.size() as int, next.align() as int),
        extended.0.size() == extended.1 + next.size(),
        extended.0.align() == max_align(first.align() as int, next.align() as int),
{
    match first.extend(next) {
        Ok(pair) => pair,
        Err(_) => vstd::pervasive::unreached(),
    }
}

impl ClosureLayout {
    /// The layout of the whole closure.
    pub fn layout(&self) -> (layout: &Layout)
        ensures
            layout.size() == self@.size,
            layout.align() == self@.align,
    {
        &self.layout
    }

    /// Offset of the module atom.
    pub fn module_offset(&self) -> (offset: usize)
        ensures
            offset == self@.module_offset,
    {
        self.module_offset
    }

    /// Offset of the 32-bit arity.
    pub fn arity_offset(&self) -> (offset: usize)
        ensures
            offset == self@.arity_offset,
    {
        self.arity_offset
    }

    /// Offset of the definition.
    pub fn definition_offset(&self) -> (offset: usize)
        ensures
            offset == self@.definition_offset,
    {
        self.definition_offset
    }

    /// Offset of the native entry pointer.
    pub fn native_offset(&self) -> (offset: usize)
        ensures
            offset == self@.native_offset,
    {
        self.native_offset
    }

    /// Offset of the first environment slot.
    pub fn env_offset(&self) -> (offset: usize)
        ensures
            offset == self@.env_offset,
    {
        self.env_offset
    }

    /// The layout of a closure with `env_len` environment slots for a target
    /// with `word`-byte words, or an error where its size would exceed
    /// `isize::MAX`.
    pub fn for_target(word: usize, env_len: usize) -> (layout: Result<ClosureLayout, LayoutError>)
        requires
            word == 4 || word == 8,
        ensures
            layout is Ok <==> closure_size_spec(word as int, env_len as int) <= isize::MAX,
            layout matches Ok(l) ==> l@ == closure_fields(word as int, env_len as int),
    {
        proof {
            reveal_pow2_small();
            lemma_closure_fields_32bit(env_len as int);
            lemma_closure_fields_64bit(env_len as int);
        }
        let header = ok_layout(word, word);
        let atom = ok_layout(word, word);
        let arity = ok_layout(4, 4);
        let definition = definition_layout(word);
        let native = ok_layout(word, word);
        let (layout, module_offset) = ok_extend(&header, atom);
        let (layout, arity_offset) = ok_extend(&layout, arity);
        let (layout, definition_offset) = ok_extend(&layout, definition);
        let (layout, native_offset) = ok_extend(&layout, native);
        let env = match Layout::array(word, word, env_len) {
            Ok(env) => env,
            Err(e) => {
                assert(word * env_len > isize::MAX);
                return Err(e);
            },
        };
        match layout.extend(env) {
            Ok((layout, env_offset)) => Ok(
                ClosureLayout {
                    layout: layout.pad_to_align(),
                    module_offset,
                    arity_offset,
                    definition_offset,
                    native_offset,
                    env_offset,
                },
            ),
            Err(e) => Err(e),
        }
    }

    /// The layout of a closure whose environment holds the terms of `env`,
    /// on the machine that runs this code.
    pub fn for_env(env: &[crate::term::Term]) -> (layout: ClosureLayout)
        requires
            closure_size_spec(native_word(), env@.len() as int) <= isize::MAX,
        ensures
            layout@ == closure_fields(native_word(), env@.len() as int),
    {
        ClosureLayout::for_env_len(env.len())
    }

    /// The layout of a closure with `env_len` environment slots on the
    /// machine that runs this code.
    pub fn for_env_len(env_len: usize) -> (layout: ClosureLayout)
        requires
            closure_size_spec(native_word(), env_len as int) <= isize::MAX,
        ensures
            layout@ == closure_fields(native_word(), env_len as int),
    {
        match ClosureLayout::for_target(native_word_size(), env_len) {
            Ok(layout) => layout,
            Err(_) => vstd::pervasive::unreached(),
        }
    }

    /// Size of a closure without environment on the machine that runs this
    /// code.
    pub fn base_size() -> (size: usize)
        ensures
            size == base_size_spec(native_word()),
    {
        if native_word_size() == 8 {
            ClosureLayout::base_size_64bit()
        } else {
            ClosureLayout::base_size_32bit()
        }
    }

    /// The layout of the fixed fields of a closure on a 32-bit target.
    pub fn base_layout_32bit() -> (layout: Layout)
        ensures
            layout.size() == base_size_spec(4) == 44,
            layout.align() == 4,
    {
        ClosureLayout::layout_32bit(0)
    }

    /// The layout of a closure with `env_len` environment slots on a 32-bit
    /// target.
    pub fn layout_32bit(env_len: usize) -> (layout: Layout)
        requires
            closure_size_spec(4, env_len as int) <= isize::MAX,
        ensures
            layout.size() == closure_size_spec(4, env_len as int) == 44 + 4 * env_len,
            layout.align() == 4,
    {
        proof {
            lemma_closure_fields_32bit(env_len as int);
        }
        match ClosureLayout::for_target(4, env_len) {
            Ok(l) => *l.layout(),
            Err(_) => vstd::pervasive::unreached(),
        }
    }

    /// Size of a closure without environment on a 32-bit target.
    pub fn base_size_32bit() -> (size: usize)
        ensures
            size == base_size_spec(4) == 44,
    {
        ClosureLayout::base_layout_32bit().size()
    }

    /// The layout of the fixed fields of a closure on a 64-bit target.
    pub fn base_layout_64bit() -> (layout: Layout)
        ensures
            layout.size() == base_size_spec(8) == 72,
            layout.align() == 8,
    {
        ClosureLayout::layout_64bit(0)
    }

    /// The layout of a closure with `env_len` environment slots on a 64-bit
    /// target.
    pub fn layout_64bit(env_len: usize) -> (layout: Layout)
        requires
            closure_size_spec(8, env_len as int) <= isize::MAX,
        ensures
            layout.size() == closure_size_spec(8, env_len as int) == 72 + 8 * env_len,
            layout.align() == 8,
    {
        proof {
            lemma_closure_fields_64bit(env_len as int);
        }
        match ClosureLayout::for_target(8, env_len) {
            Ok(l) => *l.layout(),
            Err(_) => vstd::pervasive::unreached(),
        }
    }

    /// Size of a closure without environment on a 64-bit target.
    pub fn base_size_64bit() -> (size: usize)
        ensures
            size == base_size_spec(8) == 72,
    {
        ClosureLayout::base_layout_64bit().size()
    }
}

/// Size in bytes of a closure with `env_len` environment slots on a target
/// whose pointers have `pointer_width` bits, as generated code asks for it:
/// the low 32 bits of the size.
pub fn closure_size(pointer_width: u32, env_len: u32) -> (size: u32)
    requires
        pointer_width == 32 || pointer_width == 64,
        closure_size_spec(pointer_width as int / 8, env_len as int) <= isize::MAX,
    ensures
        size == closure_size_spec(pointer_width as int / 8, env_len as int) % 0x1_0000_0000,
{
    let layout = if pointer_width == 64 {
        ClosureLayout::layout_64bit(env_len as usize)
    } else {
        ClosureLayout::layout_32bit(env_len as usize)
    };
    let bytes = layout.size() as u64;
    proof {
        assert(#[verifier::truncate] (bytes as u32) == bytes % 0x1_0000_0000) by (bit_vector);
    }
    #[verifier::truncate]
    (bytes as u32)
}

} // verus!
