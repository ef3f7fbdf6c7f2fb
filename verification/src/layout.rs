//! Byte layouts: size and alignment of a block of memory, and the rule by
//! which a record of fields is laid out one field after another, each at its
//! natural alignment.

use vstd::prelude::*;
use vstd::arithmetic::power2::is_pow2;
use crate::utils::{lemma_pow2_single_bit, lemma_round_up_is_multiple, round_up_spec};

verus! {

/// The layout that was asked for cannot be described: its size, rounded up to
/// its alignment, would exceed `isize::MAX`.
#[derive(Clone, Copy, Debug, PartialEq, Eq)]
pub struct LayoutError {}

/// Size and alignment of a block of memory, in bytes.
///
/// The alignment is a power of two, and the size rounded up to the alignment
/// does not exceed `isize::MAX`.
#[derive(Clone, Copy, Debug, PartialEq, Eq)]
pub struct Layout {
    size: usize,
    align: usize,
}

/// Whether `size` and `align` describe a block of memory.
pub open spec fn valid_size_align(size: int, align: int) -> bool {
    &&& 0 <= size
    &&& is_pow2(align)
    &&& round_up_spec(size, align) <= isize::MAX
}

/// The larger of two alignments.
pub open spec fn max_align(a: int, b: int) -> int {
    if a >= b {
        a
    } else {
        b
    }
}

/// Size of the record made of a block of `size` bytes followed by a field of
/// `next_size` bytes aligned to `next_align`, without trailing padding.
pub open spec fn extend_size(size: int, next_size: int, next_align: int) -> int {
    round_up_spec(size, next_align) + next_size
}

/// A power of two that fits in `usize` is at most `isize::MAX + 1`.
pub proof fn lemma_pow2_bounded(align: usize)
    requires
        is_pow2(align as int),
    ensures
        1 <= align <= isize::MAX + 1,
{
    lemma_pow2_single_bit(align);
    let mask: usize = (align - 1) as usize;
    let both: usize = align | mask;
    assert(both == align + mask) by (bit_vector)
        requires
            align != 0,
            mask == align - 1,
            align & mask == 0,
            both == align | mask,
    ;
}

/// The larger of two powers of two is a multiple of the smaller.
pub proof fn lemma_pow2_divides(small: int, large: int)
    requires
        is_pow2(small),
        is_pow2(large),
        small <= large,
    ensures
        large % small == 0,
    decreases large,
{
    reveal(is_pow2);
    if small != large && small != 1 {
        lemma_pow2_divides(small / 2, large / 2);
        let s = small / 2;
        let l = large / 2;
        vstd::arithmetic::div_mod::lemma_fundamental_div_mod(l, s);
        let q = l / s;
        assert(large == q * small) by (nonlinear_arith)
            requires
                l == s * q,
                large == 2 * l,
                small == 2 * s,
        ;
        vstd::arithmetic::div_mod::lemma_mod_multiples_basic(q, small);
    }
}

impl Layout {
    #[verifier::type_invariant]
    spec fn inv(self) -> bool {
        valid_size_align(self.size as int, self.align as int)
    }

    /// The size of the block, in bytes.
    pub closed spec fn spec_size(&self) -> usize {
        self.size
    }

    /// The alignment of the block, in bytes.
    pub closed spec fn spec_align(&self) -> usize {
        self.align
    }

    /// The size of the block, in bytes.
    #[verifier::when_used_as_spec(spec_size)]
    pub fn size(&self) -> (size: usize)
        ensures
            size == self.spec_size(),
            size <= isize::MAX,
            valid_size_align(self.spec_size() as int, self.spec_align() as int),
    {
        proof {
            use_type_invariant(self);
            lemma_pow2_bounded(self.align);
            lemma_round_up_is_multiple(self.size as int, self.align as int);
        }
        self.size
    }

    /// The alignment of the block, in bytes.
    #[verifier::when_used_as_spec(spec_align)]
    pub fn align(&self) -> (align: usize)
        ensures
            align == self.spec_align(),
            is_pow2(align as int),
            1 <= align <= isize::MAX + 1,
            valid_size_align(self.spec_size() as int, self.spec_align() as int),
    {
        proof {
            use_type_invariant(self);
            lemma_pow2_bounded(self.align);
        }
        self.align
    }

    /// The layout of `size` bytes aligned to `align`, if there is one.
    pub fn from_size_align(size: usize, align: usize) -> (layout: Result<Layout, LayoutError>)
        ensures
            layout is Ok <==> valid_size_align(size as int, align as int),
            layout matches Ok(l) ==> l.size() == size && l.align() == align,
    {
        if !crate::utils::is_power_of_two(align) {
            return Err(LayoutError {  });
        }
        proof {
            lemma_pow2_bounded(align);
            lemma_round_up_is_multiple(size as int, align as int);
        }
        let max: usize = isize::MAX as usize;
        if size > max {
            return Err(LayoutError {  });
        }
        let rem = size % align;
        let pad = if rem == 0 {
            0
        } else {
            align - rem
        };
        if pad > max - size {
            return Err(LayoutError {  });
        }
        Ok(Layout { size, align })
    }

    /// The layout of the record that holds `self` followed by `next`, with
    /// the padding that aligns `next` but no trailing padding, and the offset
    /// of `next` within it.
    pub fn extend(&self, next: Layout) -> (extended: Result<(Layout, usize), LayoutError>)
        ensures
            extended is Ok <==> valid_size_align(
                extend_size(self.size() as int, next.size() as int, next.align() as int),
                max_align(self.align() as int, next.align() as int),
            ),
            extended matches Ok((l, offset)) ==> {
                &&& offset == round_up_spec(self.size() as int, next.align() as int)
                &&& l.size() == offset + next.size()
                &&& l.align() == max_align(self.align() as int, next.align() as int)
            },
    {
        proof {
            use_type_invariant(self);
            use_type_invariant(&next);
            lemma_pow2_bounded(self.align);
            lemma_pow2_bounded(next.align);
            lemma_round_up_is_multiple(self.size as int, self.align as int);
            lemma_round_up_is_multiple(next.size as int, next.align as int);
            lemma_round_up_is_multiple(self.size as int, next.align as int);
        }
        let align = if self.align >= next.align {
            self.align
        } else {
            next.align
        };
        let rem = self.size % next.align;
        let offset = if rem == 0 {
            self.size
        } else {
            self.size + (next.align - rem)
        };
        proof {
            lemma_round_up_is_multiple(offset as int + next.size as int, align as int);
        }
        match offset.checked_add(next.size) {
            None => Err(LayoutError {  }),
            Some(size) => match Layout::from_size_align(size, align) {
                Ok(l) => Ok((l, offset)),
                Err(e) => Err(e),
            },
        }
    }

    /// The layout of `self` with the trailing padding that makes its size a
    /// multiple of its alignment.
    pub fn pad_to_align(&self) -> (padded: Layout)
        ensures
            padded.size() == round_up_spec(self.size() as int, self.align() as int),
            padded.align() == self.align(),
            padded.size() % padded.align() == 0,
    {
        proof {
            use_type_invariant(self);
            lemma_pow2_bounded(self.align);
            lemma_round_up_is_multiple(self.size as int, self.align as int);
        }
        let rem = self.size % self.align;
        let size = if rem == 0 {
            self.size
        } else {
            self.size + (self.align - rem)
        };
        proof {
            assert(round_up_spec(size as int, self.align as int) == size);
        }
        Layout { size, align: self.align }
    }

    /// The layout of `count` elements of `element_size` bytes each, aligned to
    /// `align`, which must divide `element_size`.
    pub fn array(element_size: usize, align: usize, count: usize) -> (layout: Result<
        Layout,
        LayoutError,
    >)
        requires
            is_pow2(align as int),
            element_size % align == 0,
        ensures
            layout is Ok <==> element_size * count <= isize::MAX,
            layout matches Ok(l) ==> l.size() == element_size * count && l.align() == align,
    {
        proof {
            lemma_pow2_bounded(align);
        }
        match element_size.checked_mul(count) {
            None => Err(LayoutError {  }),
            Some(size) => {
                proof {
                    // A multiple of `align` rounds up to itself.
                    let q = element_size as int / align as int;
                    vstd::arithmetic::div_mod::lemma_fundamental_div_mod(
                        element_size as int,
                        align as int,
                    );
                    assert(size == (q * count) * align) by (nonlinear_arith)
                        requires
                            size == element_size * count,
                            element_size == align * q,
                    ;
                    vstd::arithmetic::div_mod::lemma_mod_multiples_basic(
                        q * count,
                        align as int,
                    );
                }
                Layout::from_size_align(size, align)
            },
        }
    }

    /// The layout that holds either of two alternatives at the same place: as
    /// large as the larger, aligned as the stricter, and padded.
    pub fn union_with(&self, other: Layout) -> (joined: Result<Layout, LayoutError>)
        ensures
            joined is Ok <==> valid_size_align(
                max_align(self.size() as int, other.size() as int),
                max_align(self.align() as int, other.align() as int),
            ),
            joined matches Ok(l) ==> {
                &&& l.align() == max_align(self.align() as int, other.align() as int)
                &&& l.size() == round_up_spec(
                    max_align(self.size() as int, other.size() as int),
                    l.align() as int,
                )
            },
    {
        let size = if self.size >= other.size {
            self.size
        } else {
            other.size
        };
        let align = if self.align >= other.align {
            self.align
        } else {
            other.align
        };
        match Layout::from_size_align(size, align) {
            Ok(l) => Ok(l.pad_to_align()),
            Err(e) => Err(e),
        }
    }
}

} // verus!
