//! Rounding and alignment arithmetic shared by the allocator and the layout
//! calculator. Addresses are plain `usize` values.

use vstd::prelude::*;
use vstd::arithmetic::power2::is_pow2;

verus! {

/// The least multiple of `base` that is not below `size`.
pub open spec fn round_up_spec(size: int, base: int) -> int {
    if size % base == 0 {
        size
    } else {
        size + base - size % base
    }
}

/// The greatest multiple of `align` that is not above `size`.
pub open spec fn round_down_spec(size: int, align: int) -> int {
    size - size % align
}

/// `x / y`, rounded up.
pub open spec fn divide_round_up_spec(x: int, y: int) -> int {
    (x + (y - 1)) / y
}

/// `round_up_spec` yields a multiple of `base` in `size .. size + base`.
pub proof fn lemma_round_up_is_multiple(size: int, base: int)
    requires
        0 <= size,
        0 < base,
    ensures
        round_up_spec(size, base) % base == 0,
        size <= round_up_spec(size, base) < size + base,
{
    let r = round_up_spec(size, base);
    let q = size / base;
    vstd::arithmetic::div_mod::lemma_fundamental_div_mod(size, base);
    vstd::arithmetic::div_mod::lemma_mod_bound(size, base);
    if size % base != 0 {
        assert(r == (q + 1) * base) by (nonlinear_arith)
            requires
                r == size + base - size % base,
                size == base * q + size % base,
        ;
        vstd::arithmetic::div_mod::lemma_mod_multiples_basic(q + 1, base);
    }
}

/// No multiple of `base` lies between `size` and `round_up_spec(size, base)`.
pub proof fn lemma_round_up_is_least(size: int, base: int, m: int)
    requires
        0 <= size,
        0 < base,
        m % base == 0,
        size <= m,
    ensures
        round_up_spec(size, base) <= m,
{
    let r = round_up_spec(size, base);
    lemma_round_up_is_multiple(size, base);
    if m < r {
        vstd::arithmetic::div_mod::lemma_fundamental_div_mod(m, base);
        vstd::arithmetic::div_mod::lemma_fundamental_div_mod(r, base);
        let a = m / base;
        let b = r / base;
        assert(r - m >= base) by (nonlinear_arith)
            requires
                m == base * a,
                r == base * b,
                m < r,
                0 < base,
        ;
    }
}

/// `divide_round_up_spec` is the least number of `y`-sized pieces that cover `x`.
pub proof fn lemma_divide_round_up_covers(x: int, y: int)
    requires
        0 <= x,
        0 < y,
    ensures
        divide_round_up_spec(x, y) * y >= x,
        (divide_round_up_spec(x, y) - 1) * y < x,
{
    let n = x + y - 1;
    let q = n / y;
    vstd::arithmetic::div_mod::lemma_fundamental_div_mod(n, y);
    assert(0 <= n % y < y) by {
        vstd::arithmetic::div_mod::lemma_mod_bound(n, y);
    }
    assert(q * y == y * q) by (nonlinear_arith);
    assert((q - 1) * y == y * q - y) by (nonlinear_arith);
}

/// A power of two has a single bit set.
pub proof fn lemma_pow2_single_bit(n: usize)
    requires
        is_pow2(n as int),
    ensures
        n != 0,
        n & ((n - 1) as usize) == 0,
    decreases n,
{
    reveal(is_pow2);
    if n == 1 {
        assert(1usize & 0usize == 0) by (bit_vector);
    } else {
        let h: usize = n / 2;
        lemma_pow2_single_bit(h);
        assert(n & ((n - 1) as usize) == 0) by (bit_vector)
            requires
                n % 2 == 0,
                n > 1,
                h == n / 2,
                h & ((h - 1) as usize) == 0,
        ;
    }
}

/// A nonzero value with a single bit set is a power of two.
pub proof fn lemma_single_bit_is_pow2(n: usize)
    requires
        n != 0,
        n & ((n - 1) as usize) == 0,
    ensures
        is_pow2(n as int),
    decreases n,
{
    reveal(is_pow2);
    if n != 1 {
        let h: usize = n / 2;
        assert(n % 2 == 0 && h != 0 && h & ((h - 1) as usize) == 0) by (bit_vector)
            requires
                n != 0,
                n != 1,
                h == n / 2,
                n & ((n - 1) as usize) == 0,
        ;
        lemma_single_bit_is_pow2(h);
    }
}

/// An odd multiple of `d` leaves `d` when divided by `2 * d`.
pub proof fn lemma_odd_multiple(x: int, d: int)
    requires
        0 <= x,
        0 < d,
        x % d == 0,
        (x / d) % 2 == 1,
    ensures
        x % (2 * d) == d,
{
    vstd::arithmetic::div_mod::lemma_mod_breakdown(x, d, 2);
    assert(d * 2 == 2 * d);
    assert(d * 1 == d);
}

/// Masking with a power of two less one takes the remainder.
pub proof fn lemma_mask_is_mod(x: usize, align: usize)
    requires
        is_pow2(align as int),
    ensures
        x & ((align - 1) as usize) == x % align,
    decreases align,
{
    reveal(is_pow2);
    if align == 1 {
        assert(x & 0usize == 0) by (bit_vector);
    } else {
        let h: usize = align / 2;
        let xh: usize = x / 2;
        lemma_mask_is_mod(xh, h);
        let low: usize = xh & ((h - 1) as usize);
        assert(x & ((align - 1) as usize) == 2 * low + x % 2) by (bit_vector)
            requires
                align % 2 == 0,
                align > 1,
                h == align / 2,
                xh == x / 2,
                low == xh & ((h - 1) as usize),
        ;
        vstd::arithmetic::div_mod::lemma_mod_breakdown(x as int, 2, h as int);
    }
}

/// Whether `n` is a power of two.
pub fn is_power_of_two(n: usize) -> (b: bool)
    ensures
        b == is_pow2(n as int),
{
    if n == 0 {
        proof {
            reveal(is_pow2);
        }
        false
    } else {
        let single = n & (n - 1) == 0;
        proof {
            if single {
                lemma_single_bit_is_pow2(n);
            } else if is_pow2(n as int) {
                lemma_pow2_single_bit(n);
            }
        }
        single
    }
}

/// A default good allocation size for a `T`: its size rounded up to its
/// alignment, which for every Rust type is the size itself.
pub fn good_alloc_size<T>() -> (size: usize)
    ensures
        size == round_up_spec(
            vstd::layout::size_of::<T>() as int,
            vstd::layout::align_of::<T>() as int,
        ),
        size == vstd::layout::size_of::<T>(),
{
    broadcast use vstd::layout::align_properties, vstd::layout::align_nonzero;

    round_up_to_multiple_of(core::mem::size_of::<T>(), core::mem::align_of::<T>())
}

/// Like regular division, but rounds up.
pub fn divide_round_up(x: usize, y: usize) -> (q: usize)
    requires
        y > 0,
        x + y - 1 <= usize::MAX,
    ensures
        q == divide_round_up_spec(x as int, y as int),
        q * y >= x,
        (q - 1) * y < x,
{
    proof {
        lemma_divide_round_up_covers(x as int, y as int);
    }
    (x + (y - 1)) / y
}

/// Returns `size` rounded up to a multiple of `base`.
pub fn round_up_to_multiple_of(size: usize, base: usize) -> (rounded: usize)
    requires
        base > 0,
        round_up_spec(size as int, base as int) <= usize::MAX,
    ensures
        rounded == round_up_spec(size as int, base as int),
        rounded % base == 0,
        size <= rounded < size + base,
{
    proof {
        lemma_round_up_is_multiple(size as int, base as int);
    }
    let rem = size % base;
    if rem == 0 {
        size
    } else {
        size + (base - rem)
    }
}

/// Rounds up `size` to a multiple of `align`, which must be a power of two.
pub fn round_up_to_alignment(size: usize, align: usize) -> (rounded: usize)
    requires
        is_pow2(align as int),
        round_up_spec(size as int, align as int) <= usize::MAX,
    ensures
        rounded == round_up_spec(size as int, align as int),
        rounded % align == 0,
        size <= rounded < size + align,
{
    proof {
        lemma_pow2_single_bit(align);
    }
    round_up_to_multiple_of(size, align)
}

/// Rounds down `size` to a multiple of `align`, which must be a power of two.
pub fn round_down_to_alignment(size: usize, align: usize) -> (rounded: usize)
    requires
        is_pow2(align as int),
    ensures
        rounded == round_down_spec(size as int, align as int),
        rounded % align == 0,
        rounded <= size < rounded + align,
{
    proof {
        lemma_pow2_single_bit(align);
        lemma_mask_is_mod(size, align);
        let mask: usize = (align - 1) as usize;
        assert(size & !mask == size - (size & mask)) by (bit_vector);
        vstd::arithmetic::div_mod::lemma_fundamental_div_mod(size as int, align as int);
        vstd::arithmetic::div_mod::lemma_mod_multiples_basic(
            size as int / align as int,
            align as int,
        );
        assert(align * (size as int / align as int) == (size as int / align as int) * align)
            by (nonlinear_arith);
    }
    size & !(align - 1)
}

/// Shifts the given address up to the next nearest aligned byte.
pub fn align_up_to(addr: usize, align: usize) -> (aligned: usize)
    requires
        is_pow2(align as int),
        round_up_spec(addr as int, align as int) <= usize::MAX,
    ensures
        aligned == round_up_spec(addr as int, align as int),
        aligned % align == 0,
        addr <= aligned < addr + align,
{
    round_up_to_alignment(addr, align)
}

/// Aligns the given address down to the given alignment. The result is
/// less than or equal to the given address.
pub fn align_down_to(addr: usize, align: usize) -> (aligned: usize)
    requires
        is_pow2(align as int),
    ensures
        aligned == round_down_spec(addr as int, align as int),
        aligned % align == 0,
        aligned <= addr < aligned + align,
{
    round_down_to_alignment(addr, align)
}

/// Aligns the given address up to the next nearest byte which is a multiple
/// of `base`.
pub fn align_up_to_multiple_of(addr: usize, base: usize) -> (aligned: usize)
    requires
        base > 0,
        round_up_spec(addr as int, base as int) <= usize::MAX,
    ensures
        aligned == round_up_spec(addr as int, base as int),
        aligned % base == 0,
        addr <= aligned < addr + base,
{
    round_up_to_multiple_of(addr, base)
}

/// Returns true if `addr` is aligned to `align`.
pub fn is_aligned_at(addr: usize, align: usize) -> (aligned: bool)
    requires
        align > 0,
    ensures
        aligned == (addr % align == 0),
{
    addr % align == 0
}

/// Returns the effective alignment of `addr`, i.e. the largest power of two
/// that is a divisor of `addr`.
pub fn effective_alignment(addr: usize) -> (align: usize)
    requires
        addr != 0,
    ensures
        is_pow2(align as int),
        addr % align == 0,
        (addr as int) % (2 * align) == align,
{
    let low: usize = addr & !(addr - 1);
    proof {
        let below: usize = (addr - 1) as usize;
        let under: usize = (low - 1) as usize;
        assert(low != 0 && low & ((low - 1) as usize) == 0) by (bit_vector)
            requires
                addr != 0,
                below == addr - 1,
                low == addr & !below,
        ;
        lemma_single_bit_is_pow2(low);
        assert(addr & under == 0 && (addr / low) % 2 == 1) by (bit_vector)
            requires
                addr != 0,
                below == addr - 1,
                low == addr & !below,
                under == low - 1,
        ;
        lemma_mask_is_mod(addr, low);
        lemma_odd_multiple(addr as int, low as int);
    }
    low
}

} // verus!
