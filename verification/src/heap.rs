//! The heap of a process: a region of words from which objects are taken one
//! after another.

use vstd::prelude::*;
use vstd::arithmetic::power2::is_pow2;
use crate::closure_layout::{native_word, native_word_size};
use crate::layout::{lemma_pow2_divides, max_align, Layout};
use crate::utils::{lemma_round_up_is_multiple, round_up_spec};

verus! {

/// The heap cannot hold the object that was asked for.
#[derive(Clone, Copy, Debug, PartialEq, Eq)]
pub struct AllocError {}

/// A heap: `capacity` words, of which the first `used` are taken.
#[derive(Debug)]
pub struct Heap {
    top: usize,
    limit: usize,
}

/// The word size is a power of two.
pub proof fn lemma_word_is_pow2()
    ensures
        is_pow2(native_word()),
        native_word() == 4 || native_word() == 8,
{
    reveal_with_fuel(is_pow2, 5);
}

/// The offset at which an object aligned to `align` begins on a heap of
/// which `used` words are taken.
pub open spec fn alloc_start(used: int, align: int) -> int {
    round_up_spec(used * native_word(), max_align(align, native_word()))
}

/// The offset at which an object of `size` bytes aligned to `align` ends on a
/// heap of which `used` words are taken: objects take whole words.
pub open spec fn alloc_end(used: int, size: int, align: int) -> int {
    alloc_start(used, align) + round_up_spec(size, native_word())
}

/// An object of whole words that is aligned to no more than a word begins
/// where the heap ends and takes its own size.
pub proof fn lemma_alloc_words(used: int, words: int, align: int)
    requires
        0 <= used,
        0 <= words,
        is_pow2(align),
        align <= native_word(),
    ensures
        alloc_start(used, align) == used * native_word(),
        alloc_end(used, words * native_word(), align) == (used + words) * native_word(),
{
    let w = native_word();
    lemma_word_is_pow2();
    vstd::arithmetic::div_mod::lemma_mod_multiples_basic(used, w);
    vstd::arithmetic::div_mod::lemma_mod_multiples_basic(words, w);
    assert((used + words) * w == used * w + words * w) by (nonlinear_arith);
}

impl Heap {
    /// The number of words taken.
    pub closed spec fn used(&self) -> int {
        self.top as int / native_word()
    }

    /// The number of words of the heap.
    pub closed spec fn capacity(&self) -> int {
        self.limit as int / native_word()
    }

    /// Whether no more is taken than there is.
    pub closed spec fn wf(&self) -> bool {
        &&& self.top <= self.limit <= isize::MAX
        &&& self.top as int % native_word() == 0
        &&& self.limit as int % native_word() == 0
    }

    /// On a heap, no more is taken than there is.
    pub proof fn lemma_wf(&self)
        requires
            self.wf(),
        ensures
            0 <= self.used() <= self.capacity(),
            self.capacity() * native_word() <= isize::MAX,
    {
        let w = native_word();
        vstd::arithmetic::div_mod::lemma_fundamental_div_mod(self.top as int, w);
        vstd::arithmetic::div_mod::lemma_fundamental_div_mod(self.limit as int, w);
        vstd::arithmetic::div_mod::lemma_div_is_ordered(self.top as int, self.limit as int, w);
        assert(self.capacity() * w == w * self.capacity()) by (nonlinear_arith);
    }

    /// An empty heap of `capacity` words.
    pub fn new(capacity: usize) -> (heap: Heap)
        requires
            capacity * native_word() <= isize::MAX,
        ensures
            heap.wf(),
            heap.used() == 0,
            heap.capacity() == capacity,
    {
        let word = native_word_size();
        proof {
            vstd::arithmetic::div_mod::lemma_mod_multiples_basic(capacity as int, word as int);
            vstd::arithmetic::div_mod::lemma_div_multiples_vanish(capacity as int, word as int);
            assert(capacity * word == word * capacity) by (nonlinear_arith);
        }
        Heap { top: 0, limit: capacity * word }
    }

    /// The number of words taken.
    pub fn words_used(&self) -> (words: usize)
        requires
            self.wf(),
        ensures
            words == self.used(),
    {
        self.top / native_word_size()
    }

    /// The number of words that are left.
    pub fn words_available(&self) -> (words: usize)
        requires
            self.wf(),
        ensures
            words == self.capacity() - self.used(),
    {
        proof {
            self.lemma_wf();
        }
        self.limit / native_word_size() - self.top / native_word_size()
    }

    /// Takes the room for an object of the given layout and returns the
    /// offset at which the object begins, or fails and leaves the heap as it
    /// was.
    pub fn alloc_layout(&mut self, layout: Layout) -> (offset: Result<usize, AllocError>)
        requires
            old(self).wf(),
        ensures
            final(self).wf(),
            final(self).capacity() == old(self).capacity(),
            offset is Ok <==> alloc_end(
                old(self).used(),
                layout.size() as int,
                layout.align() as int,
            ) <= old(self).capacity() * native_word(),
            offset matches Ok(start) ==> {
                &&& start == alloc_start(old(self).used(), layout.align() as int)
                &&& start as int % layout.align() as int == 0
                &&& final(self).used() * native_word() == alloc_end(
                    old(self).used(),
                    layout.size() as int,
                    layout.align() as int,
                )
            },
            offset is Err ==> final(self).used() == old(self).used(),
    {
        let word = native_word_size();
        let size = layout.size();
        let own = layout.align();
        let align = if own >= word {
            own
        } else {
            word
        };
        proof {
            lemma_word_is_pow2();
            vstd::arithmetic::div_mod::lemma_fundamental_div_mod(self.top as int, word as int);
            vstd::arithmetic::div_mod::lemma_fundamental_div_mod(self.limit as int, word as int);
            assert(self.used() * word == word * self.used()) by (nonlinear_arith);
            assert(self.capacity() * word == word * self.capacity()) by (nonlinear_arith);
            lemma_round_up_is_multiple(self.top as int, align as int);
            lemma_round_up_is_multiple(size as int, word as int);
            if own >= word {
                lemma_pow2_divides(word as int, own as int);
            } else {
                lemma_pow2_divides(own as int, word as int);
            }
        }
        let start = crate::utils::round_up_to_multiple_of(self.top, align);
        let whole = crate::utils::round_up_to_multiple_of(size, word);
        proof {
            // The start is a multiple of the stricter alignment, which both
            // the word size and the alignment asked for divide.
            lemma_multiple_of_multiple(start as int, align as int, word as int);
            lemma_multiple_of_multiple(start as int, align as int, own as int);
            lemma_sum_of_multiples(start as int, whole as int, word as int);
        }
        match start.checked_add(whole) {
            None => Err(AllocError {  }),
            Some(end) => {
                if end > self.limit {
                    Err(AllocError {  })
                } else {
                    self.top = end;
                    proof {
                        vstd::arithmetic::div_mod::lemma_fundamental_div_mod(
                            end as int,
                            word as int,
                        );
                        assert(self.used() * word == word * self.used()) by (nonlinear_arith);
                    }
                    Ok(start)
                }
            },
        }
    }
}

/// Takes the room for an object of whole words.
pub fn alloc_object(heap: &mut Heap, layout: Layout) -> (offset: Result<usize, AllocError>)
    requires
        old(heap).wf(),
        layout.align() <= native_word(),
        layout.size() as int % native_word() == 0,
    ensures
        final(heap).wf(),
        final(heap).capacity() == old(heap).capacity(),
        offset is Ok <==> old(heap).used() + layout.size() as int / native_word() <= old(
            heap,
        ).capacity(),
        offset is Ok ==> final(heap).used() == old(heap).used() + layout.size() as int
            / native_word(),
        offset is Err ==> final(heap).used() == old(heap).used(),
{
    let ghost w = native_word();
    let ghost words = layout.size() as int / w;
    let ghost used = heap.used();
    let ghost capacity = heap.capacity();
    let align = layout.align();
    proof {
        heap.lemma_wf();
        lemma_word_is_pow2();
        vstd::arithmetic::div_mod::lemma_fundamental_div_mod(layout.size() as int, w);
        assert(words * w == w * words) by (nonlinear_arith);
        lemma_alloc_words(used, words, layout.align() as int);
        assert((used + words) * w <= capacity * w <==> used + words <= capacity)
            by (nonlinear_arith)
            requires
                w > 0,
        ;
    }
    let offset = heap.alloc_layout(layout);
    proof {
        if offset is Ok {
            assert(heap.used() == used + words) by (nonlinear_arith)
                requires
                    heap.used() * w == (used + words) * w,
                    w > 0,
            ;
        }
    }
    offset
}

/// Takes `words` words of `heap`.
pub fn alloc_words(heap: &mut Heap, words: usize) -> (taken: Result<(), AllocError>)
    requires
        old(heap).wf(),
    ensures
        final(heap).wf(),
        final(heap).capacity() == old(heap).capacity(),
        taken is Ok <==> old(heap).used() + words <= old(heap).capacity(),
        taken is Ok ==> final(heap).used() == old(heap).used() + words,
        taken is Err ==> final(heap).used() == old(heap).used(),
{
    proof {
        heap.lemma_wf();
        lemma_word_is_pow2();
    }
    if words > heap.words_available() {
        return Err(AllocError {  });
    }
    let word = native_word_size();
    proof {
        assert(words * word <= heap.capacity() * word) by (nonlinear_arith)
            requires
                words <= heap.capacity(),
                word > 0,
        ;
        vstd::arithmetic::div_mod::lemma_mod_multiples_basic(words as int, word as int);
        vstd::arithmetic::div_mod::lemma_div_multiples_vanish(words as int, word as int);
        assert(words * word == word * words) by (nonlinear_arith);
    }
    match Layout::array(word, word, words) {
        Ok(layout) => match alloc_object(heap, layout) {
            Ok(_) => Ok(()),
            Err(e) => Err(e),
        },
        Err(_) => Err(AllocError {  }),
    }
}

/// A multiple of a multiple of `d` is a multiple of `d`.
pub proof fn lemma_multiple_of_multiple(x: int, m: int, d: int)
    requires
        0 < d,
        0 < m,
        m % d == 0,
        x % m == 0,
    ensures
        x % d == 0,
{
    vstd::arithmetic::div_mod::lemma_fundamental_div_mod(x, m);
    vstd::arithmetic::div_mod::lemma_fundamental_div_mod(m, d);
    let a = x / m;
    let b = m / d;
    assert(x == (a * b) * d) by (nonlinear_arith)
        requires
            x == m * a,
            m == d * b,
    ;
    vstd::arithmetic::div_mod::lemma_mod_multiples_basic(a * b, d);
}

/// The sum of two multiples of `d` is a multiple of `d`.
pub proof fn lemma_sum_of_multiples(x: int, y: int, d: int)
    requires
        0 < d,
        x % d == 0,
        y % d == 0,
    ensures
        (x + y) % d == 0,
{
    vstd::arithmetic::div_mod::lemma_fundamental_div_mod(x, d);
    vstd::arithmetic::div_mod::lemma_fundamental_div_mod(y, d);
    let a = x / d;
    let b = y / d;
    assert(x + y == (a + b) * d) by (nonlinear_arith)
        requires
            x == d * a,
            y == d * b,
    ;
    vstd::arithmetic::div_mod::lemma_mod_multiples_basic(a + b, d);
}

} // verus!
