use vstd::prelude::*;

verus! {

use vstd::arithmetic::div_mod::{
    lemma_fundamental_div_mod,
    lemma_fundamental_div_mod_converse,
    lemma_mod_pos_bound,
    lemma_div_is_ordered,
    lemma_div_by_multiple,
};
use vstd::arithmetic::mul::lemma_mul_inequality;
use vstd::layout::size_of;
use core::marker::PhantomData;

/// Size in bytes of one memory page; buffers are allocated in whole pages.
pub const PAGE_SIZE: usize = 4096;

/// The smallest multiple of `to` that is not below `x` (for `x >= 0`, `to > 0`).
pub open spec fn round_up_spec(x: int, to: int) -> int {
    ((x + to - 1) / to) * to
}

/// `size` rounded up to a whole number of pages.
pub open spec fn page_aligned_spec(size: int) -> int {
    round_up_spec(size, PAGE_SIZE as int)
}

/// Rounding up is the identity on multiples of `to`, and otherwise moves `x`
/// past its remainder to the next multiple.
pub proof fn lemma_round_up_spec(x: int, to: int)
    requires
        x >= 0,
        to > 0,
    ensures
        round_up_spec(x, to) == (if x % to == 0 { x } else { x - x % to + to }),
        round_up_spec(x, to) % to == 0,
        x <= round_up_spec(x, to) < x + to,
        0 <= x % to <= x,
{
    assert(0 <= x % to <= x) by (nonlinear_arith)
        requires
            x >= 0,
            to > 0,
    ;
    let q = x / to;
    let m = x % to;
    lemma_fundamental_div_mod(x, to);
    lemma_mod_pos_bound(x, to);
    assert(to * q == q * to) by (nonlinear_arith);
    if m == 0 {
        lemma_fundamental_div_mod_converse(x + to - 1, to, q, to - 1);
        assert(round_up_spec(x, to) == q * to);
        lemma_fundamental_div_mod_converse(q * to, to, q, 0);
    } else {
        assert(x + to - 1 == (q + 1) * to + (m - 1)) by (nonlinear_arith)
            requires
                x == to * q + m,
        ;
        lemma_fundamental_div_mod_converse(x + to - 1, to, q + 1, m - 1);
        assert(round_up_spec(x, to) == (q + 1) * to);
        assert((q + 1) * to == x - m + to) by (nonlinear_arith)
            requires
                x == to * q + m,
        ;
        lemma_fundamental_div_mod_converse((q + 1) * to, to, q + 1, 0);
    }
}

/// Rounding up preserves order.
pub proof fn lemma_round_up_monotonic(x: int, y: int, to: int)
    requires
        0 <= x <= y,
        to > 0,
    ensures
        round_up_spec(x, to) <= round_up_spec(y, to),
{
    lemma_div_is_ordered(x + to - 1, y + to - 1, to);
    lemma_mul_inequality((x + to - 1) / to, (y + to - 1) / to, to);
}

/// Rounds `x` up to the next multiple of `to` (`x` itself when it already is one).
pub fn round_up(x: usize, to: usize) -> (r: usize)
    requires
        to > 0,
        round_up_spec(x as int, to as int) <= usize::MAX,
    ensures
        r == round_up_spec(x as int, to as int),
        r % to == 0,
        x <= r < x + to,
{
    proof {
        lemma_round_up_spec(x as int, to as int);
    }
    let m = x % to;
    if m == 0 {
        x
    } else {
        x - m + to
    }
}

/// Rounds `size` up to a whole number of pages.
pub fn page_aligned(size: usize) -> (r: usize)
    requires
        page_aligned_spec(size as int) <= usize::MAX,
    ensures
        r == page_aligned_spec(size as int),
        r % PAGE_SIZE == 0,
        size <= r < size + PAGE_SIZE,
{
    round_up(size, PAGE_SIZE)
}

/// Metadata for a page-aligned allocation of elements of type `T`: the
/// allocation holds `byte_size` bytes, which fit `capacity` whole elements
/// and leave `remainder` bytes over.
#[derive(PartialEq, Eq, Debug, Copy)]
pub struct MemAlign<T> {
    pub byte_size: usize,
    pub capacity: usize,
    pub remainder: usize,
    pub phantom: PhantomData<T>,
}

impl<T> Clone for MemAlign<T> {
    fn clone(&self) -> (r: Self)
        ensures
            r == *self,
    {
        MemAlign {
            byte_size: self.byte_size,
            capacity: self.capacity,
            remainder: self.remainder,
            phantom: PhantomData,
        }
    }
}

impl<T> MemAlign<T> {
    /// The allocation is exactly `capacity` elements followed by `remainder` bytes.
    pub open spec fn is_valid_spec(&self) -> bool {
        size_of::<T>() * self.capacity + self.remainder == self.byte_size
    }

    /// The size in bytes of one element.
    pub fn element_size() -> (r: usize)
        ensures
            r == size_of::<T>(),
    {
        core::mem::size_of::<T>()
    }

    /// Whether the allocation is exactly `capacity` elements followed by `remainder` bytes.
    pub fn is_valid(&self) -> (r: bool)
        requires
            size_of::<T>() * self.capacity + self.remainder <= usize::MAX,
        ensures
            r == self.is_valid_spec(),
    {
        let element_size = Self::element_size();
        proof {
            assert(0 <= element_size * self.capacity <= usize::MAX) by (nonlinear_arith)
                requires
                    element_size * self.capacity + self.remainder <= usize::MAX,
                    self.remainder >= 0,
            ;
        }
        (element_size * self.capacity) + self.remainder == self.byte_size
    }

    /// Plans the page-aligned allocation for `capacity` elements: the byte
    /// size is rounded up to whole pages, and the capacity is raised to as many
    /// elements as those pages hold.
    pub fn new(capacity: usize) -> (r: Self)
        requires
            size_of::<T>() > 0,
            capacity > 0,
            page_aligned_spec(size_of::<T>() * capacity) <= usize::MAX,
        ensures
            r.byte_size == page_aligned_spec(size_of::<T>() * capacity),
            r.remainder == (r.byte_size as int) % (size_of::<T>() as int),
            r.capacity == (r.byte_size as int) / (size_of::<T>() as int),
            r.is_valid_spec(),
            r.byte_size > 0,
            r.byte_size % PAGE_SIZE == 0,
            capacity <= r.capacity,
    {
        let element_size = Self::element_size();
        let ghost s = element_size as int;
        proof {
            assert(0 < s * capacity) by (nonlinear_arith)
                requires
                    s > 0,
                    capacity > 0,
            ;
            lemma_round_up_spec(s * capacity, PAGE_SIZE as int);
        }
        let size = element_size * capacity;
        let byte_size = page_aligned(size);
        let remainder = byte_size % element_size;
        proof {
            lemma_fundamental_div_mod(byte_size as int, s);
            lemma_mod_pos_bound(byte_size as int, s);
        }
        let new_capacity = (byte_size - remainder) / element_size;
        proof {
            lemma_div_exact(byte_size as int, s);
            assert(new_capacity == byte_size / element_size);
            lemma_div_is_ordered(s * capacity, byte_size as int, s);
            lemma_div_by_multiple(capacity as int, s);
            assert(s * capacity == capacity * s) by (nonlinear_arith);
            assert(s * new_capacity == new_capacity * s) by (nonlinear_arith);
        }
        MemAlign { byte_size, capacity: new_capacity, remainder, phantom: PhantomData }
    }
}

/// Dividing off the remainder leaves an exact quotient.
proof fn lemma_div_exact(b: int, s: int)
    requires
        b >= 0,
        s > 0,
    ensures
        (b - b % s) / s == b / s,
        (b - b % s) % s == 0,
{
    lemma_fundamental_div_mod(b, s);
    lemma_mod_pos_bound(b, s);
    assert(b - b % s == (b / s) * s) by (nonlinear_arith)
        requires
            b == s * (b / s) + b % s,
    ;
    lemma_fundamental_div_mod_converse(b - b % s, s, b / s, 0);
}

/// A source of buffers sized by a page-aligned allocation plan.
pub trait BufferAllocator<T> {
    type Output;
    type Opts;

    fn new_mem(&self, mem_align: MemAlign<T>, opts: Self::Opts) -> Self::Output;
}

} // verus!
