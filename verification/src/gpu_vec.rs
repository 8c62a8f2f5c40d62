use vstd::prelude::*;

verus! {

use vstd::layout::size_of;
use vstd::std_specs::cmp::PartialEqSpec;
use vstd::std_specs::cmp::PartialEqSpecImpl;
use crate::util::{
    page_aligned, page_aligned_spec, lemma_round_up_monotonic, lemma_round_up_spec, PAGE_SIZE,
};
use vstd::arithmetic::div_mod::{
    lemma_fundamental_div_mod, lemma_fundamental_div_mod_converse, lemma_mod_pos_bound,
};

/// Whether a buffer for `capacity` elements of `T`, rounded up to whole pages,
/// has a byte length that fits in `usize`.
pub open spec fn allocatable<T>(capacity: int) -> bool {
    page_aligned_spec(size_of::<T>() * capacity) <= usize::MAX
}

/// A smaller capacity is allocatable whenever a larger one is.
pub proof fn lemma_allocatable_downward<T>(a: int, b: int)
    requires
        0 <= a <= b,
        allocatable::<T>(b),
    ensures
        allocatable::<T>(a),
        size_of::<T>() * a <= size_of::<T>() * b,
{
    assert(size_of::<T>() * a <= size_of::<T>() * b) by (nonlinear_arith)
        requires
            0 <= a <= b,
    ;
    assert(0 <= size_of::<T>() * a) by (nonlinear_arith)
        requires
            0 <= a,
    ;
    lemma_round_up_monotonic(size_of::<T>() * a, size_of::<T>() * b, PAGE_SIZE as int);
}

/// The largest multiple of `PAGE_SIZE` that fits in `usize`.
pub open spec fn page_limit() -> int {
    (usize::MAX as int / PAGE_SIZE as int) * PAGE_SIZE as int
}

/// A byte count rounds up to a page multiple that fits in `usize` exactly
/// when the count is at most `page_limit()`.
pub proof fn lemma_page_aligned_fits(x: int)
    requires
        x >= 0,
    ensures
        page_aligned_spec(x) <= usize::MAX <==> x <= page_limit(),
{
    let p = PAGE_SIZE as int;
    let m = usize::MAX as int;
    let l = page_limit();
    lemma_fundamental_div_mod(m, p);
    lemma_mod_pos_bound(m, p);
    assert(l == p * (m / p)) by (nonlinear_arith)
        requires
            l == (m / p) * p,
    ;
    assert(l <= m < l + p);
    lemma_fundamental_div_mod_converse(l, p, m / p, 0);
    lemma_round_up_spec(l, p);
    lemma_round_up_spec(x, p);
    let r = page_aligned_spec(x);
    if x <= l {
        lemma_round_up_monotonic(x, l, p);
    } else {
        lemma_fundamental_div_mod(r, p);
        let q = r / p;
        assert(r == p * q);
        assert(q > m / p) by (nonlinear_arith)
            requires
                r == p * q,
                l == p * (m / p),
                r > l,
                p > 0,
        ;
        assert(r >= l + p) by (nonlinear_arith)
            requires
                r == p * q,
                l == p * (m / p),
                q >= m / p + 1,
                p > 0,
        ;
    }
}

/// Whether a buffer for `capacity` elements of `T`, rounded up to whole
/// pages, has a byte length that fits in `usize`.
pub fn is_allocatable<T>(capacity: usize) -> (r: bool)
    ensures
        r == allocatable::<T>(capacity as int),
{
    let limit = usize::MAX / PAGE_SIZE * PAGE_SIZE;
    let size = core::mem::size_of::<T>();
    let bytes = size.checked_mul(capacity);
    proof {
        assert(0 <= size * capacity) by (nonlinear_arith)
            requires
                size >= 0,
                capacity >= 0,
        ;
        lemma_page_aligned_fits(size * capacity);
        if size * capacity > usize::MAX {
            crate::util::lemma_round_up_spec(size * capacity, PAGE_SIZE as int);
        }
    }
    match bytes {
        Some(b) => b <= limit,
        None => false,
    }
}

/// One end of an index range, as written in a range expression.
#[derive(Clone, Copy, PartialEq, Eq, Debug)]
pub enum Bound {
    Included(usize),
    Excluded(usize),
    Unbounded,
}

/// The first index a range covers, given its start bound.
pub open spec fn range_start(start: Bound) -> int {
    match start {
        Bound::Included(n) => n as int,
        Bound::Excluded(n) => n + 1,
        Bound::Unbounded => 0,
    }
}

/// One past the last index a range covers, given its end bound and the length.
pub open spec fn range_end(end: Bound, len: int) -> int {
    match end {
        Bound::Included(n) => n + 1,
        Bound::Excluded(n) => n as int,
        Bound::Unbounded => len,
    }
}

/// The range's bounds resolve to `start <= end <= len`, with no overflow on the way.
pub open spec fn valid_range(start: Bound, end: Bound, len: int) -> bool {
    &&& range_start(start) <= usize::MAX
    &&& range_end(end, len) <= usize::MAX
    &&& range_start(start) <= range_end(end, len) <= len
}

/// The elements of `s` whose flag in `keep` is set, in their order.
pub open spec fn filter_by<T>(s: Seq<T>, keep: Seq<bool>) -> Seq<T>
    decreases s.len(),
{
    if s.len() == 0 {
        Seq::empty()
    } else {
        let rest = filter_by(s.drop_last(), keep.subrange(0, s.len() - 1));
        if keep[s.len() - 1] {
            rest.push(s.last())
        } else {
            rest
        }
    }
}

/// Resolves the bounds of a range over `len` elements to `(start, end)`.
fn range_indices(start: Bound, end: Bound, len: usize) -> (r: (usize, usize))
    requires
        valid_range(start, end, len as int),
    ensures
        r.0 == range_start(start),
        r.1 == range_end(end, len as int),
{
    let s = match start {
        Bound::Included(n) => n,
        Bound::Excluded(n) => n + 1,
        Bound::Unbounded => 0,
    };
    let e = match end {
        Bound::Included(n) => n + 1,
        Bound::Excluded(n) => n,
        Bound::Unbounded => len,
    };
    (s, e)
}

/// Resolves the bounds of a range over `len` elements to `(start, end)`;
/// `None` when they do not resolve to `start <= end <= len` without overflow.
pub fn checked_range(start: Bound, end: Bound, len: usize) -> (r: Option<(usize, usize)>)
    ensures
        r is Some <==> valid_range(start, end, len as int),
        r matches Some(p) ==> p.0 == range_start(start) && p.1 == range_end(end, len as int),
{
    let s = match start {
        Bound::Included(n) => n,
        Bound::Excluded(n) => {
            if n == usize::MAX {
                return None;
            }
            n + 1
        },
        Bound::Unbounded => 0,
    };
    let e = match end {
        Bound::Included(n) => {
            if n == usize::MAX {
                return None;
            }
            n + 1
        },
        Bound::Excluded(n) => n,
        Bound::Unbounded => len,
    };
    if s <= e && e <= len {
        Some((s, e))
    } else {
        None
    }
}

/// The elements of `s` from index `i` on.
pub open spec fn suffix<T>(s: Seq<T>, i: usize) -> Seq<T> {
    s.subrange(i as int, s.len() as int)
}

/// The suffix from `0` is the whole sequence, and the suffix from `i` is
/// `s[i]` followed by the suffix from `i + 1`.
pub proof fn lemma_suffix_step<T>(s: Seq<T>, i: usize)
    requires
        i < s.len(),
    ensures
        suffix(s, 0) == s,
        suffix(s, i).len() == s.len() - i,
        suffix(s, i)[0] == s[i as int],
        suffix(s, i).drop_first() == s.subrange(i + 1, s.len() as int),
{
    assert(suffix(s, 0) =~= s);
    assert(suffix(s, i).drop_first() =~= s.subrange(i + 1, s.len() as int));
}

/// `s[i]` equals `item`, and no earlier element does.
pub open spec fn is_first_match<T: PartialEqSpec<V>, V>(s: Seq<T>, item: &V, i: int) -> bool {
    &&& 0 <= i < s.len()
    &&& s[i].eq_spec(item)
    &&& forall|j: int| 0 <= j < i ==> !#[trigger] s[j].eq_spec(item)
}

/// A growable vector of `Copy` elements kept in a buffer whose byte length is
/// the element capacity rounded up to whole pages.
///
/// `elems` holds the buffer's initialised slots, in order; `capacity` is the
/// number of element slots the vector may fill before it must grow; and
/// `buffer_length` is the byte length of the backing buffer.
pub struct GPUVec<T: Copy> {
    elems: Vec<T>,
    capacity: usize,
    buffer_length: u64,
}

impl<T: Copy> View for GPUVec<T> {
    type V = Seq<T>;

    closed spec fn view(&self) -> Seq<T> {
        self.elems@
    }
}

impl<T: Copy> GPUVec<T> {
    /// The number of element slots the buffer provides.
    pub closed spec fn cap(&self) -> nat {
        self.capacity as nat
    }

    /// The byte length of the backing buffer.
    pub closed spec fn buffer_len(&self) -> nat {
        self.buffer_length as nat
    }

    /// The elements fit in the capacity, and the buffer is the capacity in
    /// bytes rounded up to whole pages.
    pub closed spec fn wf(&self) -> bool {
        &&& self.elems@.len() <= self.capacity
        &&& self.buffer_length == page_aligned_spec(size_of::<T>() * self.capacity)
        &&& allocatable::<T>(self.capacity as int)
    }

    /// A well-formed vector holds at most `cap()` elements, in a buffer whose
    /// byte length is the capacity in bytes rounded up to whole pages.
    pub proof fn law_layout(&self)
        requires
            self.wf(),
        ensures
            self@.len() <= self.cap(),
            self.buffer_len() == page_aligned_spec((size_of::<T>() * self.cap()) as int),
            allocatable::<T>(self.cap() as int),
    {
    }

    /// The byte length of the page-aligned buffer that holds `capacity` elements.
    fn buffer_length_for(capacity: usize) -> (r: u64)
        requires
            allocatable::<T>(capacity as int),
        ensures
            r == page_aligned_spec(size_of::<T>() * capacity),
    {
        let element_size = Self::element_size();
        proof {
            lemma_allocatable_downward::<T>(capacity as int, capacity as int);
            crate::util::lemma_round_up_spec(size_of::<T>() * capacity, PAGE_SIZE as int);
        }
        page_aligned(capacity * element_size) as u64
    }

    /// An empty vector whose buffer has room for `capacity` elements.
    pub fn with_capacity(capacity: usize) -> (r: Self)
        requires
            allocatable::<T>(capacity as int),
        ensures
            r.wf(),
            r@ == Seq::<T>::empty(),
            r.cap() == capacity,
            r.buffer_len() == page_aligned_spec(size_of::<T>() * capacity),
    {
        let buffer_length = Self::buffer_length_for(capacity);
        GPUVec { elems: Vec::new(), capacity, buffer_length }
    }

    /// A vector holding a copy of `data`, with capacity exactly `data.len()`.
    pub fn from_slice(data: &[T]) -> (r: Self)
        requires
            allocatable::<T>(data@.len() as int),
        ensures
            r.wf(),
            r@ == data@,
            r.cap() == data@.len(),
    {
        let len = data.len();
        let mut ret = Self::with_capacity(len);
        let mut i: usize = 0;
        while i < len
            invariant
                len == data@.len(),
                i <= len,
                ret.wf(),
                ret.cap() == len,
                ret@ == data@.subrange(0, i as int),
            decreases len - i,
        {
            ret.elems.push(data[i]);
            i = i + 1;
            proof {
                assert(ret@ =~= data@.subrange(0, i as int));
            }
        }
        proof {
            assert(data@.subrange(0, len as int) =~= data@);
        }
        ret
    }

    /// The number of element slots the buffer provides.
    pub fn capacity(&self) -> (r: usize)
        ensures
            r == self.cap(),
    {
        self.capacity
    }

    /// The size in bytes of one element.
    fn element_size() -> (r: usize)
        ensures
            r == size_of::<T>(),
    {
        core::mem::size_of::<T>()
    }

    /// The number of elements.
    pub fn len(&self) -> (r: usize)
        ensures
            r == self@.len(),
    {
        self.elems.len()
    }

    /// Whether the vector holds no element.
    pub fn is_empty(&self) -> (r: bool)
        ensures
            r == (self@.len() == 0),
    {
        self.elems.len() == 0
    }

    /// The byte length of the backing buffer.
    pub fn buffer_length(&self) -> (r: u64)
        ensures
            r == self.buffer_len(),
    {
        self.buffer_length
    }

    /// The size in bytes of the elements held.
    pub fn byte_len(&self) -> (r: usize)
        requires
            self.wf(),
        ensures
            r == size_of::<T>() * self@.len(),
    {
        proof {
            lemma_allocatable_downward::<T>(self@.len() as int, self.capacity as int);
            crate::util::lemma_round_up_spec(size_of::<T>() * self.capacity, PAGE_SIZE as int);
        }
        Self::element_size() * self.len()
    }

    /// The size in bytes of the element slots the buffer provides.
    pub fn byte_capacity(&self) -> (r: usize)
        requires
            self.wf(),
        ensures
            r == size_of::<T>() * self.cap(),
    {
        proof {
            crate::util::lemma_round_up_spec(size_of::<T>() * self.capacity, PAGE_SIZE as int);
        }
        Self::element_size() * self.capacity()
    }

    /// Grows the buffer to `capacity` element slots, moving the elements into
    /// the new buffer; a capacity not above the current one changes nothing.
    pub fn resize(&mut self, capacity: usize)
        requires
            old(self).wf(),
            capacity > old(self).cap() ==> allocatable::<T>(capacity as int),
        ensures
            final(self).wf(),
            final(self)@ == old(self)@,
            final(self).cap() == (if capacity > old(self).cap() { capacity as nat } else { old(self).cap() }),
    {
        if capacity <= self.capacity() {
            return;
        }
        let buffer_length = Self::buffer_length_for(capacity);
        let len = self.len();
        let mut moved: Vec<T> = Vec::with_capacity(capacity);
        let mut i: usize = 0;
        while i < len
            invariant
                len == self@.len(),
                i <= len,
                moved@ == self@.subrange(0, i as int),
            decreases len - i,
        {
            moved.push(self.elems[i]);
            i = i + 1;
            proof {
                assert(moved@ =~= self@.subrange(0, i as int));
            }
        }
        proof {
            assert(self@.subrange(0, len as int) =~= self@);
        }
        self.elems = moved;
        self.buffer_length = buffer_length;
        self.capacity = capacity;
    }

    /// Reserves room for `additional` more element slots beyond the current capacity.
    pub fn reserve(&mut self, additional: usize)
        requires
            old(self).wf(),
            old(self).cap() + additional <= usize::MAX,
            additional > 0 ==> allocatable::<T>(old(self).cap() + additional),
        ensures
            final(self).wf(),
            final(self)@ == old(self)@,
            final(self).cap() == old(self).cap() + additional,
    {
        self.resize(self.capacity() + additional)
    }

    /// Appends a copy of `v`, growing the buffer to exactly the new length
    /// when the elements do not fit.
    pub fn extend_from_slice(&mut self, v: &[T])
        requires
            old(self).wf(),
            old(self)@.len() + v@.len() <= usize::MAX,
            old(self)@.len() + v@.len() > old(self).cap() ==> allocatable::<T>(
                (old(self)@.len() + v@.len()) as int,
            ),
        ensures
            final(self).wf(),
            final(self)@ == old(self)@ + v@,
            final(self).cap() == (if old(self)@.len() + v@.len() > old(self).cap() {
                (old(self)@.len() + v@.len()) as nat
            } else {
                old(self).cap()
            }),
    {
        let new_len = self.len() + v.len();
        self.resize(new_len);
        let n = v.len();
        let ghost before = self@;
        let ghost grown_cap = self.cap();
        let mut i: usize = 0;
        while i < n
            invariant
                n == v@.len(),
                i <= n,
                self.wf(),
                self.cap() == grown_cap,
                grown_cap >= new_len,
                new_len == before.len() + n,
                self@ == before + v@.subrange(0, i as int),
            decreases n - i,
        {
            self.elems.push(v[i]);
            i = i + 1;
            proof {
                assert(self@ =~= before + v@.subrange(0, i as int));
            }
        }
        proof {
            assert(v@.subrange(0, n as int) =~= v@);
        }
    }

    /// Shortens the vector to its first `len` elements; a `len` not below the
    /// current length changes nothing.
    pub fn truncate(&mut self, len: usize)
        requires
            old(self).wf(),
        ensures
            final(self).wf(),
            final(self)@ == (if len <= old(self)@.len() {
                old(self)@.subrange(0, len as int)
            } else {
                old(self)@
            }),
            final(self).cap() == old(self).cap(),
            final(self).buffer_len() == old(self).buffer_len(),
    {
        if len > self.elems.len() {
            return;
        }
        self.elems.truncate(len);
    }

    /// The elements, as a slice.
    pub fn as_slice(&self) -> (r: &[T])
        ensures
            r@ == self@,
    {
        self.elems.as_slice()
    }

    /// The elements, as a mutable slice.
    pub fn as_mut_slice(&mut self) -> (r: &mut [T])
        ensures
            old(self).wf() && final(r)@.len() == r@.len() ==> final(self).wf(),
            r@ == old(self)@,
            final(r)@ == final(self)@,
            final(self).cap() == old(self).cap(),
            final(self).buffer_len() == old(self).buffer_len(),
    {
        self.elems.as_mut_slice()
    }

    /// Removes the element at `index` and returns it; the last element takes its place.
    pub fn swap_remove(&mut self, index: usize) -> (r: T)
        requires
            old(self).wf(),
            index < old(self)@.len(),
        ensures
            final(self).wf(),
            r == old(self)@[index as int],
            final(self)@ == old(self)@.update(index as int, old(self)@.last()).drop_last(),
            final(self).cap() == old(self).cap(),
    {
        let hole = self.elems[index];
        let last_index = self.elems.len() - 1;
        let last = self.elems[last_index];
        self.elems.pop();
        if index < last_index {
            self.elems.set(index, last);
        }
        proof {
            assert(self@ =~= old(self)@.update(index as int, old(self)@.last()).drop_last());
        }
        hole
    }

    /// Inserts `element` at `index`, shifting the later elements up by one;
    /// a full buffer first grows by one slot.
    pub fn insert(&mut self, index: usize, element: T)
        requires
            old(self).wf(),
            index <= old(self)@.len(),
            old(self)@.len() == old(self).cap() ==> old(self).cap() + 1 <= usize::MAX
                && allocatable::<T>((old(self).cap() + 1) as int),
        ensures
            final(self).wf(),
            final(self)@ == old(self)@.insert(index as int, element),
            final(self).cap() == (if old(self)@.len() == old(self).cap() {
                old(self).cap() + 1
            } else {
                old(self).cap()
            }),
    {
        let len = self.len();
        if len == self.capacity() {
            self.reserve(1);
        }
        let ghost before = self@;
        let ghost grown_cap = self.cap();
        if index == len {
            self.elems.push(element);
        } else {
            let last = self.elems[len - 1];
            self.elems.push(last);
            let mut j: usize = len - 1;
            while j > index
                invariant
                    index <= j < len,
                    len == before.len(),
                    self.elems@.len() == len + 1,
                    self.wf(),
                    self.cap() == grown_cap,
                    grown_cap > len,
                    forall|k: int| 0 <= k <= j ==> #[trigger] self.elems@[k] == before[k],
                    forall|k: int| j < k <= len ==> #[trigger] self.elems@[k] == before[k - 1],
                decreases j,
            {
                let prev = self.elems[j - 1];
                self.elems.set(j, prev);
                j = j - 1;
            }
            self.elems.set(index, element);
        }
        proof {
            assert(self@ =~= before.insert(index as int, element));
        }
    }

    /// Removes the element at `index` and returns it, shifting the later
    /// elements down by one.
    pub fn remove(&mut self, index: usize) -> (r: T)
        requires
            old(self).wf(),
            index < old(self)@.len(),
        ensures
            final(self).wf(),
            r == old(self)@[index as int],
            final(self)@ == old(self)@.remove(index as int),
            final(self).cap() == old(self).cap(),
    {
        let len = self.len();
        let ret = self.elems[index];
        let mut j: usize = index;
        while j + 1 < len
            invariant
                index <= j < len,
                len == old(self)@.len(),
                self.elems@.len() == len,
                self.wf(),
                self.cap() == old(self).cap(),
                forall|k: int| 0 <= k < index ==> #[trigger] self.elems@[k] == old(self)@[k],
                forall|k: int| index <= k < j ==> #[trigger] self.elems@[k] == old(self)@[k + 1],
                forall|k: int| j <= k < len ==> #[trigger] self.elems@[k] == old(self)@[k],
            decreases len - j,
        {
            let next = self.elems[j + 1];
            self.elems.set(j, next);
            j = j + 1;
        }
        self.elems.pop();
        proof {
            assert(self@ =~= old(self)@.remove(index as int));
        }
        ret
    }

    /// Appends `value`; a full buffer first grows by one slot.
    pub fn push(&mut self, value: T)
        requires
            old(self).wf(),
            old(self)@.len() == old(self).cap() ==> old(self).cap() + 1 <= usize::MAX
                && allocatable::<T>((old(self).cap() + 1) as int),
        ensures
            final(self).wf(),
            final(self)@ == old(self)@.push(value),
            final(self).cap() == (if old(self)@.len() == old(self).cap() {
                old(self).cap() + 1
            } else {
                old(self).cap()
            }),
    {
        if self.len() == self.capacity() {
            self.reserve(1);
        }
        self.elems.push(value);
    }

    /// Removes every element; the buffer keeps its capacity.
    pub fn clear(&mut self)
        requires
            old(self).wf(),
        ensures
            final(self).wf(),
            final(self)@ == Seq::<T>::empty(),
            final(self).cap() == old(self).cap(),
            final(self).buffer_len() == old(self).buffer_len(),
    {
        self.elems.clear();
    }

    /// Splits off the elements from `at` on into a new vector whose capacity
    /// is exactly their number; this vector keeps the first `at`.
    pub fn split_off(&mut self, at: usize) -> (r: Self)
        requires
            old(self).wf(),
            at <= old(self)@.len(),
        ensures
            final(self).wf(),
            r.wf(),
            final(self)@ == old(self)@.subrange(0, at as int),
            r@ == old(self)@.subrange(at as int, old(self)@.len() as int),
            final(self).cap() == old(self).cap(),
            r.cap() == old(self)@.len() - at,
    {
        let len = self.len();
        let other_len = len - at;
        proof {
            lemma_allocatable_downward::<T>(other_len as int, self.capacity as int);
        }
        let mut other = Self::with_capacity(other_len);
        let mut i: usize = at;
        while i < len
            invariant
                at <= i <= len,
                len == self@.len(),
                other.wf(),
                other.cap() == other_len,
                other_len == len - at,
                other@ == self@.subrange(at as int, i as int),
            decreases len - i,
        {
            other.elems.push(self.elems[i]);
            i = i + 1;
            proof {
                assert(other@ =~= self@.subrange(at as int, i as int));
            }
        }
        self.elems.truncate(at);
        other
    }

    /// Reads the slot just past the last element: an empty vector gives
    /// `None`, and a non-empty one is outside this function's domain.
    pub fn pop(&mut self) -> (r: Option<T>)
        requires
            old(self).wf(),
            old(self)@.len() == 0,
        ensures
            final(self).wf(),
            r is None,
            final(self)@ == old(self)@,
            final(self).cap() == old(self).cap(),
    {
        if self.elems.len() == 0 {
            None
        } else {
            let last = self.elems[self.elems.len()];
            self.elems.pop();
            Some(last)
        }
    }

    /// Keeps the elements on which `f` answers `true`, in their order; `f` is
    /// asked once about each element, front to back.
    pub fn retain<F: Fn(&T) -> bool>(&mut self, f: F)
        requires
            old(self).wf(),
            forall|i: int| 0 <= i < old(self)@.len() ==> f.requires((&old(self)@[i],)),
        ensures
            final(self).wf(),
            final(self).cap() == old(self).cap(),
            exists|keep: Seq<bool>|
                {
                    &&& keep.len() == old(self)@.len()
                    &&& forall|i: int|
                        0 <= i < old(self)@.len() ==> f.ensures((&old(self)@[i],), #[trigger] keep[i])
                    &&& final(self)@ == filter_by(old(self)@, keep)
                },
    {
        let len = self.len();
        let mut del: usize = 0;
        let ghost mut keep: Seq<bool> = Seq::empty();
        let mut i: usize = 0;
        while i < len
            invariant
                len == old(self)@.len(),
                i <= len,
                del <= i,
                self.elems@.len() == len,
                self.wf(),
                self.cap() == old(self).cap(),
                keep.len() == i,
                forall|k: int| 0 <= k < len ==> f.requires((&old(self)@[k],)),
                forall|k: int| 0 <= k < i ==> f.ensures((&old(self)@[k],), #[trigger] keep[k]),
                self.elems@.subrange(0, i - del) == filter_by(old(self)@.subrange(0, i as int), keep),
                forall|k: int| i <= k < len ==> #[trigger] self.elems@[k] == old(self)@[k],
            decreases len - i,
        {
            let x = self.elems[i];
            let kept = f(&x);
            let ghost prev = self.elems@;
            proof {
                let s = old(self)@.subrange(0, i + 1);
                assert(s.drop_last() =~= old(self)@.subrange(0, i as int));
                assert(keep.push(kept).subrange(0, i as int) =~= keep);
                keep = keep.push(kept);
            }
            if !kept {
                del = del + 1;
            } else if del > 0 {
                let tmp = self.elems[i - del];
                self.elems.set(i - del, x);
                self.elems.set(i, tmp);
                proof {
                    assert(self.elems@.subrange(0, i + 1 - del) =~= prev.subrange(0, i - del).push(x));
                }
            } else {
                proof {
                    assert(self.elems@.subrange(0, i + 1 - del) =~= prev.subrange(0, i - del).push(x));
                }
            }
            i = i + 1;
        }
        proof {
            assert(old(self)@.subrange(0, len as int) =~= old(self)@);
        }
        if del > 0 {
            self.truncate(len - del);
        } else {
            proof {
                assert(self.elems@.subrange(0, len as int) =~= self.elems@);
            }
        }
        proof {
            assert(keep.len() == old(self)@.len());
            assert(self@ == filter_by(old(self)@, keep));
        }
    }

    /// Removes the elements in the range `start`..`end` and returns them in
    /// order; the elements after the range move down to close the gap.
    pub fn drain(&mut self, start: Bound, end: Bound) -> (r: Vec<T>)
        requires
            old(self).wf(),
            valid_range(start, end, old(self)@.len() as int),
        ensures
            final(self).wf(),
            r@ == old(self)@.subrange(range_start(start), range_end(end, old(self)@.len() as int)),
            final(self)@ == old(self)@.subrange(0, range_start(start)) + old(self)@.subrange(
                range_end(end, old(self)@.len() as int),
                old(self)@.len() as int,
            ),
            final(self).cap() == old(self).cap(),
    {
        let len = self.len();
        let (s, e) = range_indices(start, end, len);
        let mut drained: Vec<T> = Vec::new();
        let mut i: usize = s;
        while i < e
            invariant
                s <= i <= e <= len,
                len == self@.len(),
                drained@ == self@.subrange(s as int, i as int),
            decreases e - i,
        {
            drained.push(self.elems[i]);
            i = i + 1;
            proof {
                assert(drained@ =~= self@.subrange(s as int, i as int));
            }
        }
        let tail_len = len - e;
        let mut j: usize = 0;
        while j < tail_len
            invariant
                s <= e <= len,
                tail_len == len - e,
                j <= tail_len,
                len == old(self)@.len(),
                self.elems@.len() == len,
                self.wf(),
                self.cap() == old(self).cap(),
                forall|k: int| 0 <= k < s ==> #[trigger] self.elems@[k] == old(self)@[k],
                forall|k: int| s <= k < s + j ==> #[trigger] self.elems@[k] == old(self)@[k - s + e],
                forall|k: int| s + j <= k < len ==> #[trigger] self.elems@[k] == old(self)@[k],
            decreases tail_len - j,
        {
            let v = self.elems[e + j];
            self.elems.set(s + j, v);
            j = j + 1;
        }
        self.elems.truncate(s + tail_len);
        proof {
            assert(self@ =~= old(self)@.subrange(0, s as int) + old(self)@.subrange(e as int, len as int));
        }
        drained
    }

    /// Replaces the elements in the range `start`..`end` with a copy of
    /// `replace_with` and returns the replaced elements in order; the buffer
    /// grows to exactly the new length when the result does not fit.
    pub fn splice(&mut self, start: Bound, end: Bound, replace_with: &[T]) -> (r: Vec<T>)
        requires
            old(self).wf(),
            valid_range(start, end, old(self)@.len() as int),
            old(self)@.len() - (range_end(end, old(self)@.len() as int) - range_start(start))
                + replace_with@.len() <= usize::MAX,
            old(self)@.len() - (range_end(end, old(self)@.len() as int) - range_start(start))
                + replace_with@.len() > old(self).cap() ==> allocatable::<T>(
                old(self)@.len() - (range_end(end, old(self)@.len() as int) - range_start(start))
                    + replace_with@.len(),
            ),
        ensures
            final(self).wf(),
            r@ == old(self)@.subrange(range_start(start), range_end(end, old(self)@.len() as int)),
            final(self)@ == old(self)@.subrange(0, range_start(start)) + replace_with@
                + old(self)@.subrange(range_end(end, old(self)@.len() as int), old(self)@.len() as int),
            final(self).cap() == (if final(self)@.len() > old(self).cap() {
                final(self)@.len()
            } else {
                old(self).cap()
            }),
    {
        let len = self.len();
        let (s, e) = range_indices(start, end, len);
        let removed = self.drain(start, end);
        let tail = self.split_off(s);
        proof {
            let new_len = len - (e - s) + replace_with@.len();
            if s + replace_with@.len() > self.cap() {
                lemma_allocatable_downward::<T>(s + replace_with@.len(), new_len);
            }
        }
        self.extend_from_slice(replace_with);
        self.extend_from_slice(tail.as_slice());
        proof {
            assert(self@ =~= old(self)@.subrange(0, s as int) + replace_with@ + old(self)@.subrange(
                e as int,
                len as int,
            ));
        }
        removed
    }

    /// Removes the first element equal to `item` and returns it; without such
    /// an element nothing changes and the result is `None`.
    pub fn remove_item<V>(&mut self, item: &V) -> (r: Option<T>) where T: PartialEq<V>
        requires
            old(self).wf(),
        ensures
            final(self).wf(),
            final(self).cap() == old(self).cap(),
            r is None ==> final(self)@ == old(self)@,
            r matches Some(x) ==> exists|i: int|
                0 <= i < old(self)@.len() && x == old(self)@[i] && final(self)@ == old(
                    self,
                )@.remove(i),
            <T as PartialEqSpec<V>>::obeys_eq_spec() ==> match r {
                None => forall|i: int|
                    0 <= i < old(self)@.len() ==> !#[trigger] old(self)@[i].eq_spec(item),
                Some(x) => exists|i: int|
                    is_first_match(old(self)@, item, i) && x == old(self)@[i] && final(self)@ == old(
                        self,
                    )@.remove(i),
            },
    {
        let len = self.len();
        let mut i: usize = 0;
        while i < len
            invariant
                i <= len,
                len == self@.len(),
                self == old(self),
                self.wf(),
                <T as PartialEqSpec<V>>::obeys_eq_spec() ==> forall|j: int|
                    0 <= j < i ==> !#[trigger] self@[j].eq_spec(item),
            decreases len - i,
        {
            if self.elems[i].eq(item) {
                let ghost at = i as int;
                let x = self.remove(i);
                proof {
                    assert(x == old(self)@[at]);
                    assert(<T as PartialEqSpec<V>>::obeys_eq_spec() ==> is_first_match(old(self)@, item, at));
                }
                return Some(x);
            }
            i = i + 1;
        }
        None
    }

    /// Appends the given elements, as `extend_from_slice` does.
    pub fn extend(&mut self, items: Vec<T>)
        requires
            old(self).wf(),
            old(self)@.len() + items@.len() <= usize::MAX,
            old(self)@.len() + items@.len() > old(self).cap() ==> allocatable::<T>(
                (old(self)@.len() + items@.len()) as int,
            ),
        ensures
            final(self).wf(),
            final(self)@ == old(self)@ + items@,
            final(self).cap() == (if old(self)@.len() + items@.len() > old(self).cap() {
                (old(self)@.len() + items@.len()) as nat
            } else {
                old(self).cap()
            }),
    {
        self.extend_from_slice(items.as_slice());
    }

    /// A new vector holding the same elements, with capacity exactly their number.
    pub fn clone(&self) -> (r: Self)
        requires
            self.wf(),
        ensures
            r.wf(),
            r@ == self@,
            r.cap() == self@.len(),
    {
        proof {
            lemma_allocatable_downward::<T>(self@.len() as int, self.capacity as int);
        }
        Self::from_slice(self.as_slice())
    }
}

impl<T: Copy> core::ops::Deref for GPUVec<T> {
    type Target = [T];

    /// The elements, as a slice.
    fn deref(&self) -> (r: &[T])
        ensures
            r@ == self@,
    {
        self.elems.as_slice()
    }
}

impl<T: Copy> core::ops::DerefMut for GPUVec<T> {
    /// The elements, as a mutable slice; the capacity and buffer stay as they are.
    fn deref_mut(&mut self) -> (r: &mut [T])
        ensures
            old(self).wf() && final(r)@.len() == r@.len() ==> final(self).wf(),
            r@ == old(self)@,
            final(r)@ == final(self)@,
            final(self).cap() == old(self).cap(),
            final(self).buffer_len() == old(self).buffer_len(),
    {
        self.elems.as_mut_slice()
    }
}

impl<T: Copy + PartialEq> PartialEq for GPUVec<T> {
    /// Two vectors are equal when they have the same length and equal
    /// elements at each index.
    fn eq(&self, other: &Self) -> (r: bool) {
        let len = self.len();
        if len != other.len() {
            return false;
        }
        let mut i: usize = 0;
        while i < len
            invariant
                i <= len,
                len == self@.len(),
                len == other@.len(),
                T::obeys_eq_spec() ==> forall|k: int|
                    0 <= k < i ==> #[trigger] self@[k].eq_spec(&other@[k]),
            decreases len - i,
        {
            if self.elems[i] != other.elems[i] {
                return false;
            }
            i = i + 1;
        }
        true
    }
}

impl<T: Copy + PartialEq> PartialEqSpecImpl for GPUVec<T> {
    open spec fn obeys_eq_spec() -> bool {
        T::obeys_eq_spec()
    }

    open spec fn eq_spec(&self, other: &Self) -> bool {
        &&& self@.len() == other@.len()
        &&& forall|k: int| 0 <= k < self@.len() ==> #[trigger] self@[k].eq_spec(&other@[k])
    }
}

impl<T: Copy> IntoIterator for GPUVec<T> {
    type Item = T;
    type IntoIter = std::vec::IntoIter<T>;

    /// Consumes the vector, yielding its elements front to back.
    fn into_iter(self) -> (r: std::vec::IntoIter<T>)
        ensures
            vstd::std_specs::vec::into_iter_elts(r) == self@,
            vstd::std_specs::iter::IteratorSpec::remaining(&r) == self@,
    {
        broadcast use vstd::std_specs::vec::axiom_spec_into_iter;

        self.elems.into_iter()
    }
}

} // verus!
