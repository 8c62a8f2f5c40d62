use vstd::prelude::*;

verus! {

use core::cmp::Ordering;
use core::hash::{Hash, Hasher};
use vstd::std_specs::cmp::PartialOrdSpec;
use vstd::std_specs::cmp::PartialOrdSpecImpl;
use crate::gpu_vec::{lemma_suffix_step, suffix, GPUVec};

/// How two lengths compare.
pub open spec fn length_order(x: nat, y: nat) -> Option<Ordering> {
    if x < y {
        Some(Ordering::Less)
    } else if x == y {
        Some(Ordering::Equal)
    } else {
        Some(Ordering::Greater)
    }
}

/// Lexicographic comparison: the first pair of elements that does not
/// compare equal decides (an incomparable pair makes the whole incomparable);
/// when one sequence is a prefix of the other, the shorter is less.
pub open spec fn lexicographic_order<T: PartialOrd>(a: Seq<T>, b: Seq<T>) -> Option<Ordering>
    decreases a.len(),
{
    if a.len() == 0 || b.len() == 0 {
        length_order(a.len(), b.len())
    } else {
        match a[0].partial_cmp_spec(&b[0]) {
            Some(Ordering::Equal) => lexicographic_order(a.drop_first(), b.drop_first()),
            other => other,
        }
    }
}

/// Lexicographic order is decided at the first index where the elements do
/// not compare equal, scanning from index 0: when the first `i` pairs compare
/// equal, the pair at `i` decides if it is not equal, and when one sequence
/// runs out first the shorter one is less.
pub proof fn law_first_difference_decides<T: PartialOrd>(a: Seq<T>, b: Seq<T>, i: int)
    requires
        0 <= i <= a.len(),
        i <= b.len(),
        forall|k: int| 0 <= k < i ==> #[trigger] a[k].partial_cmp_spec(&b[k]) == Some(Ordering::Equal),
    ensures
        i < a.len() && i < b.len() && a[i].partial_cmp_spec(&b[i]) != Some(Ordering::Equal)
            ==> lexicographic_order(a, b) == a[i].partial_cmp_spec(&b[i]),
        i == a.len() && i < b.len() ==> lexicographic_order(a, b) == Some(Ordering::Less),
        i == a.len() && i == b.len() ==> lexicographic_order(a, b) == Some(Ordering::Equal),
        i < a.len() && i == b.len() ==> lexicographic_order(a, b) == Some(Ordering::Greater),
    decreases i,
{
    if i > 0 {
        assert(a[0].partial_cmp_spec(&b[0]) == Some(Ordering::Equal));
        assert forall|k: int| 0 <= k < i - 1 implies #[trigger] a.drop_first()[k].partial_cmp_spec(
            &b.drop_first()[k],
        ) == Some(Ordering::Equal) by {
            assert(a.drop_first()[k] == a[k + 1]);
            assert(b.drop_first()[k] == b[k + 1]);
        }
        law_first_difference_decides(a.drop_first(), b.drop_first(), i - 1);
    }
}

/// Compares two slices lexicographically.
fn compare_slices<T: Copy + PartialOrd>(a: &[T], b: &[T]) -> (r: Option<Ordering>)
    ensures
        T::obeys_partial_cmp_spec() ==> r == lexicographic_order(a@, b@),
{
    let n = if a.len() < b.len() {
        a.len()
    } else {
        b.len()
    };
    proof {
        assert(suffix(a@, 0) =~= a@);
        assert(suffix(b@, 0) =~= b@);
    }
    let mut i: usize = 0;
    while i < n
        invariant
            i <= n,
            n <= a@.len(),
            n <= b@.len(),
            n == a@.len() || n == b@.len(),
            T::obeys_partial_cmp_spec() ==> lexicographic_order(a@, b@) == lexicographic_order(
                suffix(a@, i),
                suffix(b@, i),
            ),
        decreases n - i,
    {
        proof {
            lemma_suffix_step(a@, i);
            lemma_suffix_step(b@, i);
        }
        let c = a[i].partial_cmp(&b[i]);
        match c {
            Some(Ordering::Equal) => {},
            _ => {
                return c;
            },
        }
        i = i + 1;
    }
    if a.len() < b.len() {
        Some(Ordering::Less)
    } else if a.len() == b.len() {
        Some(Ordering::Equal)
    } else {
        Some(Ordering::Greater)
    }
}

impl<T: Copy + PartialOrd> PartialOrd for GPUVec<T> {
    /// Compares the elements lexicographically.
    fn partial_cmp(&self, other: &Self) -> (r: Option<Ordering>) {
        compare_slices(self.as_slice(), other.as_slice())
    }
}

impl<T: Copy + PartialOrd> PartialOrdSpecImpl for GPUVec<T> {
    open spec fn obeys_partial_cmp_spec() -> bool {
        T::obeys_partial_cmp_spec()
    }

    open spec fn partial_cmp_spec(&self, other: &Self) -> Option<Ordering> {
        lexicographic_order(self@, other@)
    }
}

/// Feeds the elements to `state` through std's `Hash` for slices
/// (`<[T] as Hash>::hash`). Nothing is claimed of the hasher's state afterwards.
#[verifier::external_body]
fn hash_slice<T: Hash, H: Hasher>(elements: &[T], state: &mut H) {
    elements.hash(state)
}

impl<T: Copy + Hash> Hash for GPUVec<T> {
    /// Hashes the elements as a slice, so equal vectors hash alike whatever
    /// their capacities.
    fn hash<H: Hasher>(&self, state: &mut H) {
        hash_slice(self.as_slice(), state)
    }
}

} // verus!
