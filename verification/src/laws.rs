use vstd::prelude::*;

verus! {

use vstd::layout::size_of;
use vstd::std_specs::cmp::PartialEqSpec;
use crate::gpu_vec::{filter_by, GPUVec};
use crate::util::{lemma_round_up_spec, round_up_spec, MemAlign};

/// Rounding up a value that is already rounded up changes nothing.
pub proof fn law_round_up_idempotent(x: int, to: int)
    requires
        x >= 0,
        to > 0,
    ensures
        round_up_spec(round_up_spec(x, to), to) == round_up_spec(x, to),
{
    lemma_round_up_spec(x, to);
    lemma_round_up_spec(round_up_spec(x, to), to);
}

/// Inserting an element at an index and then removing the element at that
/// index gives back the inserted element and the original contents.
pub proof fn law_insert_then_remove<T>(s: Seq<T>, i: int, x: T)
    requires
        0 <= i <= s.len(),
    ensures
        s.insert(i, x)[i] == x,
        s.insert(i, x).remove(i) == s,
{
    assert(s.insert(i, x).remove(i) =~= s);
}

/// Pushing an element and then swap-removing the last index gives back the
/// pushed element and the original contents.
pub proof fn law_push_then_swap_remove_last<T>(s: Seq<T>, x: T)
    ensures
        s.push(x)[s.len() as int] == x,
        s.push(x).update(s.len() as int, s.push(x).last()).drop_last() == s,
{
    assert(s.push(x).update(s.len() as int, s.push(x).last()).drop_last() =~= s);
}

/// Splitting off at `at` and appending the split-off part back restores the contents.
pub proof fn law_split_off_then_extend<T>(s: Seq<T>, at: int)
    requires
        0 <= at <= s.len(),
    ensures
        s.subrange(0, at) + s.subrange(at, s.len() as int) == s,
{
    assert(s.subrange(0, at) + s.subrange(at, s.len() as int) =~= s);
}

/// Draining the range `a`..`b` and splicing the drained elements back in at
/// `a` (replacing the empty range `a`..`a`) restores the contents.
pub proof fn law_drain_then_splice_back<T>(s: Seq<T>, a: int, b: int)
    requires
        0 <= a <= b <= s.len(),
    ensures
        ({
            let drained = s.subrange(a, b);
            let rest = s.subrange(0, a) + s.subrange(b, s.len() as int);
            rest.subrange(0, a) + drained + rest.subrange(a, rest.len() as int) == s
        }),
{
    let drained = s.subrange(a, b);
    let rest = s.subrange(0, a) + s.subrange(b, s.len() as int);
    assert(rest.subrange(0, a) =~= s.subrange(0, a));
    assert(rest.subrange(a, rest.len() as int) =~= s.subrange(b, s.len() as int));
    assert(rest.subrange(0, a) + drained + rest.subrange(a, rest.len() as int) =~= s);
}

/// Retaining never adds elements: the kept elements are at most as many as
/// the original ones, keeping every element keeps all of them in order, and
/// keeping none leaves nothing.
pub proof fn law_retain_bounds<T>(s: Seq<T>, keep: Seq<bool>)
    requires
        keep.len() == s.len(),
    ensures
        filter_by(s, keep).len() <= s.len(),
        (forall|i: int| 0 <= i < s.len() ==> #[trigger] keep[i]) ==> filter_by(s, keep) == s,
        (forall|i: int| 0 <= i < s.len() ==> !#[trigger] keep[i]) ==> filter_by(s, keep).len() == 0,
    decreases s.len(),
{
    if s.len() > 0 {
        let k = keep.subrange(0, s.len() - 1);
        law_retain_bounds(s.drop_last(), k);
        if forall|i: int| 0 <= i < s.len() ==> #[trigger] keep[i] {
            assert forall|i: int| 0 <= i < s.drop_last().len() implies #[trigger] k[i] by {
                assert(keep[i]);
            }
            assert(keep[s.len() - 1]);
            assert(s.drop_last().push(s.last()) =~= s);
        }
        if forall|i: int| 0 <= i < s.len() ==> !#[trigger] keep[i] {
            assert forall|i: int| 0 <= i < s.drop_last().len() implies !#[trigger] k[i] by {
                assert(!keep[i]);
            }
            assert(!keep[s.len() - 1]);
        }
    }
}

/// The kept elements are exactly the elements whose flag is set, in order:
/// each kept element is an original element whose flag is set.
pub proof fn law_retain_keeps_flagged<T>(s: Seq<T>, keep: Seq<bool>, j: int)
    requires
        keep.len() == s.len(),
        0 <= j < filter_by(s, keep).len(),
    ensures
        exists|i: int| 0 <= i < s.len() && keep[i] && #[trigger] s[i] == filter_by(s, keep)[j],
    decreases s.len(),
{
    let k = keep.subrange(0, s.len() - 1);
    let rest = filter_by(s.drop_last(), k);
    if j < rest.len() {
        law_retain_keeps_flagged(s.drop_last(), k, j);
        let i = choose|i: int| 0 <= i < s.drop_last().len() && k[i] && #[trigger] s.drop_last()[i] == rest[j];
        assert(s[i] == s.drop_last()[i]);
        assert(keep[i] == k[i]);
    } else {
        assert(keep[s.len() - 1]);
        assert(s[s.len() - 1] == filter_by(s, keep)[j]);
    }
}

/// The number of set flags in `keep`.
pub open spec fn count_set(keep: Seq<bool>) -> nat {
    keep.filter(|b: bool| b).len()
}

/// Counting the set flags of a sequence extended by one flag.
proof fn lemma_count_set_step(keep: Seq<bool>)
    requires
        keep.len() > 0,
    ensures
        count_set(keep) == count_set(keep.drop_last()) + (if keep.last() { 1int } else { 0int }),
{
    reveal(Seq::filter);
}

/// Retaining keeps exactly the flagged elements, in order: the result has as
/// many elements as there are set flags, and the element at flagged index `i`
/// lands at the position given by the number of flags set before `i`.
pub proof fn law_retain_keeps_every_flagged<T>(s: Seq<T>, keep: Seq<bool>)
    requires
        keep.len() == s.len(),
    ensures
        filter_by(s, keep).len() == count_set(keep),
        forall|i: int|
            0 <= i < s.len() && #[trigger] keep[i] ==> count_set(keep.take(i)) < filter_by(s, keep).len()
                && filter_by(s, keep)[count_set(keep.take(i)) as int] == s[i],
    decreases s.len(),
{
    if s.len() > 0 {
        let n = s.len() - 1;
        let k = keep.subrange(0, n as int);
        assert(k =~= keep.drop_last());
        law_retain_keeps_every_flagged(s.drop_last(), k);
        lemma_count_set_step(keep);
        assert(keep.take(n as int) =~= k);
        let rest = filter_by(s.drop_last(), k);
        assert forall|i: int|
            0 <= i < s.len() && #[trigger] keep[i] implies count_set(keep.take(i)) < filter_by(s, keep).len()
                && filter_by(s, keep)[count_set(keep.take(i)) as int] == s[i] by {
            if i < n {
                assert(keep.take(i) =~= k.take(i));
                assert(k[i] == keep[i]);
                assert(s.drop_last()[i] == s[i]);
            }
        }
    }
}

/// A plan is valid exactly when the bytes are `capacity` whole elements
/// followed by `remainder` bytes: a plan whose parts add up to less, or to
/// more, than its byte size is not valid.
pub proof fn law_plan_valid_exactly<T>(plan: MemAlign<T>)
    ensures
        plan.is_valid_spec() <==> size_of::<T>() * plan.capacity + plan.remainder == plan.byte_size,
        size_of::<T>() * plan.capacity + plan.remainder < plan.byte_size ==> !plan.is_valid_spec(),
        size_of::<T>() * plan.capacity + plan.remainder > plan.byte_size ==> !plan.is_valid_spec(),
{
}

/// Two vectors are equal exactly when they have the same length and equal
/// elements at every index, the first one included (for element types
/// whose equality obeys its specification).
pub proof fn law_equal_vectors_agree_everywhere<T: Copy + PartialEq>(a: GPUVec<T>, b: GPUVec<T>)
    ensures
        <GPUVec<T> as PartialEqSpec>::eq_spec(&a, &b) <==> (a@.len() == b@.len() && forall|k: int|
            0 <= k < a@.len() ==> #[trigger] a@[k].eq_spec(&b@[k])),
        <GPUVec<T> as PartialEqSpec>::eq_spec(&a, &b) && a@.len() > 0 ==> a@[0].eq_spec(&b@[0]),
        a@.len() != b@.len() ==> !<GPUVec<T> as PartialEqSpec>::eq_spec(&a, &b),
{
}

} // verus!
