//! Uniform sampling of row indices without replacement, and selecting the
//! marked rows of a stream in their original order.

use vstd::prelude::*;
use rand::seq::SliceRandom;

verus! {

broadcast use vstd::seq_lib::group_to_multiset_ensures;

/// Relies on rand's `SliceRandom::shuffle`: permutes the elements in
/// place — exactly the old elements remain, in an order that depends on
/// the thread's generator.
#[verifier::external_body]
fn shuffle_vec(v: &mut Vec<usize>)
    ensures
        final(v)@.to_multiset() == old(v)@.to_multiset(),
        final(v)@.len() == old(v)@.len(),
{
    v.shuffle(&mut rand::rng());
}

/// The numbers `0 .. size`, in order.
fn range_vec(size: usize) -> (r: Vec<usize>)
    ensures
        r@.len() == size,
        forall|i: int| 0 <= i < size ==> r@[i] == i,
{
    let mut r: Vec<usize> = Vec::new();
    let mut i: usize = 0;
    while i < size
        invariant
            i <= size,
            r@.len() == i,
            forall|j: int| 0 <= j < i ==> r@[j] == j,
        decreases size - i,
    {
        r.push(i);
        i = i + 1;
    }
    r
}

/// How many entries are marked.
pub open spec fn count_true(flags: Seq<bool>) -> nat
    decreases flags.len(),
{
    if flags.len() == 0 {
        0
    } else {
        count_true(flags.drop_last()) + if flags.last() {
            1nat
        } else {
            0nat
        }
    }
}

/// Marking one unmarked entry raises the count by one.
proof fn lemma_count_true_update(flags: Seq<bool>, i: int)
    requires
        0 <= i < flags.len(),
        !flags[i],
    ensures
        count_true(flags.update(i, true)) == count_true(flags) + 1,
    decreases flags.len(),
{
    let upd = flags.update(i, true);
    if i == flags.len() - 1 {
        assert(upd.drop_last() =~= flags.drop_last());
    } else {
        assert(upd.drop_last() =~= flags.drop_last().update(i, true));
        assert(upd.last() == flags.last());
        lemma_count_true_update(flags.drop_last(), i);
    }
}

/// Marks a uniformly drawn set of distinct row indices among `0 .. size`:
/// exactly `sample` of them, or all of them when the sample covers the
/// dataset. With a sample at least the dataset's size every index is
/// marked; with a sample of zero none is.
pub fn sample_indexes(sample: usize, size: usize) -> (r: Vec<bool>)
    ensures
        r@.len() == size,
        count_true(r@) == if sample < size {
            sample as nat
        } else {
            size as nat
        },
        sample >= size ==> forall|i: int| 0 <= i < size ==> r@[i],
        sample == 0 ==> forall|i: int| 0 <= i < size ==> !r@[i],
{
    let mut v = range_vec(size);
    let ghost base = v@;
    shuffle_vec(&mut v);
    proof {
        assert forall|k: int| 0 <= k < v@.len() implies v@[k] < size by {
            assert(v@.contains(v@[k]));
            assert(v@.to_multiset().count(v@[k]) > 0);
            assert(base.to_multiset().count(v@[k]) > 0);
            assert(base.contains(v@[k]));
            let i = choose|i: int| 0 <= i < base.len() && base[i] == v@[k];
        }
        assert(base.no_duplicates()) by {
            assert(forall|i: int, j: int|
                0 <= i < base.len() && 0 <= j < base.len() && i != j ==> base[i] != base[j]);
        };
        base.lemma_multiset_has_no_duplicates();
        v@.lemma_multiset_has_no_duplicates_conv();
        assert(v@.no_duplicates());
    }
    let mut flags: Vec<bool> = vec![false; size];
    let n = if sample < size {
        sample
    } else {
        size
    };
    let mut k: usize = 0;
    proof {
        assert(count_true(flags@) == 0) by {
            lemma_count_true_all_false(flags@);
        };
    }
    while k < n
        invariant
            k <= n <= size,
            n == (if sample < size {
                sample
            } else {
                size
            }),
            v@.len() == size,
            v@.no_duplicates(),
            flags@.len() == size,
            forall|j: int| 0 <= j < v@.len() ==> v@[j] < size,
            base.to_multiset() == v@.to_multiset(),
            base.len() == size,
            forall|i: int| 0 <= i < size ==> base[i] == i,
            count_true(flags@) == k,
            forall|i: int|
                0 <= i < size ==> ((#[trigger] flags@[i]) <==> exists|j: int|
                    0 <= j < k && v@[j] == i),
        decreases n - k,
    {
        let idx = v[k];
        let ghost f0 = flags@;
        proof {
            if f0[idx as int] {
                let j = choose|j: int| 0 <= j < k && v@[j] == idx as int;
                assert(v@[j] == v@[k as int]);
                assert(false);
            }
        }
        flags[idx] = true;
        proof {
            lemma_count_true_update(f0, idx as int);
            assert forall|i: int|
                0 <= i < size implies ((#[trigger] flags@[i]) <==> exists|j: int|
                0 <= j < k + 1 && v@[j] == i) by {
                if i == idx {
                    assert(v@[k as int] == i);
                } else {
                    assert(flags@[i] == f0[i]);
                    if flags@[i] {
                        let j = choose|j: int| 0 <= j < k && v@[j] == i;
                        assert(0 <= j < k + 1 && v@[j] == i);
                    } else {
                        if exists|j: int| 0 <= j < k + 1 && v@[j] == i {
                            let j = choose|j: int| 0 <= j < k + 1 && v@[j] == i;
                            assert(j < k);
                        }
                    }
                }
            }
        }
        k = k + 1;
    }
    proof {
        if sample >= size {
            assert forall|i: int| 0 <= i < size implies flags@[i] by {
                assert(base[i] == i);
                assert(base.contains(i as usize));
                assert(base.to_multiset().count(i as usize) > 0);
                assert(v@.to_multiset().count(i as usize) > 0);
                assert(v@.contains(i as usize));
                let j = choose|j: int| 0 <= j < v@.len() && v@[j] == i as usize;
                assert(0 <= j < n && v@[j] == i);
            }
        }
    }
    flags
}

/// A fully unmarked flag list has a count of zero.
proof fn lemma_count_true_all_false(flags: Seq<bool>)
    requires
        forall|i: int| 0 <= i < flags.len() ==> !flags[i],
    ensures
        count_true(flags) == 0,
    decreases flags.len(),
{
    if flags.len() > 0 {
        lemma_count_true_all_false(flags.drop_last());
    }
}

/// The rows whose index is marked, from position `k` on, in their
/// original order.
pub open spec fn selected_from<T>(rows: Seq<T>, flags: Seq<bool>, k: int) -> Seq<T>
    decreases rows.len(),
{
    if rows.len() == 0 {
        Seq::empty()
    } else {
        let rest = selected_from(rows.skip(1), flags, k + 1);
        if 0 <= k < flags.len() && flags[k] {
            seq![rows[0]] + rest
        } else {
            rest
        }
    }
}

/// The rows whose index is marked, in their original order.
pub open spec fn selected_rows<T>(rows: Seq<T>, flags: Seq<bool>) -> Seq<T> {
    selected_from(rows, flags, 0)
}

/// Keeps the rows whose index is marked, in their original order — the
/// sample selects indices, it never reorders.
pub fn select_rows<T>(rows: Vec<T>, flags: &Vec<bool>) -> (r: Vec<T>)
    ensures
        r@ == selected_rows(rows@, flags@),
{
    let ghost rows0 = rows@;
    let mut rows = rows;
    let total = rows.len();
    let mut r: Vec<T> = Vec::new();
    let mut k: usize = 0;
    proof {
        assert(r@ + selected_from(rows@, flags@, 0) =~= selected_from(rows0, flags@, 0));
    }
    while rows.len() > 0
        invariant
            k + rows@.len() == total,
            selected_rows(rows0, flags@) == r@ + selected_from(rows@, flags@, k as int),
        decreases rows@.len(),
    {
        let ghost pre = rows@;
        let item = rows.remove(0);
        proof {
            assert(rows@ =~= pre.skip(1));
        }
        if k < flags.len() && flags[k] {
            let ghost r0 = r@;
            r.push(item);
            proof {
                assert(r0 + (seq![pre[0]] + selected_from(pre.skip(1), flags@, k + 1)) =~= r@
                    + selected_from(rows@, flags@, k + 1));
            }
        }
        k = k + 1;
    }
    proof {
        assert(selected_from(rows@, flags@, k as int) =~= Seq::<T>::empty());
        assert(r@ + Seq::<T>::empty() =~= r@);
    }
    r
}

/// A full sample keeps every row in order, and an empty sample keeps none.
pub proof fn lemma_sample_extremes<T>(rows: Seq<T>, flags: Seq<bool>)
    requires
        flags.len() >= rows.len(),
    ensures
        (forall|i: int| 0 <= i < flags.len() ==> flags[i]) ==> selected_rows(rows, flags) == rows,
        (forall|i: int| 0 <= i < flags.len() ==> !flags[i]) ==> selected_rows(rows, flags)
            == Seq::<T>::empty(),
{
    lemma_selected_from_extremes(rows, flags, 0);
}

/// The generalisation of `lemma_sample_extremes` to an arbitrary starting
/// position.
proof fn lemma_selected_from_extremes<T>(rows: Seq<T>, flags: Seq<bool>, k: int)
    requires
        0 <= k,
        flags.len() >= k + rows.len(),
    ensures
        (forall|i: int| 0 <= i < flags.len() ==> flags[i]) ==> selected_from(rows, flags, k)
            == rows,
        (forall|i: int| 0 <= i < flags.len() ==> !flags[i]) ==> selected_from(rows, flags, k)
            == Seq::<T>::empty(),
    decreases rows.len(),
{
    if rows.len() > 0 {
        lemma_selected_from_extremes(rows.skip(1), flags, k + 1);
        if forall|i: int| 0 <= i < flags.len() ==> flags[i] {
            assert(flags[k]);
            assert(selected_from(rows, flags, k) =~= rows);
        }
    }
}

} // verus!
