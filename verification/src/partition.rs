//! Splitting an ordered file batch into near-equal contiguous partitions,
//! one per upload worker.

use vstd::prelude::*;

use crate::filesystem::File;

verus! {

/// Size of partition `i` when `len` items are split across `k` workers: every
/// partition gets `len / k` items, and the first `len % k` partitions one
/// more.
pub open spec fn part_len(len: nat, k: nat, i: int) -> nat
    recommends
        k >= 1,
{
    if i < len % k {
        len / k + 1
    } else {
        len / k
    }
}

/// Sum of the sizes of the first `i` partitions.
pub open spec fn sum_part_lens(len: nat, k: nat, i: int) -> nat
    decreases i,
{
    if i <= 0 {
        0
    } else {
        sum_part_lens(len, k, i - 1) + part_len(len, k, i - 1)
    }
}

/// Closed form of `sum_part_lens`.
pub proof fn lemma_sum_part_lens(len: nat, k: nat, i: int)
    requires
        1 <= k,
        0 <= i <= k,
    ensures
        sum_part_lens(len, k, i) == i * (len / k) + (if i <= len % k {
            i
        } else {
            (len % k) as int
        }),
    decreases i,
{
    if i == 0 {
        assert(0 * (len / k) == 0) by (nonlinear_arith);
    } else {
        lemma_sum_part_lens(len, k, i - 1);
        assert((i - 1) * (len / k) + (len / k) == i * (len / k)) by (nonlinear_arith);
    }
}

/// All `k` partitions together hold exactly the `len` items.
pub proof fn lemma_sum_all_parts(len: nat, k: nat)
    requires
        1 <= k,
    ensures
        sum_part_lens(len, k, k as int) == len,
{
    lemma_sum_part_lens(len, k, k as int);
    vstd::arithmetic::div_mod::lemma_fundamental_div_mod(len as int, k as int);
    assert(k * (len / k) == (len / k) * k) by (nonlinear_arith);
}

/// Partition sizes never differ by more than one, and earlier partitions are
/// never smaller than later ones.
pub proof fn lemma_partition_sizes(len: nat, k: nat, i: int, j: int)
    requires
        1 <= k,
        0 <= i <= j < k,
    ensures
        part_len(len, k, j) <= part_len(len, k, i) <= part_len(len, k, j) + 1,
{
}

/// The views of the partitions, in order.
pub open spec fn parts_views(s: Seq<Vec<File>>) -> Seq<Seq<File>> {
    Seq::new(s.len(), |i: int| s[i]@)
}

/// The concatenation of the partitions, in order.
pub open spec fn concat_all(parts: Seq<Seq<File>>) -> Seq<File>
    decreases parts.len(),
{
    if parts.len() == 0 {
        Seq::empty()
    } else {
        concat_all(parts.drop_last()) + parts.last()
    }
}

/// Splits `vec_org` into `num_threads` contiguous partitions in the original
/// order: concatenating the partitions in order yields `vec_org` back, and
/// partition `i` holds exactly `part_len` items.
pub fn split_vec_to_vecs(vec_org: Vec<File>, num_threads: usize) -> (r: Vec<Vec<File>>)
    requires
        1 <= num_threads,
    ensures
        r@.len() == num_threads,
        forall|i: int|
            0 <= i < num_threads ==> (#[trigger] r@[i])@.len() == part_len(
                vec_org@.len(),
                num_threads as nat,
                i,
            ),
        concat_all(parts_views(r@)) == vec_org@,
{
    let ghost orig = vec_org@;
    let ghost len = vec_org@.len();
    let ghost k = num_threads as nat;
    let total = vec_org.len();
    let base = total / num_threads;
    let rem = total % num_threads;

    let mut rest = vec_org;
    let mut result: Vec<Vec<File>> = Vec::new();
    let mut i: usize = 0;
    proof {
        assert(parts_views(result@) =~= Seq::<Seq<File>>::empty());
        assert(concat_all(parts_views(result@)) + rest@ =~= orig);
    }
    while i < num_threads
        invariant
            0 <= i <= num_threads,
            1 <= num_threads,
            base == len / k,
            rem == len % k,
            k == num_threads as nat,
            len == orig.len(),
            len <= usize::MAX,
            result@.len() == i,
            forall|j: int| 0 <= j < i ==> (#[trigger] result@[j])@.len() == part_len(len, k, j),
            rest@.len() == len - sum_part_lens(len, k, i as int),
            concat_all(parts_views(result@)) + rest@ == orig,
        decreases num_threads - i,
    {
        proof {
            if i < rem {
                // a partition gets an extra item only when there are at
                // least two partitions, so `base + 1` cannot overflow
                if k == 1 {
                    assert(len % 1 == 0) by (nonlinear_arith);
                }
                assert(k >= 2);
                vstd::arithmetic::div_mod::lemma_fundamental_div_mod(len as int, k as int);
                assert(base * k >= base * 2) by (nonlinear_arith)
                    requires
                        base >= 0,
                        k >= 2,
                ;
                assert(k * (len as int / k as int) == base * k) by (nonlinear_arith)
                    requires
                        base == len as int / k as int,
                ;
                assert(base + base <= len);
            }
        }
        let this_len = if i < rem {
            base + 1
        } else {
            base
        };
        proof {
            assert(this_len == part_len(len, k, i as int));
            lemma_sum_part_lens(len, k, i as int);
            lemma_sum_part_lens(len, k, i as int + 1);
            lemma_sum_all_parts(len, k);
            assert(sum_part_lens(len, k, i as int + 1) <= sum_part_lens(len, k, k as int)) by {
                lemma_sum_part_lens(len, k, k as int);
                vstd::arithmetic::mul::lemma_mul_inequality(
                    i as int + 1,
                    k as int,
                    len as int / k as int,
                );
            }
            assert(this_len <= rest@.len());
        }
        let ghost rest_before = rest@;
        let ghost parts_before = parts_views(result@);
        let tail = rest.split_off(this_len);
        result.push(rest);
        rest = tail;
        i = i + 1;
        proof {
            assert(parts_views(result@) =~= parts_before.push(rest_before.take(this_len as int)));
            assert(parts_views(result@).drop_last() =~= parts_before);
            assert(concat_all(parts_views(result@)) + rest@ =~= orig);
        }
    }
    proof {
        lemma_sum_all_parts(len, k);
        assert(rest@.len() == 0);
        assert(concat_all(parts_views(result@)) =~= orig);
    }
    result
}

} // verus!
