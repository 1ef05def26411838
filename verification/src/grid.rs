//! The layout of an exhaustive parameter grid: every choice of one value per
//! parameter, parameters in a fixed order, the last varying fastest.
use vstd::prelude::*;
use vstd::arithmetic::div_mod::{lemma_fundamental_div_mod_converse};

verus! {

/// Every index tuple `(i_0, .., i_{n-1})` with `i_k < sizes[k]`, in
/// lexicographic order.
pub open spec fn index_combos(sizes: Seq<usize>) -> Seq<Seq<usize>>
    decreases sizes.len(),
{
    if sizes.len() == 0 {
        seq![Seq::empty()]
    } else {
        let prev = index_combos(sizes.drop_last());
        let m = sizes.last() as int;
        Seq::new((prev.len() * m) as nat, |k: int| prev[k / m].push((k % m) as usize))
    }
}

/// Position `k` of the product of `prev` with `m` choices: the choice
/// `k % m` appended to `prev[k / m]`.
proof fn lemma_product_index(i: int, j: int, m: int)
    requires
        0 <= j < m,
        0 <= i,
    ensures
        (i * m + j) / m == i,
        (i * m + j) % m == j,
{
    lemma_fundamental_div_mod_converse(i * m + j, m, i, j);
}

/// The number of tuples: the product of the sizes.
pub open spec fn product(sizes: Seq<usize>) -> nat
    decreases sizes.len(),
{
    if sizes.len() == 0 {
        1
    } else {
        product(sizes.drop_last()) * sizes.last() as nat
    }
}

/// The grid holds one tuple per choice: as many tuples as the product of
/// the sizes, each with one index per parameter, each index below its
/// parameter's size.
pub proof fn lemma_index_combos_shape(sizes: Seq<usize>)
    ensures
        index_combos(sizes).len() == product(sizes),
        forall|k: int| 0 <= k < index_combos(sizes).len() ==> (#[trigger] index_combos(sizes)[k]).len() == sizes.len(),
        forall|k: int, t: int|
            0 <= k < index_combos(sizes).len() && 0 <= t < sizes.len() ==> #[trigger] index_combos(sizes)[k][t] < sizes[t],
    decreases sizes.len(),
{
    if sizes.len() > 0 {
        let rest = sizes.drop_last();
        lemma_index_combos_shape(rest);
        let prev = index_combos(rest);
        let m = sizes.last() as int;
        let c = index_combos(sizes);
        assert forall|k: int| 0 <= k < c.len() implies (#[trigger] c[k]).len() == sizes.len() && forall|t: int| 0 <= t < sizes.len() ==> c[k][t] < sizes[t] by {
            assert(0 <= k / m < prev.len()) by (nonlinear_arith)
                requires
                    0 <= k < prev.len() * m,
                    m > 0,
            ;
            assert(0 <= k % m < m) by (nonlinear_arith)
                requires
                    m > 0,
            ;
            assert forall|t: int| 0 <= t < sizes.len() implies c[k][t] < sizes[t] by {
                if t < rest.len() {
                    assert(prev[k / m][t] < rest[t]);
                }
            }
        }
    }
}

/// Every index tuple over `sizes`, the last index varying fastest.
pub fn combination_indices(sizes: &Vec<usize>) -> (r: Vec<Vec<usize>>)
    ensures
        r@.len() == index_combos(sizes@).len(),
        forall|k: int| 0 <= k < r@.len() ==> #[trigger] r@[k]@ == index_combos(sizes@)[k],
{
    let mut result: Vec<Vec<usize>> = vec![Vec::new()];
    let mut p: usize = 0;
    proof {
        assert(sizes@.take(0) =~= Seq::<usize>::empty());
        assert(result@[0]@ =~= Seq::<usize>::empty());
    }
    while p < sizes.len()
        invariant
            0 <= p <= sizes@.len(),
            result@.len() == index_combos(sizes@.take(p as int)).len(),
            forall|k: int| 0 <= k < result@.len() ==> #[trigger] result@[k]@ == index_combos(sizes@.take(p as int))[k],
        decreases sizes@.len() - p,
    {
        let m = sizes[p];
        let ghost prev = index_combos(sizes@.take(p as int));
        proof {
            assert(sizes@.take(p as int + 1).drop_last() =~= sizes@.take(p as int));
        }
        let ghost next = index_combos(sizes@.take(p as int + 1));
        let mut new_result: Vec<Vec<usize>> = Vec::new();
        let mut i: usize = 0;
        while i < result.len()
            invariant
                0 <= i <= result@.len(),
                m == sizes@[p as int],
                result@.len() == prev.len(),
                forall|k: int| 0 <= k < result@.len() ==> #[trigger] result@[k]@ == prev[k],
                next == Seq::new((prev.len() * m) as nat, |k: int| prev[k / (m as int)].push((k % (m as int)) as usize)),
                new_result@.len() == i * m,
                forall|k: int| 0 <= k < new_result@.len() ==> #[trigger] new_result@[k]@ == prev[k / (m as int)].push((k % (m as int)) as usize),
            decreases result@.len() - i,
        {
            let mut v: usize = 0;
            while v < m
                invariant
                    0 <= v <= m,
                    0 <= i < result@.len(),
                    m == sizes@[p as int],
                    result@.len() == prev.len(),
                    forall|k: int| 0 <= k < result@.len() ==> #[trigger] result@[k]@ == prev[k],
                    new_result@.len() == i * m + v,
                    forall|k: int| 0 <= k < new_result@.len() ==> #[trigger] new_result@[k]@ == prev[k / (m as int)].push((k % (m as int)) as usize),
                decreases m - v,
            {
                let mut combo = result[i].clone();
                combo.push(v);
                proof {
                    lemma_product_index(i as int, v as int, m as int);
                    assert(combo@ == prev[i as int].push(v));
                }
                new_result.push(combo);
                proof {
                    assert(new_result@.len() == i * m + v + 1);
                }
                v = v + 1;
            }
            proof {
                assert((i + 1) * m == i * m + m) by (nonlinear_arith);
            }
            i = i + 1;
        }
        proof {
            assert(new_result@.len() == next.len());
        }
        result = new_result;
        p = p + 1;
    }
    proof {
        assert(sizes@.take(sizes@.len() as int) =~= sizes@);
    }
    result
}

} // verus!
