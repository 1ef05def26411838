//! Parameter sensitivity: which of a parameter's values are tried when it is
//! perturbed around a base point.
use vstd::prelude::*;
use vstd::arithmetic::div_mod::{lemma_div_is_ordered, lemma_div_by_multiple};
use vstd::arithmetic::mul::{lemma_mul_inequality, lemma_mul_is_commutative};

verus! {

/// Index of the `i`-th of `steps` samples spread evenly over `n` values.
pub open spec fn sample_index(i: int, n: int, steps: int) -> int {
    i * (n - 1) / (steps - 1)
}

/// The indices of the values tried for one parameter out of its `n` values:
/// every value when at most `steps` are asked for or there are no more than
/// `steps`; otherwise `steps` indices spread evenly from the first value to
/// the last.
pub open spec fn perturbation_plan(n: nat, steps: nat) -> Seq<int> {
    if steps <= 1 || n <= steps {
        Seq::new(n, |i: int| i)
    } else {
        Seq::new(steps, |i: int| sample_index(i, n as int, steps as int))
    }
}

/// The indices of the values to try when perturbing a parameter with `n`
/// values in `perturbation_steps` steps.
pub fn perturbation_indices(n: usize, perturbation_steps: usize) -> (r: Vec<usize>)
    requires
        perturbation_steps > 1 && n > perturbation_steps ==> (perturbation_steps - 1) * (n - 1)
            <= usize::MAX,
    ensures
        r@.len() == perturbation_plan(n as nat, perturbation_steps as nat).len(),
        forall|i: int| 0 <= i < r@.len() ==> #[trigger] r@[i] as int == perturbation_plan(n as nat, perturbation_steps as nat)[i],
{
    let mut out: Vec<usize> = Vec::new();
    if perturbation_steps <= 1 || n <= perturbation_steps {
        let mut i: usize = 0;
        while i < n
            invariant
                0 <= i <= n,
                out@.len() == i,
                forall|j: int| 0 <= j < i ==> #[trigger] out@[j] as int == j,
            decreases n - i,
        {
            out.push(i);
            i = i + 1;
        }
        return out;
    }
    let steps = perturbation_steps;
    let mut i: usize = 0;
    while i < steps
        invariant
            1 < steps < n,
            (steps - 1) * (n - 1) <= usize::MAX,
            0 <= i <= steps,
            out@.len() == i,
            forall|j: int| 0 <= j < i ==> #[trigger] out@[j] as int == sample_index(j, n as int, steps as int),
        decreases steps - i,
    {
        assert(i * (n - 1) <= (steps - 1) * (n - 1)) by {
            lemma_mul_inequality(i as int, (steps - 1) as int, (n - 1) as int);
        }
        out.push(i * (n - 1) / (steps - 1));
        i = i + 1;
    }
    out
}

/// The planned indices are valid positions among the `n` values, never
/// decrease, and when values are sampled they run from the first value to
/// the last.
pub proof fn lemma_perturbation_plan_shape(n: nat, steps: nat)
    ensures
        ({
            let p = perturbation_plan(n, steps);
            &&& forall|i: int| 0 <= i < p.len() ==> 0 <= #[trigger] p[i] < n
            &&& forall|i: int, j: int| 0 <= i <= j < p.len() ==> p[i] <= p[j]
            &&& p.len() > 0 ==> p[0] == 0 && p[p.len() - 1] == n - 1
        }),
{
    let p = perturbation_plan(n, steps);
    if !(steps <= 1 || n <= steps) {
        let d = steps - 1;
        assert forall|i: int| 0 <= i < p.len() implies 0 <= #[trigger] p[i] < n by {
            assert(0 <= i * (n - 1)) by (nonlinear_arith)
                requires
                    0 <= i,
                    n >= 1,
            ;
            assert(i * (n - 1) <= d * (n - 1)) by {
                lemma_mul_inequality(i, d as int, (n - 1) as int);
            }
            lemma_div_is_ordered(i * (n - 1), d * (n - 1), d as int);
            assert((d * (n - 1)) / (d as int) == n - 1) by {
                lemma_mul_is_commutative(d as int, (n - 1) as int);
                lemma_div_by_multiple((n - 1) as int, d as int);
            }
            assert(0 <= i * (n - 1) / (d as int)) by (nonlinear_arith)
                requires
                    0 <= i * (n - 1),
                    d > 0,
            ;
        }
        assert forall|i: int, j: int| 0 <= i <= j < p.len() implies p[i] <= p[j] by {
            assert(i * (n - 1) <= j * (n - 1)) by {
                lemma_mul_inequality(i, j, (n - 1) as int);
            }
            lemma_div_is_ordered(i * (n - 1), j * (n - 1), d as int);
        }
        assert(p[p.len() - 1] == n - 1) by {
            lemma_mul_is_commutative(d as int, (n - 1) as int);
            lemma_div_by_multiple((n - 1) as int, d as int);
        }
    }
}

} // verus!
