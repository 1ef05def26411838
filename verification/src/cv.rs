//! Time-series-safe cross-validation: fold boundaries for k-fold, purged
//! k-fold and expanding walk-forward k-fold schemes.
use vstd::prelude::*;
use vstd::arithmetic::div_mod::lemma_fundamental_div_mod;
use vstd::arithmetic::mul::lemma_mul_inequality;

verus! {

/// Cross-validation method.
#[derive(Debug, Clone, Copy, PartialEq, Eq)]
pub enum CvMethod {
    KFold,
    PurgedKFold,
    WalkForwardKFold,
}

/// Configuration for cross-validation.
#[derive(Debug, Clone)]
pub struct CvConfig {
    pub n_folds: usize,
    pub method: CvMethod,
    /// Bars to skip between train and test (prevent leakage).
    pub purge_gap: usize,
}

/// Cross-validation errors.
#[derive(Debug)]
pub enum CvError {
    InsufficientData,
    InvalidConfig(String),
}

/// `(train_start, train_end, test_start, test_end)` of one fold.
pub type Split = (usize, usize, usize, usize);

/// Time-series-safe cross-validator.
pub struct CrossValidator {
    pub config: CvConfig,
}

/// Bars per fold when `total` bars are cut into `parts` equal chunks.
pub open spec fn chunk_of(total: usize, parts: nat) -> int {
    total as int / parts as int
}

/// Exclusive end of the test window of fold `f` of an `n`-fold cut; the last
/// fold absorbs the remainder.
pub open spec fn test_end_of(total: usize, n: usize, f: int) -> int {
    if f == n - 1 {
        total as int
    } else {
        (f + 1) * chunk_of(total, n as nat)
    }
}

/// The candidate split of fold `f` when training stops `gap` bars before the
/// test window (no training data when the test window starts within `gap`).
pub open spec fn purged_candidate(total: usize, n: usize, gap: usize, f: int) -> Split {
    let test_start = f * chunk_of(total, n as nat);
    let train_end = if test_start >= gap { test_start - gap } else { 0 };
    (0usize, train_end as usize, test_start as usize, test_end_of(total, n, f) as usize)
}

/// A split is usable when it has at least one training bar.
pub open spec fn has_training(s: Split) -> bool {
    s.1 > 0
}

/// Purged k-fold splits: every fold in order, keeping those with training data.
pub open spec fn purged_splits(total: usize, n: usize, gap: usize) -> Seq<Split> {
    Seq::new(n as nat, |f: int| purged_candidate(total, n, gap, f)).filter(
        |s: Split| has_training(s),
    )
}

/// K-fold splits: folds `1..n`, each trained on everything before its test
/// window (fold 0 has nothing before it and is left out).
pub open spec fn kfold_splits(total: usize, n: usize) -> Seq<Split> {
    Seq::new(
        (n - 1) as nat,
        |i: int|
            {
                let f = i + 1;
                let start = f * chunk_of(total, n as nat);
                (0usize, start as usize, start as usize, test_end_of(total, n, f) as usize)
            },
    )
}

/// Walk-forward k-fold splits: fold `f` trains on `[0, (f+1)c)` and tests on
/// `[(f+1)c, (f+2)c)` with `c = total / (n + 1)`.
pub open spec fn walk_forward_splits(total: usize, n: usize) -> Seq<Split> {
    Seq::new(
        n as nat,
        |f: int|
            {
                let c = chunk_of(total, n as nat + 1);
                (0usize, ((f + 1) * c) as usize, ((f + 1) * c) as usize, ((f + 2) * c) as usize)
            },
    )
}

/// The splits produced for `n >= 1` folds, or `None` when the data cannot
/// give a single usable fold.
pub open spec fn cv_splits(method: CvMethod, n: usize, gap: usize, total: usize) -> Option<
    Seq<Split>,
> {
    match method {
        CvMethod::KFold => {
            if chunk_of(total, n as nat) == 0 || n == 1 {
                None
            } else {
                Some(kfold_splits(total, n))
            }
        },
        CvMethod::PurgedKFold => {
            if chunk_of(total, n as nat) == 0 || purged_splits(total, n, gap).len() == 0 {
                None
            } else {
                Some(purged_splits(total, n, gap))
            }
        },
        CvMethod::WalkForwardKFold => {
            if chunk_of(total, n as nat + 1) == 0 {
                None
            } else {
                Some(walk_forward_splits(total, n))
            }
        },
    }
}

/// `f * c <= (f + 1) * c <= n * c <= total` for `c = total / n` and `f < n`.
proof fn lemma_fold_bounds(total: int, n: int, f: int)
    requires
        n > 0,
        total >= 0,
        0 <= f < n,
    ensures
        0 <= f * (total / n),
        f * (total / n) <= (f + 1) * (total / n),
        (f + 1) * (total / n) <= n * (total / n),
        n * (total / n) <= total,
        total / n >= 0,
{
    lemma_fundamental_div_mod(total, n);
    assert(total / n >= 0) by (nonlinear_arith)
        requires
            total >= 0,
            n > 0,
    ;
    assert(total % n >= 0) by (nonlinear_arith)
        requires
            n > 0,
    ;
    lemma_mul_inequality(f, f + 1, total / n);
    lemma_mul_inequality(f + 1, n, total / n);
    lemma_mul_inequality(0, f, total / n);
    assert(n * (total / n) == (total / n) * n) by (nonlinear_arith);
}


/// Every fold of every scheme trains on a non-empty prefix `[0, train_end)`
/// that ends no later than its test window starts, and the test window is
/// non-empty and lies inside the data. Purged folds leave at least
/// `purge_gap` bars between training and test; the other schemes test right
/// after training.
pub proof fn lemma_fold_is_well_formed(
    method: CvMethod,
    n: usize,
    gap: usize,
    total: usize,
    i: int,
)
    requires
        n > 0,
        cv_splits(method, n, gap, total) is Some,
        0 <= i < cv_splits(method, n, gap, total)->0.len(),
    ensures
        ({
            let s = cv_splits(method, n, gap, total)->0[i];
            &&& s.0 == 0
            &&& 0 < s.1 <= s.2
            &&& s.2 < s.3 <= total
            &&& method == CvMethod::PurgedKFold ==> s.1 + gap <= s.2
            &&& method != CvMethod::PurgedKFold ==> s.1 == s.2
        }),
{
    let splits = cv_splits(method, n, gap, total)->0;
    match method {
        CvMethod::KFold => {
            let c = chunk_of(total, n as nat);
            lemma_fold_bounds(total as int, n as int, i + 1);
            assert((i + 1) * c >= c) by (nonlinear_arith)
                requires
                    i >= 0,
                    c > 0,
            ;
            assert((i + 2) * c == (i + 1) * c + c) by (nonlinear_arith);
            assert(splits[i].3 == test_end_of(total, n, i + 1));
        },
        CvMethod::PurgedKFold => {
            let cands = Seq::new(n as nat, |f: int| purged_candidate(total, n, gap, f));
            let pred = |s: Split| has_training(s);
            let s = splits[i];
            assert(cands.filter(pred).contains(s));
            cands.lemma_filter_contains_rev(pred, s);
            cands.lemma_filter_pred(pred, i);
            let f = choose|f: int| 0 <= f < cands.len() && cands[f] == s;
            let c = chunk_of(total, n as nat);
            lemma_fold_bounds(total as int, n as int, f);
            assert((f + 1) * c == f * c + c) by (nonlinear_arith);
        },
        CvMethod::WalkForwardKFold => {
            let c = chunk_of(total, n as nat + 1);
            lemma_fold_bounds(total as int, n as int + 1, i + 1);
            assert((i + 2) * c == (i + 1) * c + c) by (nonlinear_arith);
            assert((i + 1) * c >= c) by (nonlinear_arith)
                requires
                    i >= 0,
                    c > 0,
            ;
            assert(splits[i].2 < splits[i].3);
            assert(splits[i].3 <= total);
        },
    }
}

/// K-fold and walk-forward k-fold folds come in time order: later folds test
/// strictly later data and train on strictly more history, and test windows
/// never overlap.
pub proof fn lemma_folds_expand(method: CvMethod, n: usize, gap: usize, total: usize, i: int, j: int)
    requires
        n > 0,
        method != CvMethod::PurgedKFold,
        cv_splits(method, n, gap, total) is Some,
        0 <= i < j < cv_splits(method, n, gap, total)->0.len(),
    ensures
        ({
            let s = cv_splits(method, n, gap, total)->0;
            &&& s[i].1 < s[j].1
            &&& s[i].3 <= s[j].2
        }),
{
    let c = if method == CvMethod::KFold {
        chunk_of(total, n as nat)
    } else {
        chunk_of(total, n as nat + 1)
    };
    lemma_fold_is_well_formed(method, n, gap, total, i);
    lemma_fold_is_well_formed(method, n, gap, total, j);
    if method == CvMethod::KFold {
        lemma_fold_bounds(total as int, n as int, i + 1);
        lemma_fold_bounds(total as int, n as int, j + 1);
        assert((j + 1) * c >= (i + 2) * c) by (nonlinear_arith)
            requires
                j >= i + 1,
                c >= 0,
        ;
        assert((i + 2) * c == (i + 1) * c + c) by (nonlinear_arith);
    } else {
        lemma_fold_bounds(total as int, n as int + 1, i + 1);
        lemma_fold_bounds(total as int, n as int + 1, j + 1);
        assert((j + 1) * c >= (i + 2) * c) by (nonlinear_arith)
            requires
                j >= i + 1,
                c >= 0,
        ;
        assert((i + 2) * c == (i + 1) * c + c) by (nonlinear_arith);
    }
}

/// Filtering a sequence whose elements all pass keeps it unchanged.
proof fn lemma_filter_all<A>(s: Seq<A>, pred: spec_fn(A) -> bool)
    requires
        forall|i: int| 0 <= i < s.len() ==> pred(s[i]),
    ensures
        s.filter(pred) == s,
    decreases s.len(),
{
    reveal(Seq::filter);
    if s.len() > 0 {
        lemma_filter_all(s.drop_last(), pred);
        assert(s.drop_last().push(s.last()) =~= s);
    }
}

/// Purged k-fold with a zero purge gap is plain k-fold.
pub proof fn lemma_zero_gap_purge_is_kfold(n: usize, total: usize)
    requires
        n > 0,
        chunk_of(total, n as nat) > 0,
    ensures
        purged_splits(total, n, 0) == kfold_splits(total, n),
{
    let c = chunk_of(total, n as nat);
    let cands = Seq::new(n as nat, |f: int| purged_candidate(total, n, 0, f));
    let pred = |s: Split| has_training(s);
    let head = cands.take(1);
    let rest = cands.skip(1);
    assert(cands =~= head + rest);
    Seq::filter_distributes_over_add(head, rest, pred);
    reveal(Seq::filter);
    assert(head.drop_last().len() == 0);
    assert(head.drop_last().filter(pred) =~= Seq::<Split>::empty());
    assert(!pred(head.last()));
    assert(head.filter(pred) =~= Seq::<Split>::empty());
    assert forall|k: int| 0 <= k < rest.len() implies pred(rest[k]) by {
        lemma_fold_bounds(total as int, n as int, k + 1);
        assert((k + 1) * c >= c) by (nonlinear_arith)
            requires
                k >= 0,
                c > 0,
        ;
    }
    lemma_filter_all(rest, pred);
    assert forall|k: int| 0 <= k < rest.len() implies rest[k] == kfold_splits(total, n)[k] by {
        lemma_fold_bounds(total as int, n as int, k + 1);
    }
    assert(rest =~= kfold_splits(total, n));
    assert(Seq::<Split>::empty() + rest =~= rest);
}

impl CrossValidator {
    pub fn new(config: CvConfig) -> (r: Self)
        ensures
            r.config == config,
    {
        Self { config }
    }

    /// Returns `(train_start, train_end, test_start, test_end)` for each fold.
    pub fn split(&self, total_bars: usize) -> (r: Result<Vec<Split>, CvError>)
        requires
            self.config.method == CvMethod::WalkForwardKFold ==> self.config.n_folds < usize::MAX,
        ensures
            self.config.n_folds == 0 ==> (r matches Err(CvError::InvalidConfig(m)) && m@
                == "n_folds must be > 0"@),
            self.config.n_folds > 0 ==> match cv_splits(
                self.config.method,
                self.config.n_folds,
                self.config.purge_gap,
                total_bars,
            ) {
                Some(s) => r matches Ok(v) && v@ == s,
                None => r matches Err(CvError::InsufficientData),
            },
    {
        if self.config.n_folds == 0 {
            return Err(CvError::InvalidConfig(String::from_str("n_folds must be > 0")));
        }
        match self.config.method {
            CvMethod::KFold => self.kfold_split(total_bars),
            CvMethod::PurgedKFold => self.purged_kfold_split(total_bars),
            CvMethod::WalkForwardKFold => self.walk_forward_kfold_split(total_bars),
        }
    }

    fn kfold_split(&self, total_bars: usize) -> (r: Result<Vec<Split>, CvError>)
        requires
            self.config.n_folds > 0,
        ensures
            match cv_splits(CvMethod::KFold, self.config.n_folds, self.config.purge_gap, total_bars) {
                Some(s) => r matches Ok(v) && v@ == s,
                None => r matches Err(CvError::InsufficientData),
            },
    {
        let n = self.config.n_folds;
        let chunk = total_bars / n;
        if chunk == 0 {
            return Err(CvError::InsufficientData);
        }
        let ghost want = kfold_splits(total_bars, n);
        let mut splits: Vec<Split> = Vec::new();
        let mut fold: usize = 0;
        while fold < n
            invariant
                n == self.config.n_folds,
                n > 0,
                chunk == total_bars / n,
                chunk > 0,
                0 <= fold <= n,
                want == kfold_splits(total_bars, n),
                splits@.len() == if fold == 0 { 0 } else { fold - 1 },
                forall|i: int| 0 <= i < splits@.len() ==> splits@[i] == want[i],
            decreases n - fold,
        {
            proof {
                lemma_fold_bounds(total_bars as int, n as int, fold as int);
            }
            let test_start = fold * chunk;
            let test_end = if fold == n - 1 {
                total_bars
            } else {
                (fold + 1) * chunk
            };
            let train_start: usize = 0;
            let train_end = test_start;
            if train_end != 0 {
                splits.push((train_start, train_end, test_start, test_end));
            }
            proof {
                if fold == 0 {
                    assert(train_end == 0);
                } else {
                    assert(fold * chunk >= chunk) by (nonlinear_arith)
                        requires
                            fold >= 1,
                            chunk > 0,
                    ;
                    assert(splits@[fold - 1] == want[fold - 1]);
                }
            }
            fold = fold + 1;
        }
        if splits.len() == 0 {
            return Err(CvError::InsufficientData);
        }
        assert(splits@ =~= want);
        Ok(splits)
    }

    fn purged_kfold_split(&self, total_bars: usize) -> (r: Result<Vec<Split>, CvError>)
        requires
            self.config.n_folds > 0,
        ensures
            match cv_splits(
                CvMethod::PurgedKFold,
                self.config.n_folds,
                self.config.purge_gap,
                total_bars,
            ) {
                Some(s) => r matches Ok(v) && v@ == s,
                None => r matches Err(CvError::InsufficientData),
            },
    {
        let n = self.config.n_folds;
        let gap = self.config.purge_gap;
        let chunk = total_bars / n;
        if chunk == 0 {
            return Err(CvError::InsufficientData);
        }
        let ghost cands = Seq::new(
            n as nat,
            |f: int| purged_candidate(total_bars, n, gap, f),
        );
        let ghost pred = |s: Split| has_training(s);
        let mut splits: Vec<Split> = Vec::new();
        let mut fold: usize = 0;
        while fold < n
            invariant
                n == self.config.n_folds,
                gap == self.config.purge_gap,
                n > 0,
                chunk == total_bars / n,
                0 <= fold <= n,
                cands == Seq::new(n as nat, |f: int| purged_candidate(total_bars, n, gap, f)),
                pred == (|s: Split| has_training(s)),
                splits@ == cands.take(fold as int).filter(pred),
            decreases n - fold,
        {
            proof {
                lemma_fold_bounds(total_bars as int, n as int, fold as int);
            }
            let test_start = fold * chunk;
            let test_end = if fold == n - 1 {
                total_bars
            } else {
                (fold + 1) * chunk
            };
            let train_end = if test_start >= gap { test_start - gap } else { 0 };
            let train_start: usize = 0;
            let ghost before = splits@;
            if train_end != 0 {
                splits.push((train_start, train_end, test_start, test_end));
            }
            proof {
                let t1 = cands.take(fold as int + 1);
                assert(t1.drop_last() =~= cands.take(fold as int));
                assert(t1.last() == cands[fold as int]);
                assert(cands[fold as int] == (train_start, train_end, test_start, test_end));
                reveal(Seq::filter);
                assert(splits@ =~= t1.filter(pred));
            }
            fold = fold + 1;
        }
        proof {
            assert(cands.take(n as int) =~= cands);
        }
        if splits.len() == 0 {
            return Err(CvError::InsufficientData);
        }
        Ok(splits)
    }

    fn walk_forward_kfold_split(&self, total_bars: usize) -> (r: Result<Vec<Split>, CvError>)
        requires
            0 < self.config.n_folds < usize::MAX,
        ensures
            match cv_splits(
                CvMethod::WalkForwardKFold,
                self.config.n_folds,
                self.config.purge_gap,
                total_bars,
            ) {
                Some(s) => r matches Ok(v) && v@ == s,
                None => r matches Err(CvError::InsufficientData),
            },
    {
        let n = self.config.n_folds;
        let chunk = total_bars / (n + 1);
        if chunk == 0 {
            return Err(CvError::InsufficientData);
        }
        let ghost want = walk_forward_splits(total_bars, n);
        let mut splits: Vec<Split> = Vec::new();
        let mut fold: usize = 0;
        while fold < n
            invariant
                n == self.config.n_folds,
                0 < n < usize::MAX,
                chunk as int == chunk_of(total_bars, n as nat + 1),
                chunk > 0,
                0 <= fold <= n,
                want == walk_forward_splits(total_bars, n),
                splits@.len() == fold,
                forall|i: int| 0 <= i < fold ==> splits@[i] == want[i],
            decreases n - fold,
        {
            proof {
                lemma_fold_bounds(total_bars as int, n as int + 1, fold as int + 1);
            }
            let train_start: usize = 0;
            let train_end = (fold + 1) * chunk;
            let test_start = train_end;
            // `(fold + 2) * chunk <= (n + 1) * chunk <= total_bars`: the test
            // window of every fold fits in the data.
            let test_end = (fold + 2) * chunk;
            splits.push((train_start, train_end, test_start, test_end));
            fold = fold + 1;
        }
        if splits.len() == 0 {
            return Err(CvError::InsufficientData);
        }
        assert(splits@ =~= want);
        Ok(splits)
    }
}

} // verus!
