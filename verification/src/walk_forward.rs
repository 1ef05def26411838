//! Walk-forward analysis: rolling in-sample / out-of-sample windows.
use vstd::prelude::*;
use vstd::arithmetic::div_mod::lemma_fundamental_div_mod;
use vstd::arithmetic::mul::lemma_mul_inequality;

verus! {

/// Configuration for walk-forward analysis.
#[derive(Debug, Clone)]
pub struct WalkForwardConfig {
    /// Number of bars in training window.
    pub in_sample_size: usize,
    /// Number of bars in test window.
    pub out_of_sample_size: usize,
    /// How many bars to advance each iteration.
    pub step_size: usize,
    /// Minimum required windows.
    pub min_windows: usize,
}

/// Errors from walk-forward analysis.
#[derive(Debug)]
pub enum WalkForwardError {
    InsufficientData { required: usize, available: usize },
    TooFewWindows { min: usize, found: usize },
}

/// `(in_start, in_end, oos_start, oos_end)` of one window.
pub type Window = (usize, usize, usize, usize);

/// Performs walk-forward analysis over a time series.
pub struct WalkForwardAnalyzer {
    pub config: WalkForwardConfig,
}

/// The advance between windows: the configured step, but at least one bar.
pub open spec fn effective_step(cfg: WalkForwardConfig) -> int {
    if cfg.step_size >= 1 {
        cfg.step_size as int
    } else {
        1
    }
}

/// Bars one window spans.
pub open spec fn window_span(cfg: WalkForwardConfig) -> int {
    cfg.in_sample_size + cfg.out_of_sample_size
}

/// How many windows fit into `total` bars (at least `window_span` bars).
pub open spec fn window_count(cfg: WalkForwardConfig, total: usize) -> int {
    (total - window_span(cfg)) / effective_step(cfg) + 1
}

/// Window `k` starts `k` steps in and tests right after its training bars.
pub open spec fn window_at(cfg: WalkForwardConfig, k: int) -> Window {
    let s = k * effective_step(cfg);
    (
        s as usize,
        (s + cfg.in_sample_size) as usize,
        (s + cfg.in_sample_size) as usize,
        (s + window_span(cfg)) as usize,
    )
}

/// All windows that fit into `total` bars, in order.
pub open spec fn all_windows(cfg: WalkForwardConfig, total: usize) -> Seq<Window> {
    Seq::new(window_count(cfg, total) as nat, |k: int| window_at(cfg, k))
}

/// The scan stops by computing the first window that does not fit; that
/// window's bounds must still be representable.
pub open spec fn scan_fits_in_usize(cfg: WalkForwardConfig, total: usize) -> bool {
    total < window_span(cfg) || window_count(cfg, total) * effective_step(cfg) + window_span(cfg)
        <= usize::MAX
}

/// `k * step + span <= total` exactly for the windows counted by `window_count`.
proof fn lemma_count_is_exact(total: int, span: int, step: int, k: int)
    requires
        step >= 1,
        span <= total,
        k >= 0,
    ensures
        k < (total - span) / step + 1 <==> k * step + span <= total,
        ((total - span) / step + 1) * step + span > total,
        (total - span) / step >= 0,
{
    let q = (total - span) / step;
    let r = (total - span) % step;
    lemma_fundamental_div_mod(total - span, step);
    assert(0 <= r < step) by (nonlinear_arith)
        requires
            step >= 1,
            r == (total - span) % step,
    ;
    assert(q >= 0) by (nonlinear_arith)
        requires
            total - span >= 0,
            step >= 1,
            q == (total - span) / step,
    ;
    assert(step * q == q * step) by (nonlinear_arith);
    assert((q + 1) * step == q * step + step) by (nonlinear_arith);
    if k < q + 1 {
        lemma_mul_inequality(k, q, step);
    } else {
        lemma_mul_inequality(q + 1, k, step);
    }
}

impl WalkForwardAnalyzer {
    pub fn new(config: WalkForwardConfig) -> (r: Self)
        ensures
            r.config == config,
    {
        Self { config }
    }

    /// Returns list of `(in_start, in_end, oos_start, oos_end)` index tuples.
    pub fn windows(&self, total_bars: usize) -> (r: Result<Vec<Window>, WalkForwardError>)
        requires
            window_span(self.config) <= usize::MAX,
            scan_fits_in_usize(self.config, total_bars),
        ensures
            total_bars < window_span(self.config) ==> (r matches Err(
                WalkForwardError::InsufficientData { required, available },
            ) && required == window_span(self.config) && available == total_bars),
            total_bars >= window_span(self.config) && window_count(self.config, total_bars)
                < self.config.min_windows ==> (r matches Err(
                WalkForwardError::TooFewWindows { min, found },
            ) && min == self.config.min_windows && found == window_count(self.config, total_bars)),
            total_bars >= window_span(self.config) && window_count(self.config, total_bars)
                >= self.config.min_windows ==> (r matches Ok(v) && v@ == all_windows(
                self.config,
                total_bars,
            )),
    {
        let cfg = &self.config;
        let min_required = cfg.in_sample_size + cfg.out_of_sample_size;
        if total_bars < min_required {
            return Err(
                WalkForwardError::InsufficientData { required: min_required, available: total_bars },
            );
        }
        let step = if cfg.step_size >= 1 {
            cfg.step_size
        } else {
            1
        };
        let ghost want = all_windows(*cfg, total_bars);
        let ghost count = window_count(*cfg, total_bars);
        proof {
            lemma_count_is_exact(total_bars as int, min_required as int, step as int, 0);
        }
        let mut windows: Vec<Window> = Vec::new();
        let mut in_start: usize = 0;
        loop
            invariant_except_break
                cfg == &self.config,
                step as int == effective_step(*cfg),
                min_required as int == window_span(*cfg),
                min_required <= total_bars,
                scan_fits_in_usize(*cfg, total_bars),
                want == all_windows(*cfg, total_bars),
                count == window_count(*cfg, total_bars),
                count >= 1,
                windows@.len() <= count,
                in_start as int == windows@.len() * step,
                forall|i: int| 0 <= i < windows@.len() ==> windows@[i] == want[i],
            ensures
                windows@ =~= want,
            decreases count - windows@.len(),
        {
            let ghost k = windows@.len() as int;
            proof {
                lemma_count_is_exact(total_bars as int, min_required as int, step as int, k);
                if k < count {
                    assert(k * step + min_required <= total_bars);
                } else {
                    assert(k == count);
                }
            }
            let in_end = in_start + cfg.in_sample_size;
            let oos_start = in_end;
            let oos_end = oos_start + cfg.out_of_sample_size;
            if oos_end > total_bars {
                break;
            }
            windows.push((in_start, in_end, oos_start, oos_end));
            proof {
                assert(windows@[k] == want[k]);
                assert((k + 1) * step == k * step + step) by (nonlinear_arith);
                assert(k < count);
                assert((k + 1) * step <= count * step) by (nonlinear_arith)
                    requires
                        k + 1 <= count,
                        step >= 1,
                ;
            }
            in_start = in_start + step;
        }
        if windows.len() < cfg.min_windows {
            return Err(
                WalkForwardError::TooFewWindows { min: cfg.min_windows, found: windows.len() },
            );
        }
        Ok(windows)
    }
}

/// Consecutive windows advance by the step (at least one bar), every window
/// tests on the bars right after its training bars, and every window lies
/// inside the data while the next one would not fit.
pub proof fn lemma_windows_roll_forward(cfg: WalkForwardConfig, total: usize, k: int)
    requires
        window_span(cfg) <= total,
        0 <= k < window_count(cfg, total),
    ensures
        ({
            let w = all_windows(cfg, total)[k];
            &&& w.1 - w.0 == cfg.in_sample_size
            &&& w.2 == w.1
            &&& w.3 - w.2 == cfg.out_of_sample_size
            &&& w.3 <= total
            &&& k + 1 < window_count(cfg, total) ==> all_windows(cfg, total)[k + 1].0 == w.0
                + effective_step(cfg)
        }),
        window_count(cfg, total) * effective_step(cfg) + window_span(cfg) > total,
{
    let step = effective_step(cfg);
    lemma_count_is_exact(total as int, window_span(cfg), step, k);
    lemma_count_is_exact(total as int, window_span(cfg), step, k + 1);
    assert((k + 1) * step == k * step + step) by (nonlinear_arith);
    assert(k * step >= 0) by (nonlinear_arith)
        requires
            k >= 0,
            step >= 1,
    ;
}

} // verus!
