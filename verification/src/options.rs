//! Choices that configure analysis, optimisation and strategy assembly.
use vstd::prelude::*;

verus! {

/// Method for computing value at risk.
#[derive(Debug, Clone, PartialEq)]
pub enum VarMethod {
    Historical,
    Parametric,
    CornishFisher,
}

/// Method a parameter optimisation searches with.
#[derive(Debug, Clone, PartialEq)]
pub enum OptimizationMethod {
    Grid,
    Bayesian,
    Random,
}

/// Metric a parameter optimisation maximises.
#[derive(Debug, Clone, PartialEq)]
pub enum ObjectiveMetric {
    SharpeRatio,
    TotalReturn,
    Calmar,
    SortinoRatio,
}

/// Where a strategy runs.
#[derive(Debug, Clone, Copy, PartialEq, Eq)]
pub enum StrategyRuntimeMode {
    Backtest,
    Replay,
    Paper,
    Live,
}

/// How an assembled alpha model settles components that disagree.
#[derive(Debug, Clone, Copy, PartialEq, Eq)]
pub enum StrategyAlphaConflictResolution {
    HighestConfidence,
    NetSignal,
    MajorityVote,
    CategoryMajority,
}

impl Default for StrategyAlphaConflictResolution {
    fn default() -> (r: Self)
        ensures
            r == StrategyAlphaConflictResolution::HighestConfidence,
    {
        StrategyAlphaConflictResolution::HighestConfidence
    }
}

} // verus!
