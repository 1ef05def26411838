//! Failures of the backtest, portfolio, position and config layers, and of
//! strategy assembly.
use vstd::prelude::*;
use crate::types::InstrumentId;

verus! {

/// Backtest failure.
#[derive(Debug)]
pub enum BacktestError {
    InvalidConfig(String),
    InsufficientCapital,
    MaxPositionsReached,
    StrategyError(String),
}

/// Portfolio backtest failure.
#[derive(Debug)]
pub enum PortfolioError {
    InsufficientCapital,
    ExposureLimitExceeded { instrument: InstrumentId },
    StrategyError(String),
    InvalidConfig(String),
}

/// Position manager failure.
#[derive(Debug)]
pub enum PositionError {
    MaxPositionsReached,
    OppositePositionExists(InstrumentId),
    InsufficientPosition,
    LimitExceeded(String),
    NotFound(InstrumentId),
}

/// Config loading failure.
#[derive(Debug)]
pub enum ConfigError {
    ParseError(String),
    ValidationError(String),
    EnvError(String),
}

/// Invalid parameters of a strategy or alpha component.
#[derive(Debug, PartialEq, Eq)]
pub enum StrategyConfigError {
    InvalidMovingAverageWindow,
    InvalidRsiThreshold,
    InvalidAlphaWeight,
    MissingUniverseRankConfig,
}

/// Strategy assembly failure.
#[derive(Debug, PartialEq, Eq)]
pub enum StrategyRegistryError {
    UnknownStrategy(String),
    UnknownUniverse(String),
    EmptySymbolUniverse,
    UnknownAlphaConflictResolution(String),
    InvalidConfig(StrategyConfigError),
}

} // verus!
