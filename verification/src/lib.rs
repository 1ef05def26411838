//! Verified core of a quantitative strategy toolkit: cross-validation and
//! walk-forward windowing, time-bucket arithmetic, caches, metrics, event
//! routing and the terminal's interaction state machine.
pub mod cv;
pub mod walk_forward;
pub mod lru_model;
pub mod types;
pub mod trait_def;
pub mod context;
pub mod int_math;
pub mod kline;
pub mod kline_store;
pub mod sources;
pub mod metrics;
pub mod http;
pub mod granularity;
pub mod text;
pub mod terminal_core;
pub mod stream;
pub mod tui;
pub mod scheduler;
pub mod event;
pub mod json;
pub mod registry;
pub mod combinators;
pub mod hot_reload;
pub mod rng;
pub mod grpc;
pub mod errors;
pub mod options;
pub mod csv;
pub mod endpoints;
pub mod grid;
pub mod optimization;
pub mod sensitivity;
pub mod intent;
pub mod portfolio;
pub mod paper;
pub mod position;
pub mod config;
pub mod assembly;
pub mod storage;
pub mod lstm;
