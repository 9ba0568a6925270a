//! Back tests: a strategy is asked at each bar, and its orders are filled at the next.
pub mod appraisal;
pub mod backtest;
pub mod chart;
pub mod conduct;
pub mod context;
pub mod ledger;
pub mod metrics;
pub mod portfolio;
pub mod position;
pub mod rules;
