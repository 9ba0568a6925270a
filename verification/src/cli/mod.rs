//! What the commands compute, apart from reading and printing.
pub mod analysis;
pub mod backtest;
pub mod balance;
pub mod dashboard;
pub mod data;
pub mod indicator;
pub mod portfolio;
pub mod quote;
pub mod selfupdate;
pub mod sheet;
pub mod strategy;
