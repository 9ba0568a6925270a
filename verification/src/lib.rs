//! Quotes, funds and trading strategies for the Chinese and Hong Kong stock markets:
//! the rules behind the `stockrs` command line.
pub mod cli;
pub mod data;
pub mod engine;
pub mod fixed;
pub mod indicator;
pub mod json;
pub mod num;
pub mod order;
pub mod shelf;
pub mod table;
pub mod utils;
pub mod text;
