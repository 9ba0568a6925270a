//! Securities, their prices and valuations, where they come from and how they are kept.
pub mod account;
pub mod benchmark;
pub mod eastmoney;
pub mod figures;
pub mod fundamental;
pub mod hk;
pub mod models;
pub mod sina;
pub mod source;
pub mod store;
pub mod tables;
pub mod tencent;
pub mod wire;
pub mod xueqiu;

pub use benchmark::resolve_input;
pub use models::{Fundamental, KLine, Market, Period, Position, Quote, Stock, Trade};
pub use store::Store;
