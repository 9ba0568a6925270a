//! Technical indicators over a series of prices.
//!
//! Each of them gives a series as long as the one that it is made from, without a value
//! where there are not enough prices yet. The value at a bar depends on no later price.
pub mod boll;
pub mod kdj;
pub mod ma;
pub mod macd;
pub mod reading;
pub mod rsi;

pub use boll::{boll, Boll};
pub use kdj::{kdj, Kdj};
pub use ma::{ema, sma};
pub use macd::{macd, Macd};
pub use rsi::rsi;
