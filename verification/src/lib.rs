//! A deterministic ledger engine for a strategy backtester: it turns a
//! serial stream of orders into fill/reject decisions, an updated cash
//! balance, a position book with running weighted-average cost, and an
//! append-only trade log, all in fixed-point decimal arithmetic.

pub mod backtest;
pub mod data;
pub mod fixed;
pub mod utils;

pub use backtest::{BacktestEngine, ExecutionError, Order, OrderSide, Position, Trade};
pub use data::TradeSide;
pub use fixed::Amount;
pub use utils::{parse_interval, IntervalError, IntervalUnit};
