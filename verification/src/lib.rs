//! Core of a deterministic backtesting engine for trading strategies.
//!
//! The crate replays recorded market events (trades and top-of-book quotes)
//! through a set of modules — a replay source, a simulated matching engine,
//! and optional externally driven participants — that communicate over named
//! topics under a virtual clock. All prices, quantities and balances are
//! fixed-point integers chosen by the caller; the library never touches
//! floating point, so its accounting laws hold exactly.

pub mod account;
pub mod book;
pub mod comms;
pub mod engine;
pub mod market_agent;
pub mod market_data;
pub mod message;
pub mod module;
pub mod order;
pub mod parse;
pub mod replay;
pub mod sampler;
pub mod stats;
pub mod symbol;
pub mod time;
pub mod tracker;
