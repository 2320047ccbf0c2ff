//! Verified core of a market-data model: Solana mint addresses, trade ticks
//! and the bookkeeping of a manager that keeps one bar aggregator per mint.

pub mod decimal;
pub mod solana_address;
pub mod model;
pub mod trade;
pub mod dynamic_aggregation;
