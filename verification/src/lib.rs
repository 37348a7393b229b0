//! Time-weighted average prices of a liquidity pool, sampled at historical blocks.
//!
//! A price window ends at an anchor block: the head of the chain, or the block
//! that [`locator`] finds for the timestamp that [`end_date`] gives for a
//! calendar date. [`schedule`] derives the blocks to read within the window,
//! and [`aggregator`] turns the readings into the time-weighted average, the
//! current price and the price range.

pub mod aggregator;
pub mod end_date;
pub mod locator;
pub mod schedule;
