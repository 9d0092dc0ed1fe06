//! Price bookkeeping and arbitrage ranking for the Grand Exchange versus the
//! High Alchemy spell, together with the timer-driven scheduler that decides
//! which task runs next.

pub mod types;
pub mod urls;
pub mod tasks;
pub mod scheduler;
