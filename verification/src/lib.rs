//! Scheduling and rule evaluation for recurring on-chain tasks.
//!
//! `types` and `slots` compute the next block height or timestamp at which a
//! task may run; `cron` holds the calls into the cron expression parser;
//! `balance`, `json` and `rules` decide the conditions that a task may be
//! made to wait for; `contract` holds the responses of the rules contract.

pub mod types;
pub mod cron;
pub mod slots;
pub mod balance;
pub mod json;
pub mod rules;
pub mod contract;
