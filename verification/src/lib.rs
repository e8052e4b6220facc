//! Accounting and settlement core of a liquid-staking contract.
//!
//! The contract accepts a native coin, issues a derivative token that is a
//! claim on a pool of validator delegations and their rewards, and redeems
//! that claim for native coin after an unbonding delay.
//!
//! The core consists of an indexed store with dense positions and paged
//! index arrays (`cashmap`), a weighted validator allocator
//! (`validator_set`), the exchange-rate engine that converts between
//! native coin and derivative tokens (`rate`), and the withdrawal windows
//! that batch redemptions (`window_manager`, `user_withdraws`, `claim`).
//! The operations of the contract are built from them in `deposit`,
//! `withdraw`, `window`, `admin` and `queries`; `killswitch` holds the
//! safety switch that freezes the rate and unwinds every delegation.
//!
//! Nothing here reads or writes storage or talks to the ledger: the
//! operations take the records and the figures they need and hand back
//! the instructions to carry out.
pub mod admin;
pub mod cashmap;
pub mod claim;
pub mod config;
pub mod deposit;
pub mod errors;
pub mod killswitch;
pub mod queries;
pub mod rate;
pub mod staking;
pub mod user_withdraws;
pub mod utils;
pub mod validator_set;
pub mod voting;
pub mod window;
pub mod window_manager;
pub mod withdraw;
