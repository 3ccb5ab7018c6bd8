//! A decentralized compute marketplace core: a coordinator state machine that
//! matches AI jobs to staked operator nodes, a fungible reward-token ledger,
//! a priority scheduler with timeouts and slashing, and the gateway pieces
//! around it (authentication tokens, rate limiting, request validation).
//!
//! Every operation is specified by `requires`/`ensures` contracts and checked
//! by Verus. Calls into outside crates (password hashing, HMAC signatures,
//! JSON parsing, wallet-signature checks) stand behind small trusted wrappers
//! whose contracts name exactly what is relied on.

pub mod agent;
pub mod auth;
pub mod config;
pub mod coordinator;
pub mod errors;
pub mod gateway;
pub mod ledger;
pub mod models;
pub mod node_config;
pub mod rate_limit;
pub mod strutil;
pub mod token;
pub mod types;
