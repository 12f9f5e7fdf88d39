//! Webhook relay core: path matching, per-alias event queues and long-poll decisions.

pub mod auth;
pub mod cache;
pub mod data_config;
pub mod decimal;
pub mod fingerprint;
pub mod path_matcher;
pub mod polling;
pub mod polling_config;
pub mod queue;
pub mod receiver;
pub mod request;
pub mod std_text;
pub mod store;
pub mod text;
pub mod verification;
pub mod verification_config;
pub mod webhook_config;
