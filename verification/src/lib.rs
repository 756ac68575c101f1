//! A local proxy that spends a free daily token grant without ever exceeding it.
pub mod acceptance;
pub mod admission;
pub mod allowlist;
pub mod bodies;
pub mod body_laws;
pub mod books;
pub mod clock;
pub mod codec;
pub mod config;
pub mod dispatch;
pub mod dispatch_laws;
pub mod env_file;
pub mod epoch;
pub mod error;
pub mod error_body;
pub mod exchange_laws;
pub mod failure_breaker;
pub mod histories;
pub mod hwm;
pub mod inventory;
pub mod json;
pub mod ledger;
pub mod ledger_laws;
pub mod liability;
pub mod lock;
pub mod message_laws;
pub mod normal_form;
pub mod openrouter;
pub mod openrouter_dispatch;
pub mod rate_limit;
pub mod rejection;
pub mod rejection_laws;
pub mod relay;
pub mod replies;
pub mod request;
pub mod request_laws;
pub mod requests;
pub mod responses;
pub mod retrieval;
pub mod rollover;
pub mod runtime;
pub mod schema;
pub mod sending;
pub mod server;
pub mod settlement_laws;
pub mod shapes;
pub mod sse;
pub mod startup;
pub mod state;
pub mod status_policy;
pub mod strict_laws;
pub mod tables;
pub mod text;
pub mod tools;
pub mod transition_laws;
pub mod transitions;
pub mod trust;
pub mod upstream;
pub mod usage_api;
