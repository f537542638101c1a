//! What the proxy decides, apart from any transport.
pub mod civil;
pub mod clock;
pub mod config;
pub mod conversation;
pub mod decode;
pub mod distribution;
pub mod guardrails;
pub mod ledger;
pub mod lenient;
pub mod metrics;
pub mod model;
pub mod precondition;
pub mod provider;
pub mod pythonic;
pub mod range;
pub mod report;
pub mod rescue;
pub mod respond;
pub mod registry;
pub mod repetition;
pub mod responses;
pub mod responses_sse;
pub mod retry;
pub mod sse;
pub mod stats;
pub mod stored;
pub mod tally;
pub mod validate;
