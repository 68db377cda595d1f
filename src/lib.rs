//! Metering logic for a reverse proxy in front of LLM chat APIs: model-name
//! normalisation, the price catalogue and cache, cost attribution, the budget
//! breaker and the per-request streaming meter.

pub mod text;
pub mod naming;
pub mod pricing;
pub mod budget;
pub mod json;
pub mod tokenizer;
pub mod usage;
pub mod sse;
pub mod meter;
pub mod catalogue;
pub mod store;
pub mod dispatch;
pub mod request;
