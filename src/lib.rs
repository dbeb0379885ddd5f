//! A declarative HTTP test-step engine: templates, response checks, a token
//! cache and the orchestration of one step, each with a verified contract.

pub mod json;
pub mod text;
pub mod path;
pub mod vars;
pub mod template;
pub mod cache;
pub mod config;
pub mod validate;
pub mod http;
pub mod engine;
pub mod storage;
