//! Task aggregation core: line-grammar codecs for a flat todo file and for
//! markdown checkbox lines, vault scanning rules, a line-addressed mutation
//! primitive, and the backend aggregation and routing layer.
pub mod config;
pub mod date;
pub mod error;
pub mod localfile;
pub mod manager;
pub mod model;
pub mod mutate;
pub mod obsidian;
pub mod parser;
pub mod text;
