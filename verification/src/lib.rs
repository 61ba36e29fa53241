//! Merging of proxy subscription documents: the document model and its codec,
//! the server address classifier, the merge engine and the usage summaries.

pub mod auth;
pub mod clash;
pub mod codec;
pub mod config;
pub mod dto;
pub mod error;
pub mod models;
pub mod mux;
pub mod mux_laws;
pub mod services;
pub mod text;
pub mod tld;
pub mod usage;
pub mod userinfo;
pub mod yaml;
