//! Verified core of plan-env-md: the rules, parsers and renderers behind the
//! document service and its agent tool.

pub mod account;
pub mod answer_key;
pub mod auth;
pub mod blobs;
pub mod client;
pub mod clock;
pub mod config;
pub mod crypto;
pub mod docs;
pub mod grant;
pub mod number;
pub mod pages;
pub mod projection;
pub mod projects;
pub mod question;
pub mod render;
pub mod static_files;
pub mod text;
pub mod tool;
pub mod upload;
pub mod view;
