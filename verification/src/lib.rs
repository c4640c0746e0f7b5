//! Keeps Google Cloud DNS records in sync with the host's public addresses.
pub mod text;
pub mod config;
pub mod json;
pub mod dns;
pub mod base64url;
pub mod form;
pub mod auth;
