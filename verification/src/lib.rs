//! Routing core of an OpenAI-compatible gateway for chat models.
//!
//! The gateway takes a request that names a model, a list of models or the alias
//! for automatic selection, works out which models to try and in which order, and
//! sends the request on to one after the other until one of them answers. This
//! crate holds the decisions on that way; reading, sending and streaming are left
//! to the program around it.
//!
//! - [`models`], [`ranking`]: which models there are, and how they rank.
//! - [`request`], [`client`], [`net`]: from a request to the models to try, and
//!   who the client is.
//! - [`failover`]: from one model to the next.
//! - [`state`], [`sticky`]: what the gateway remembers between requests.
//! - [`headers`], [`json`], [`error`], [`config`], [`text`]: what messages,
//!   answers and settings are made of.

pub mod client;
pub mod config;
pub mod error;
pub mod failover;
pub mod headers;
pub mod json;
pub mod models;
pub mod net;
pub mod ranking;
pub mod request;
pub mod state;
pub mod sticky;
pub mod text;
