//! A typed façade in front of a route-computation engine.
//!
//! - `config`, `doc`, `settings`: the engine's settings tree, its default
//!   table, and loading it from a settings document.
//! - `data`: the request and response model of each catalogue operation.
//! - `wire`, `codec`, `binary`: the compact binary encoding, from the framing
//!   of fields up to each model type, with decoding proved to invert encoding.
//! - `facade`: the per-call protocol that validates a request before the
//!   engine is invoked, encodes it, and checks and classifies the reply.
pub mod fixed;
pub mod config;
pub mod doc;
pub mod settings;
pub mod data;
pub mod wire;
pub mod codec;
pub mod binary;
pub mod facade;
