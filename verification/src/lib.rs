//! Provider-resolution and invocation core of a small personal-assistant
//! runtime, together with the service-management and memory glue that
//! surrounds it.
//!
//! Text is handled as UTF-8 byte strings (`Vec<u8>`), so that every rule --
//! keyword detection, prefix rewriting, template substitution, response
//! normalization -- is ordinary verified code over `Seq<u8>`.
#![verifier::loop_isolation(false)]

pub mod catalog;
pub mod env;
pub mod guard;
pub mod invoke;
pub mod memory;
pub mod provider;
pub mod response;
pub mod service;
pub mod text;
