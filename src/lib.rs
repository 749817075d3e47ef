//! Fetching a fixed set of large model files into local storage.
//!
//! `models` holds the manifest and the check for what is missing; `fetch`
//! holds the download orchestrator as a state machine that a host drives by
//! performing the I/O it asks for and reporting what happened.
pub mod fetch;
pub mod models;
