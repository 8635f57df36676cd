//! rspaced: composing boot artifacts from OpenShift release payloads and
//! RHCOS install media, with every pulled byte tracked by digest.
//!
//! This crate holds the pipeline's rules — image references and registry
//! auth challenges, digests and the content-addressed store, the safe
//! unpacking of layer tars, release-payload planning and provenance, CoreOS
//! ISO selection, and RHCOS artifact staging — each with a verified
//! contract. Network, archive and file I/O happen in the program around it.
pub mod artifacts;
pub mod auth;
pub mod cli;
pub mod client;
pub mod coreos;
pub mod digest;
pub mod layer;
pub mod media_type;
pub mod mirror;
pub mod output;
pub mod payload;
pub mod provenance;
pub mod registry;
pub mod release;
pub mod stage;
pub mod store;
pub mod sumfile;
pub mod text;
pub mod types;
