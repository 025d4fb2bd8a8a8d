//! A chat aggregation broker: chat messages and viewer counts scraped from
//! several livestream platforms are normalized (escaped, given inline media,
//! converted to dollars), stored, and pushed to every listening session.
//!
//! The broker (`server`) owns the shared state and serves one operation at a
//! time; each session (`client`) and each feed (`feed`) is a state machine whose
//! steps the surrounding program performs.
use vstd::prelude::*;

pub mod client;
pub mod exchange;
pub mod feed;
pub mod identity;
pub mod laws;
pub mod lookup;
pub mod media;
pub mod message;
pub mod protocol;
pub mod server;
pub mod text;

verus! {

} // verus!
