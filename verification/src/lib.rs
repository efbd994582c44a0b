//! Core of an OAuth2 authorization-code-with-PKCE coordinator for a music
//! provider: a registry of in-flight authorization flows keyed by opaque
//! state tokens, a reversible URL-safe codec for access-token records, the
//! projection of a "currently playing" provider report, and the mapping of
//! error kinds to HTTP status classes.
//!
//! The pieces that talk to the network (the provider's authorization, token
//! and playback endpoints) live in the surrounding application; this crate
//! holds the decisions and the data, with their contracts.

pub mod codec;
pub mod errors;
pub mod flow;
pub mod nowplaying;
pub mod pages;
pub mod registry;

pub use codec::TokenRecord;
pub use errors::CoreError;
pub use nowplaying::NpResponse;
pub use registry::FlowRegistry;
