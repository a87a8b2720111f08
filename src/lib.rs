//! Passwordless login by signing a one-time challenge with an elliptic-curve
//! key, plus the loyalty-status catalogue that the service exposes.

// Login: byte and hex helpers, the challenge store, the signature check, the
// login link, session tokens, and the service that composes them.
pub mod bytes;
pub mod hexcode;
pub mod challenge;
pub mod signature;
pub mod encoder;
pub mod auth;
pub mod protocol;

// Catalogue: programs, statuses and match reports, their normalization, the
// suggestion of the next status match, and the sites' status names.
pub mod entities;
pub mod search;
pub mod scrape;
pub mod statusmatcher;
pub mod usecase;
pub mod statusmatch;
pub mod cocoweb;
pub mod dormyinn;
