//! Verified core of a browser-history analyzer.
//!
//! The library canonicalizes raw hostnames into comparable domain keys,
//! converts source-specific integer timestamps into display date ranges,
//! aggregates large URL collections into per-domain visit counts with a
//! partition/fold/merge scheme, merges statistics from several sources,
//! and resolves browser profile registries.  Every function carries a
//! contract checked by Verus; calls into outside crates (regex, url,
//! chrono, num_cpus) stand behind small trusted wrappers.

pub mod aggregate;
pub mod args;
pub mod combine;
pub mod domain;
pub mod epoch;
pub mod errors;
pub mod patterns;
pub mod profile;
pub mod stats;
pub mod text;
pub mod utils;
