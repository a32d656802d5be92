//! Bundles a crate made of one binary, a library and its modules into a single
//! source text.

pub mod bundler;
pub mod expansion;
pub mod grammar;
pub mod paths;
pub mod pattern;
pub mod state;
pub mod strip;
pub mod text;

pub use bundler::{Bundler, Reply, Request};
pub use state::BundleError;
