//! Compares the responses of two configured HTTP requests after dropping the
//! headers and body fields that vary for uninteresting reasons.
pub mod cli;
pub mod config;
pub mod diff;
pub mod error;
pub mod headers;
pub mod json;
pub mod req;
pub mod text;

pub use cli::{ExtraArgs, KeyVal, KeyValType};
pub use config::{DiffConfig, DiffProfile, ResponseProfile};
pub use diff::diff_text;
pub use error::XdiffError;
pub use req::{RequestProfile, ResponseExt};
