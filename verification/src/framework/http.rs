//! The HTTP names the framework hands to its users.

pub use crate::http::StatusCode;
