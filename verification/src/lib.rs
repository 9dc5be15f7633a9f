//! Resolution of IPv4 addresses to the most specific known network record,
//! enriched with location metadata.

pub mod address;
pub mod controllers;
pub mod error;
pub mod models;
pub mod settings;
pub mod text;
