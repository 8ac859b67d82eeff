//! The oracle adapter: configuration, the request and reply shapes, and the
//! reading of a reply's content.

pub mod config;
pub mod entities;
pub mod search;
