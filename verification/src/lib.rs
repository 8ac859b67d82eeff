use vstd::prelude::*;

pub mod config;
pub mod download;
pub mod llm_api;
pub mod text;
pub mod utils;

verus! {

/// Errors that the library's own logic reports.
#[derive(Debug)]
pub enum DlError {
    /// Every transport attempt for the named URL failed; `attempts` is the
    /// configured attempt count that was used up.
    TransportExhausted { url: String, attempts: usize },
    /// The oracle's reply broke its contract: no fenced block, or a field of
    /// the expected object was missing or of the wrong kind, or the reply
    /// carried no choice at all.
    OracleContract,
    /// A content fetch came back with a non-success HTTP status.
    HttpFailure { url: String },
    /// A string that had to be an absolute URL did not parse as one.
    UrlUnparseable,
    /// A produced link failed to re-parse as an absolute URL: an invariant
    /// break of link resolution, not a recoverable condition.
    LinkInvariantBroken,
}

} // verus!
