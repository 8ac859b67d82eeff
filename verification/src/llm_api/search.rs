//! Telling a search-backed model apart from a plain completion model.

use vstd::prelude::*;

use crate::text::{contains_seq, str_contains_sub};

verus! {

/// Whether the configured model is a search-backed one, which replies in a
/// shape this pipeline does not consume.
pub fn is_search_api(model_id: &str) -> (b: bool)
    ensures
        b == contains_seq(model_id@, "search"@),
{
    str_contains_sub(model_id, "search")
}

} // verus!
