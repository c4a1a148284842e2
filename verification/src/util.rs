//! Timestamp text helpers shared by the pages.

use vstd::prelude::*;
use crate::timestamp::format_ts_basic;
use crate::timestamp::parse_ts_basic;
use crate::timestamp::parse_ts_spec;
use crate::timestamp::ts_text;
use crate::timestamp::Timestamp;

verus! {

/// Reads a `YYYY-MM-DD HH:MM:SS` text as a timestamp; a malformed text
/// is a validation error carrying a description.
pub fn parse_ts(s: &str) -> (r: Result<Timestamp, String>)
    ensures
        match r {
            Ok(t) => parse_ts_spec(s@) == Some(t) && t.valid(),
            Err(_) => parse_ts_spec(s@) is None,
        },
{
    match parse_ts_basic(s) {
        Some(t) => Ok(t),
        None => Err("Error parsing datetime".to_owned()),
    }
}

/// Format timestamp using default format.
pub fn format_ts(dt: Timestamp) -> (r: String)
    ensures
        r@ == ts_text(dt),
{
    format_ts_basic(&dt)
}

} // verus!
