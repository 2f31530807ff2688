//! Request payloads of the administrative API.

use vstd::prelude::*;

verus! {

/// An authentication request carrying the remote API token.
#[derive(Debug)]
pub struct Authentication<'r> {
    pub token: &'r str,
}

/// An override edit for one entry.
#[derive(Debug)]
pub struct Override<'r> {
    pub title: Option<&'r str>,
    pub episode_offset: Option<i64>,
}

} // verus!
