//! The stored override record, as the persistent store hands it back.

use vstd::prelude::*;

verus! {

/// One entry's stored override: the optional episode offset; a stored
/// replacement title is looked up separately.
#[derive(Debug)]
pub struct AnimeOverride {
    pub id: i64,
    pub episode_offset: Option<i32>,
}

impl AnimeOverride {
    /// The offset to apply; an absent one counts as zero.
    pub fn get_episode_offset(&self) -> (r: i32)
        ensures
            r == match self.episode_offset {
                Option::Some(o) => o,
                Option::None => 0,
            },
    {
        match self.episode_offset {
            Option::Some(o) => o,
            Option::None => 0,
        }
    }
}

} // verus!
