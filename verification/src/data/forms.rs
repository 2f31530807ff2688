//! Form payloads of the administrative surface, with the normalization of
//! empty override values: an offset of zero or an empty title stands for
//! "no override".

use vstd::prelude::*;
use vstd::string::*;

verus! {

/// The raw scrobble form: a JSON payload in a form field.
#[derive(Debug)]
pub struct Scrobble<'r> {
    pub payload: &'r str,
}

/// An override edit: either field absent or empty means clearing it.
#[derive(Debug)]
pub struct AnimeOverride<'r> {
    pub episode_offset: Option<i32>,
    pub title: Option<&'r str>,
}

impl<'r> AnimeOverride<'r> {
    /// Retrieve a usable episode offset value: zero counts as absent.
    pub fn get_episode_offset(self: &Self) -> (r: Option<i32>)
        ensures
            r == if self.episode_offset is Some && self.episode_offset->0 != 0 {
                self.episode_offset
            } else {
                Option::<i32>::None
            },
    {
        if let Option::Some(episode_offset) = self.episode_offset {
            if episode_offset != 0 {
                return Option::Some(episode_offset);
            }
        }
        Option::None
    }

    /// Retrieve a usable title value: the empty string counts as absent.
    pub fn get_title(self: &Self) -> (r: Option<&'r str>)
        ensures
            r == if self.title is Some && self.title->0@.len() != 0 {
                self.title
            } else {
                Option::<&'r str>::None
            },
    {
        if let Option::Some(title) = self.title {
            if !title.is_empty() {
                return Option::Some(title);
            }
        }
        Option::None
    }
}

} // verus!
