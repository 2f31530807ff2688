//! Inbound playback events and their classification: a pure state machine
//! turning a raw event into one of five dispositions.

use vstd::prelude::*;
use vstd::string::*;

verus! {

/// The kind of media a playback event refers to.
#[derive(Clone, Copy, Debug, PartialEq, Eq, Structural)]
pub enum MediaType {
    Album,
    Artist,
    Clip,
    Collection,
    Episode,
    Movie,
    Person,
    Photo,
    PhotoAlbum,
    Playlist,
    PlaylistFolder,
    Season,
    Show,
    Track,
    Trailer,
}

/// A playback event as delivered by the media server; `metadata` is absent
/// when the event carried none or an incomplete one.
#[derive(Debug)]
pub struct Webhook {
    pub event: String,
    pub account: WebhookAccount,
    pub metadata: Option<WebhookMetadata>,
}

/// The classifier's five dispositions.
#[derive(Debug, PartialEq, Eq, Structural)]
pub enum WebhookState {
    Actionable,
    NoMetadata,
    NonScrobbleEvent,
    IncorrectSeason,
    IncorrectType,
}

#[derive(Debug)]
pub struct WebhookAccount {
    pub name: String,
}

#[derive(Debug, PartialEq)]
pub struct WebhookMetadata {
    pub media_type: MediaType,
    pub title: String,
    pub season_number: i32,
    pub episode_number: i32,
}

/// The classification rule table, evaluated in order: a non-scrobble event
/// kind, then absent metadata, then a non-episode media kind, then the
/// season rule.  Season 0 is never actionable; seasons above 1 only in
/// multi-season mode.
pub open spec fn classify(w: Webhook, multi_season: bool) -> WebhookState {
    if w.event@ != "media.scrobble"@ {
        WebhookState::NonScrobbleEvent
    } else if w.metadata is None {
        WebhookState::NoMetadata
    } else {
        let m = w.metadata->0;
        if m.media_type != MediaType::Episode {
            WebhookState::IncorrectType
        } else if !(if multi_season {
            m.season_number >= 1
        } else {
            m.season_number == 1
        }) {
            WebhookState::IncorrectSeason
        } else {
            WebhookState::Actionable
        }
    }
}

impl Webhook {
    /// Classifies the event; only `Actionable` proceeds to resolution.
    pub fn is_actionable(&self, multi_season: bool) -> (r: WebhookState)
        ensures
            r == classify(*self, multi_season),
    {
        let scrobble = String::from_str("media.scrobble");
        if !(self.event == scrobble) {
            return WebhookState::NonScrobbleEvent;
        }
        let metadata = match &self.metadata {
            Option::Some(m) => m,
            Option::None => {
                return WebhookState::NoMetadata;
            },
        };
        if !(metadata.media_type == MediaType::Episode) {
            return WebhookState::IncorrectType;
        }
        let allowed_season = match multi_season {
            true => metadata.season_number >= 1,
            false => metadata.season_number == 1,
        };
        if !allowed_season {
            return WebhookState::IncorrectSeason;
        }
        WebhookState::Actionable
    }
}

} // verus!
