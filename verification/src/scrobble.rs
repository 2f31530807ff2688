//! The scrobble pipeline decisions: screening an incoming event, resolving
//! it to a watch-list entry (override precedence over fuzzy matching), and
//! the strict adjacent-episode update rule.  The surrounding I/O (fetching
//! the list, store lookups, the update call) lives outside the library.

use vstd::prelude::*;
use crate::anilist::data::id_index;
use crate::anilist::data::match_selection;
use crate::anilist::data::MediaList;
use crate::anilist::data::MediaListGroup;
use crate::anilist::MediaListIdentifier;
use crate::plex::classify;
use crate::plex::Webhook;
use crate::plex::WebhookState;
use crate::utils::lower_of;

verus! {

/// The pipeline's observable terminal outcomes.
#[derive(Clone, Copy, Debug, PartialEq, Eq, Structural)]
pub enum ScrobbleOutcome {
    Success,
    NoOp,
    Failure,
}

impl ScrobbleOutcome {
    /// The outcome as reported to the event's sender.
    pub fn text(&self) -> (r: &'static str)
        ensures
            match self {
                ScrobbleOutcome::Success => r@ == "OK"@,
                ScrobbleOutcome::NoOp => r@ == "NO OP"@,
                ScrobbleOutcome::Failure => r@ == "ERROR"@,
            },
    {
        match self {
            ScrobbleOutcome::Success => "OK",
            ScrobbleOutcome::NoOp => "NO OP",
            ScrobbleOutcome::Failure => "ERROR",
        }
    }
}

pub open spec fn opt_view(o: Option<String>) -> Option<Seq<char>> {
    match o {
        Option::Some(s) => Option::Some(s@),
        Option::None => Option::None,
    }
}

/// The checks run before any remote work: classifier rejections and user
/// filtering end in a no-op, a missing authenticated session in an error;
/// `None` means the event proceeds to resolution.
pub open spec fn preflight_spec(
    w: Webhook,
    multi_season: bool,
    plex_user: Option<Seq<char>>,
    has_session: bool,
) -> Option<ScrobbleOutcome> {
    if classify(w, multi_season) != WebhookState::Actionable {
        Option::Some(ScrobbleOutcome::NoOp)
    } else if plex_user is Some && plex_user->0 != w.account.name@ {
        Option::Some(ScrobbleOutcome::NoOp)
    } else if !has_session {
        Option::Some(ScrobbleOutcome::Failure)
    } else {
        Option::None
    }
}

pub fn preflight(
    webhook: &Webhook,
    multi_season: bool,
    plex_user: &Option<String>,
    has_session: bool,
) -> (r: Option<ScrobbleOutcome>)
    ensures
        r == preflight_spec(*webhook, multi_season, opt_view(*plex_user), has_session),
{
    let state = webhook.is_actionable(multi_season);
    if !(state == WebhookState::Actionable) {
        return Option::Some(ScrobbleOutcome::NoOp);
    }
    if let Option::Some(user) = plex_user {
        if !(user.eq(&webhook.account.name)) {
            return Option::Some(ScrobbleOutcome::NoOp);
        }
    }
    if !has_session {
        return Option::Some(ScrobbleOutcome::Failure);
    }
    Option::None
}

/// Identity resolution: an explicit title override supplies the entry id
/// and bypasses the matcher entirely; otherwise the fuzzy matcher selects.
pub open spec fn resolve_selection(
    entries: Seq<MediaList>,
    override_id: Option<MediaListIdentifier>,
    q: Seq<char>,
) -> Option<int> {
    match override_id {
        Option::Some(id) => if id_index(entries, id) < entries.len() {
            Option::Some(id_index(entries, id))
        } else {
            Option::None
        },
        Option::None => match_selection(q, entries),
    }
}

/// Resolves the event's title to a watch-list entry, by override id when
/// one is configured, else by fuzzy matching.
pub fn resolve_entry<'a>(
    list: &'a MediaListGroup,
    override_id: Option<MediaListIdentifier>,
    title: &String,
) -> (r: Option<&'a MediaList>)
    ensures
        ({
            let sel = resolve_selection(list.entries@, override_id, lower_of(title@));
            match r {
                Option::Some(m) => sel is Some && *m == list.entries@[sel->0],
                Option::None => sel is None,
            }
        }),
{
    match override_id {
        Option::Some(id) => list.find_id(&id),
        Option::None => list.find_match(title),
    }
}

/// Override precedence: with a title override in force, the resolved entry
/// does not depend on the event's title at all, however any fuzzy score
/// would have come out.
pub proof fn lemma_override_precedence(
    entries: Seq<MediaList>,
    id: MediaListIdentifier,
    q1: Seq<char>,
    q2: Seq<char>,
)
    ensures
        resolve_selection(entries, Option::Some(id), q1) == resolve_selection(
            entries,
            Option::Some(id),
            q2,
        ),
{
}

/// The strict adjacent-episode rule: an update is due exactly when the
/// effective episode is one past the recorded progress.
pub open spec fn update_due(episode: int, offset: int, progress: int) -> bool {
    episode + offset == progress + 1
}

/// Decides whether to request a progress update, and to what value.  The
/// effective episode is computed without overflow; an event that is not
/// exactly one episode ahead is silently skipped.
pub fn decide_update(episode_number: i32, episode_offset: i32, progress: i32) -> (r: Option<i32>)
    requires
        progress < i32::MAX,
    ensures
        r == if update_due(episode_number as int, episode_offset as int, progress as int) {
            Option::Some((progress + 1) as i32)
        } else {
            Option::None
        },
{
    let effective: i64 = episode_number as i64 + episode_offset as i64;
    if effective == progress as i64 + 1 {
        Option::Some(progress + 1)
    } else {
        Option::None
    }
}

/// Replay safety: once progress has advanced to the requested value, the
/// same event is no longer one episode ahead, so it cannot trigger a
/// second update.
pub proof fn lemma_update_not_repeated(episode: int, offset: int, progress: int)
    ensures
        update_due(episode, offset, progress) ==> !update_due(episode, offset, progress + 1),
{
}

/// Whether the remote confirmed the requested progress value.
pub fn update_confirmed(reported: i32, progress: i32) -> (r: bool)
    requires
        progress < i32::MAX,
    ensures
        r == (reported == progress + 1),
{
    reported == progress + 1
}

} // verus!
