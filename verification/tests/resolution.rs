use anifunnel::anilist::data::Media;
use anifunnel::anilist::data::MediaList;
use anifunnel::anilist::data::MediaListGroup;
use anifunnel::anilist::data::MediaTitle;
use anifunnel::anilist::AnilistClient;
use anifunnel::anilist::AnilistError;
use anifunnel::anilist::QueryResponse;
use anifunnel::plex::MediaType;
use anifunnel::plex::Webhook;
use anifunnel::plex::WebhookAccount;
use anifunnel::plex::WebhookMetadata;
use anifunnel::scrobble::decide_update;
use anifunnel::scrobble::preflight;
use anifunnel::scrobble::resolve_entry;
use anifunnel::scrobble::update_confirmed;
use anifunnel::scrobble::ScrobbleOutcome;

fn fake_media_list(id: i64, title: &str) -> MediaList {
    let title = String::from(title);
    MediaList {
        id,
        progress: 1,
        media: Media {
            id: 1,
            title: MediaTitle {
                romaji: Some(title.clone()),
                english: None,
                native: None,
                userPreferred: title.clone(),
            },
        },
    }
}

fn actionable_webhook(name: &str) -> Webhook {
    Webhook {
        event: String::from("media.scrobble"),
        account: WebhookAccount {
            name: String::from(name),
        },
        metadata: Some(WebhookMetadata {
            media_type: MediaType::Episode,
            title: String::from("Sousou no Frieren"),
            season_number: 1,
            episode_number: 2,
        }),
    }
}

// An event one episode past the recorded progress triggers an update; the
// same event replayed after the progress advanced does not.
#[test]
fn update_adjacency_and_replay() {
    assert_eq!(decide_update(2, 0, 1), Some(2));
    assert_eq!(decide_update(2, 0, 2), None);
}

#[test]
fn update_with_offset() {
    assert_eq!(decide_update(14, -12, 1), Some(2));
    assert_eq!(decide_update(1, 1, 1), Some(2));
    assert_eq!(decide_update(3, 0, 1), None);
    assert_eq!(decide_update(1, 0, 1), None);
}

#[test]
fn update_confirmation() {
    assert!(update_confirmed(2, 1));
    assert!(!update_confirmed(3, 1));
    assert!(!update_confirmed(1, 1));
}

// A title override resolves by id and bypasses the matcher, even though
// another entry matches the title exactly.
#[test]
fn override_precedence() {
    let exact = fake_media_list(1111, "Sousou no Frieren");
    let overridden = fake_media_list(2222, "Unrelated Show");
    let list = MediaListGroup {
        entries: vec![exact, overridden],
    };
    let title = String::from("Sousou no Frieren");

    let resolved = resolve_entry(&list, Some(2222), &title).unwrap();
    assert_eq!(resolved.id, 2222);

    let resolved_without_override = resolve_entry(&list, None, &title).unwrap();
    assert_eq!(resolved_without_override.id, 1111);

    assert!(resolve_entry(&list, Some(9999), &title).is_none());
}

#[test]
fn preflight_checks() {
    let webhook = actionable_webhook("yukikaze");
    assert_eq!(preflight(&webhook, false, &None, true), None);
    assert_eq!(
        preflight(&webhook, false, &None, false),
        Some(ScrobbleOutcome::Failure)
    );
    assert_eq!(
        preflight(&webhook, false, &Some(String::from("yukikaze")), true),
        None
    );
    assert_eq!(
        preflight(&webhook, false, &Some(String::from("shiranui")), true),
        Some(ScrobbleOutcome::NoOp)
    );
    let non_scrobble = Webhook {
        event: String::from("media.play"),
        ..actionable_webhook("yukikaze")
    };
    assert_eq!(
        preflight(&non_scrobble, false, &None, true),
        Some(ScrobbleOutcome::NoOp)
    );
}

#[test]
fn outcome_text() {
    assert_eq!(ScrobbleOutcome::Success.text(), "OK");
    assert_eq!(ScrobbleOutcome::NoOp.text(), "NO OP");
    assert_eq!(ScrobbleOutcome::Failure.text(), "ERROR");
}

#[test]
fn error_messages() {
    assert_eq!(AnilistError::RequestDataError.message(), "Request data error");
    assert_eq!(AnilistError::ConnectionError.message(), "Connection error");
    assert_eq!(AnilistError::ParsingError.message(), "Parsing error");
    assert_eq!(AnilistError::InvalidToken.message(), "Invalid token");
}

#[test]
fn response_classification() {
    let ok: Result<u32, AnilistError> =
        QueryResponse::classify(200, false, Some(QueryResponse { data: 7 }));
    assert_eq!(ok.unwrap(), 7);

    let invalid: Result<u32, AnilistError> = QueryResponse::classify(400, true, None);
    assert!(matches!(invalid, Err(AnilistError::InvalidToken)));

    let unparsed: Result<u32, AnilistError> = QueryResponse::classify(200, false, None);
    assert!(matches!(unparsed, Err(AnilistError::ParsingError)));

    let other_400: Result<u32, AnilistError> =
        QueryResponse::classify(400, false, Some(QueryResponse { data: 3 }));
    assert_eq!(other_400.unwrap(), 3);
}

#[test]
fn client_construction() {
    let client = AnilistClient::new(String::from("token"), 123);
    assert_eq!(client.token, "token");
    assert_eq!(client.user_id, 123);

    let auth_client = AnilistClient::new_from_token(String::from("token"));
    assert_eq!(auth_client.token, "token");
    assert_eq!(auth_client.user_id, 0);
}
