use anifunnel::plex::MediaType;
use anifunnel::plex::Webhook;
use anifunnel::plex::WebhookAccount;
use anifunnel::plex::WebhookMetadata;
use anifunnel::plex::WebhookState;

fn scrobble_webhook(media_type: MediaType, season_number: i32) -> Webhook {
    Webhook {
        event: String::from("media.scrobble"),
        account: WebhookAccount {
            name: String::from("yukikaze"),
        },
        metadata: Some(WebhookMetadata {
            media_type,
            title: String::from("Onii-chan wa Oshimai!"),
            season_number,
            episode_number: 4,
        }),
    }
}

#[test]
fn webhook_actionable() {
    let webhook = Webhook {
        event: String::from("media.scrobble"),
        account: WebhookAccount {
            name: String::from("yukikaze"),
        },
        metadata: Some(WebhookMetadata {
            media_type: MediaType::Episode,
            title: String::from("Onii-chan wa Oshimai!"),
            season_number: 1,
            episode_number: 4,
        }),
    };
    assert_eq!(webhook.is_actionable(false), WebhookState::Actionable);
}

// First episodes are also actionable to allow for offsets.
#[test]
fn webhook_actionable_first_episode() {
    let webhook = Webhook {
        event: String::from("media.scrobble"),
        account: WebhookAccount {
            name: String::from("yukikaze"),
        },
        metadata: Some(WebhookMetadata {
            media_type: MediaType::Episode,
            title: String::from("Onii-chan wa Oshimai!"),
            season_number: 1,
            episode_number: 1,
        }),
    };
    assert_eq!(webhook.is_actionable(false), WebhookState::Actionable);
}

// Music scrobbles are not actionable.
#[test]
fn webhook_actionable_music() {
    let webhook = Webhook {
        event: String::from("media.scrobble"),
        account: WebhookAccount {
            name: String::from("yukikaze"),
        },
        metadata: Some(WebhookMetadata {
            media_type: MediaType::Track,
            title: String::from("Onii-chan wa Oshimai!"),
            season_number: 1,
            episode_number: 4,
        }),
    };
    assert_eq!(webhook.is_actionable(false), WebhookState::IncorrectType);
}

// Scrobbles with unreadable Metadata objects are not actionable. Mostly hypothetical.
#[test]
fn webhook_actionable_missing_metadata() {
    let webhook = Webhook {
        event: String::from("media.scrobble"),
        account: WebhookAccount {
            name: String::from("yukikaze"),
        },
        metadata: None,
    };
    assert_eq!(webhook.is_actionable(false), WebhookState::NoMetadata);
}

// Only scrobble events trigger a resolution.
#[test]
fn webhook_actionable_playback() {
    let webhook = Webhook {
        event: String::from("media.play"),
        account: WebhookAccount {
            name: String::from("yukikaze"),
        },
        metadata: Some(WebhookMetadata {
            media_type: MediaType::Episode,
            title: String::from("Onii-chan wa Oshimai!"),
            season_number: 1,
            episode_number: 4,
        }),
    };
    assert_eq!(webhook.is_actionable(false), WebhookState::NonScrobbleEvent);
}

// Second seasons are not actionable.
#[test]
fn webhook_actionable_second_season() {
    let webhook = Webhook {
        event: String::from("media.scrobble"),
        account: WebhookAccount {
            name: String::from("yukikaze"),
        },
        metadata: Some(WebhookMetadata {
            media_type: MediaType::Episode,
            title: String::from("Kidou Senshi Gundam: Suisei no Majo"),
            season_number: 2,
            episode_number: 4,
        }),
    };
    assert_eq!(webhook.is_actionable(false), WebhookState::IncorrectSeason);
}

// Second seasons are actionable in multi-season mode.
#[test]
fn webhook_actionable_second_season_multi_season() {
    let webhook = Webhook {
        event: String::from("media.scrobble"),
        account: WebhookAccount {
            name: String::from("yukikaze"),
        },
        metadata: Some(WebhookMetadata {
            media_type: MediaType::Episode,
            title: String::from("Kidou Senshi Gundam: Suisei no Majo"),
            season_number: 2,
            episode_number: 4,
        }),
    };
    assert_eq!(webhook.is_actionable(true), WebhookState::Actionable);
}

// Specials are not actionable.
#[test]
fn webhook_actionable_special() {
    let webhook = Webhook {
        event: String::from("media.scrobble"),
        account: WebhookAccount {
            name: String::from("yukikaze"),
        },
        metadata: Some(WebhookMetadata {
            media_type: MediaType::Episode,
            title: String::from("Bakemonogatari"),
            season_number: 0,
            episode_number: 3,
        }),
    };
    assert_eq!(webhook.is_actionable(false), WebhookState::IncorrectSeason);
}

// Specials are not actionable even in multi-season mode.
#[test]
fn webhook_actionable_special_multi_season() {
    let webhook = Webhook {
        event: String::from("media.scrobble"),
        account: WebhookAccount {
            name: String::from("yukikaze"),
        },
        metadata: Some(WebhookMetadata {
            media_type: MediaType::Episode,
            title: String::from("Bakemonogatari"),
            season_number: 0,
            episode_number: 3,
        }),
    };
    assert_eq!(webhook.is_actionable(true), WebhookState::IncorrectSeason);
}

// The whole rule table, over event kind, media kind, season and mode.
#[test]
fn webhook_rule_table() {
    let cases: Vec<(MediaType, i32, bool, WebhookState)> = vec![
        (MediaType::Episode, 1, false, WebhookState::Actionable),
        (MediaType::Episode, 1, true, WebhookState::Actionable),
        (MediaType::Episode, 0, false, WebhookState::IncorrectSeason),
        (MediaType::Episode, 0, true, WebhookState::IncorrectSeason),
        (MediaType::Episode, 2, false, WebhookState::IncorrectSeason),
        (MediaType::Episode, 2, true, WebhookState::Actionable),
        (MediaType::Episode, -1, true, WebhookState::IncorrectSeason),
        (MediaType::Movie, 1, false, WebhookState::IncorrectType),
        (MediaType::Track, 2, true, WebhookState::IncorrectType),
        (MediaType::Show, 1, true, WebhookState::IncorrectType),
    ];
    for (media_type, season, multi, expected) in cases {
        let webhook = scrobble_webhook(media_type, season);
        assert_eq!(webhook.is_actionable(multi), expected);
    }
    let non_scrobble = Webhook {
        event: String::from("library.new"),
        account: WebhookAccount {
            name: String::from("yukikaze"),
        },
        metadata: Some(WebhookMetadata {
            media_type: MediaType::Episode,
            title: String::from("Onii-chan wa Oshimai!"),
            season_number: 1,
            episode_number: 4,
        }),
    };
    assert_eq!(
        non_scrobble.is_actionable(false),
        WebhookState::NonScrobbleEvent
    );
    assert_eq!(
        non_scrobble.is_actionable(true),
        WebhookState::NonScrobbleEvent
    );
}
