use std::collections::HashMap;

use anifunnel::anilist::data::Media;
use anifunnel::anilist::data::MediaList;
use anifunnel::anilist::data::MediaListGroup;
use anifunnel::anilist::data::MediaTitle;
use anifunnel::api::responses::Anime;
use anifunnel::api::responses::OverrideMap;

fn make_media_title(title: &str) -> MediaTitle {
    MediaTitle {
        romaji: Some(String::from("irrelevant")),
        english: Some(String::from("irrelevant")),
        native: Some(String::from("irrelevant")),
        userPreferred: String::from(title),
    }
}

#[test]
fn test_build() {
    let media_list_group = MediaListGroup {
        entries: vec![
            MediaList {
                id: 12345,
                progress: 1,
                media: Media {
                    id: 1234,
                    title: make_media_title("Watashi wo Tabetai, Hitodenashi"),
                },
            },
            MediaList {
                id: 23456,
                progress: 2,
                media: Media {
                    id: 2345,
                    title: make_media_title("Boku no Hero Academia FINAL SEASON"),
                },
            },
            MediaList {
                id: 34567,
                progress: 3,
                media: Media {
                    id: 3456,
                    title: make_media_title("SPY×FAMILY Season 3"),
                },
            },
        ],
    };
    let mut overrides = OverrideMap::from([
        (
            23456,
            (Some(String::from("Boku no Hero Academia (2025)")), None),
        ),
        (34567, (None, Some(-37))),
    ]);
    let result = Anime::build(&media_list_group, &mut overrides);
    assert_eq!(
        result,
        vec![
            Anime {
                id: 23456,
                media_id: 2345,
                title: String::from("Boku no Hero Academia FINAL SEASON"),
                episode_offset: None,
                title_override: Some(String::from("Boku no Hero Academia (2025)")),
            },
            Anime {
                id: 34567,
                media_id: 3456,
                title: String::from("SPY×FAMILY Season 3"),
                episode_offset: Some(-37),
                title_override: None,
            },
            Anime {
                id: 12345,
                media_id: 1234,
                title: String::from("Watashi wo Tabetai, Hitodenashi"),
                episode_offset: None,
                title_override: None,
            },
        ]
    );
    assert!(overrides.is_empty());
}

#[test]
fn test_build_leaves_unmatched_overrides() {
    let media_list_group = MediaListGroup {
        entries: vec![MediaList {
            id: 1,
            progress: 0,
            media: Media {
                id: 10,
                title: make_media_title("A"),
            },
        }],
    };
    let mut overrides: OverrideMap = HashMap::from([(2, (Some(String::from("B")), Some(3)))]);
    let result = Anime::build(&media_list_group, &mut overrides);
    assert_eq!(result.len(), 1);
    assert_eq!(result[0].id, 1);
    assert_eq!(result[0].episode_offset, None);
    assert_eq!(result[0].title_override, None);
    assert_eq!(overrides.len(), 1);
}
