use anifunnel::anilist::data::Media;
use anifunnel::anilist::data::MediaList;
use anifunnel::anilist::data::MediaListGroup;
use anifunnel::anilist::data::MediaTitle;

fn fake_media_list(id: i64, title: &str) -> MediaList {
    let title = String::from(title);
    MediaList {
        id,
        progress: 3,
        media: Media {
            id: 1,
            title: MediaTitle {
                romaji: Some(title.clone()),
                english: Some(title.clone()),
                native: Some(title.clone()),
                userPreferred: title.clone(),
            },
        },
    }
}

// Test that an exact match is picked over a very close match.
#[test]
fn media_list_group_close_match_exact_match() {
    let correct_title = "To Aru Kagaku no Railgun";
    let incorrect_title = "To Aru Kagaku no Railgun S";
    let search_title = String::from("To Aru Kagaku no Railgun");

    let correct_media_list = fake_media_list(146065, correct_title);
    let incorrect_media_list = fake_media_list(5678, incorrect_title);
    let media_list_group = MediaListGroup {
        entries: vec![incorrect_media_list, correct_media_list],
    };

    let matched = media_list_group.find_match(&search_title).unwrap();
    assert_eq!(matched.media.title.userPreferred, correct_title);
    assert_eq!(matched.id, 146065);
}

// Test that the fallback fuzzy matching is used when given two strings with
// different ways of identifying seasons/parts.
#[test]
fn media_list_group_fuzzy_matching() {
    let correct_title = "Muv-Luv Alternative Season 2";
    let incorrect_title = "Muv-Luv Alternative: Total Eclipse";
    let search_title = String::from("Muv-Luv Alternative (2022)");

    let correct_media_list = fake_media_list(1234, correct_title);
    let incorrect_media_list = fake_media_list(5678, incorrect_title);
    let media_list_group = MediaListGroup {
        entries: vec![incorrect_media_list, correct_media_list],
    };

    let matched = media_list_group.find_match(&search_title).unwrap();
    assert_eq!(matched.media.title.userPreferred, correct_title);
    assert_eq!(matched.id, 1234);
}

#[test]
fn media_list_group_fuzzy_matching_nth_season() {
    let correct_title = "Kanojo, Okarishimasu 3rd Season";
    let incorrect_title = "Kanojo mo Kanojo";
    let search_title = String::from("Kanojo, Okarishimasu (2023)");

    let correct_media_list = fake_media_list(1234, correct_title);
    let incorrect_media_list = fake_media_list(5678, incorrect_title);
    let media_list_group = MediaListGroup {
        entries: vec![incorrect_media_list, correct_media_list],
    };

    let matched = media_list_group.find_match(&search_title).unwrap();
    assert_eq!(matched.media.title.userPreferred, correct_title);
    assert_eq!(matched.id, 1234);
}

#[test]
fn media_list_group_fuzzy_matching_nth_season_special_characters() {
    let anidb_title = "[Oshi no Ko] 2nd Season";
    let search_title = String::from("\"Oshi no Ko\" (2024)");

    let media_list = fake_media_list(1234, anidb_title);
    let media_list_group = MediaListGroup {
        entries: vec![media_list],
    };

    let matched = media_list_group.find_match(&search_title).unwrap();
    assert_eq!(matched.media.title.userPreferred, anidb_title);
    assert_eq!(matched.id, 1234);
}

// Test that the better of two close matches is picked.
#[test]
fn media_list_group_multiple_close_matches() {
    let correct_title = "To Aru Kagaku no Railgun";
    let incorrect_title = "To Aru Kagaku no Railgun S";
    let search_title = String::from("Toaru Kagaku no Railgun");

    let correct_media_list = fake_media_list(1234, correct_title);
    let incorrect_media_list = fake_media_list(5678, incorrect_title);
    let media_list_group = MediaListGroup {
        entries: vec![incorrect_media_list, correct_media_list],
    };

    let matched = media_list_group.find_match(&search_title).unwrap();
    assert_eq!(matched.media.title.userPreferred, correct_title);
    assert_eq!(matched.id, 1234);
}

// Test that no match is returned in case no good match exists.
#[test]
fn media_list_group_no_match() {
    let incorrect_title = " Soredemo Ayumu wa Yosetekuru";
    let search_title = String::from("Soredemo Machi wa Mawatteiru");

    let incorrect_media_list = fake_media_list(1234, incorrect_title);
    let media_list_group = MediaListGroup {
        entries: vec![incorrect_media_list],
    };

    let matched = media_list_group.find_match(&search_title);
    assert!(matched.is_none());
}

#[test]
fn media_list_group_find_id() {
    let media_list_group = MediaListGroup {
        entries: vec![
            fake_media_list(163132, "Horimiya -piece-"),
            fake_media_list(146065, "Mushoku Tensei II"),
        ],
    };
    assert_eq!(
        media_list_group
            .find_id(&146065)
            .map(|x| x.media.title.userPreferred.clone()),
        Some(String::from("Mushoku Tensei II"))
    );
    assert_eq!(
        media_list_group
            .find_id(&163132)
            .map(|x| x.media.title.userPreferred.clone()),
        Some(String::from("Horimiya -piece-"))
    );
    assert!(media_list_group.find_id(&163133).is_none());
}

// The display title is never matched against.
#[test]
fn media_list_group_preferred_not_matched() {
    let media_list = MediaList {
        id: 42,
        progress: 0,
        media: Media {
            id: 7,
            title: MediaTitle {
                romaji: Some(String::from("Kimetsu no Yaiba")),
                english: None,
                native: None,
                userPreferred: String::from("Demon Slayer"),
            },
        },
    };
    let media_list_group = MediaListGroup {
        entries: vec![media_list],
    };
    assert!(media_list_group
        .find_match(&String::from("Demon Slayer"))
        .is_none());
    assert!(media_list_group
        .find_match(&String::from("Kimetsu no Yaiba"))
        .is_some());
}

// Matching is case-insensitive on both sides.
#[test]
fn media_list_group_case_insensitive() {
    let media_list = fake_media_list(99, "BOCCHI THE ROCK!");
    let media_list_group = MediaListGroup {
        entries: vec![media_list],
    };
    let matched = media_list_group
        .find_match(&String::from("bocchi the rock!"))
        .unwrap();
    assert_eq!(matched.id, 99);
}

#[test]
fn media_list_group_empty() {
    let group = MediaListGroup::empty();
    assert!(group.entries.is_empty());
    assert!(group.find_match(&String::from("anything")).is_none());
}

#[test]
fn media_list_group_from_lists() {
    let lists = vec![
        MediaListGroup {
            entries: vec![fake_media_list(1, "A"), fake_media_list(2, "B")],
        },
        MediaListGroup::empty(),
        MediaListGroup {
            entries: vec![fake_media_list(3, "C")],
        },
    ];
    let flat = MediaListGroup::from_lists(lists);
    let ids: Vec<i64> = flat.entries.iter().map(|e| e.id).collect();
    assert_eq!(ids, vec![1, 2, 3]);
}
