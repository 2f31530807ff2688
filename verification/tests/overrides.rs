use anifunnel::data::forms::AnimeOverride;
use anifunnel::data::state::EpisodeOverrides;
use anifunnel::data::state::TitleOverrides;

fn sorted_episode_contents(store: &EpisodeOverrides) -> Vec<(i32, i32)> {
    let mut values = store.inner.clone();
    values.sort();
    values
}

fn sorted_title_contents(store: &TitleOverrides) -> Vec<(String, i32)> {
    let mut values = store.inner.clone();
    values.sort();
    values
}

#[test]
fn episode_override_get() {
    let episode_overrides = EpisodeOverrides {
        inner: vec![(146065, 1), (163132, -12)],
    };
    assert_eq!(episode_overrides.get(&146065), Some(1));
    assert_eq!(episode_overrides.get(&163132), Some(-12));
    assert_eq!(episode_overrides.get(&160188), None);
}

#[test]
fn episode_override_new() {
    let episode_overrides = EpisodeOverrides::new();
    assert!(episode_overrides.inner.is_empty());
}

#[test]
fn episode_override_remove() {
    let mut episode_overrides = EpisodeOverrides {
        inner: vec![(146065, 1), (163132, -12)],
    };
    episode_overrides.remove(&146065);
    assert_eq!(sorted_episode_contents(&episode_overrides), [(163132, -12)]);
}

#[test]
fn episode_override_set() {
    let mut episode_overrides = EpisodeOverrides {
        inner: vec![(146065, 1)],
    };
    episode_overrides.set(163132, -12);
    assert_eq!(
        sorted_episode_contents(&episode_overrides),
        [(146065, 1), (163132, -12)]
    );
}

#[test]
fn title_override_get() {
    let title_override = TitleOverrides {
        inner: vec![
            (String::from("Horimiya -piece-"), 163132),
            (String::from("Mushoku Tensei II"), 146065),
        ],
    };
    assert_eq!(
        title_override.get(&String::from("Mushoku Tensei II")),
        Some(146065)
    );
    assert_eq!(
        title_override.get(&String::from("Horimiya -piece-")),
        Some(163132)
    );
    assert_eq!(title_override.get(&String::from("Mushoku Tensei S2")), None);
}

#[test]
fn title_override_get_key() {
    let title_override = TitleOverrides {
        inner: vec![
            (String::from("Horimiya -piece-"), 163132),
            (String::from("Mushoku Tensei II"), 146065),
        ],
    };
    assert_eq!(
        title_override.get_key(&146065),
        Some(String::from("Mushoku Tensei II"))
    );
    assert_eq!(
        title_override.get_key(&163132),
        Some(String::from("Horimiya -piece-"))
    );
    assert_eq!(title_override.get_key(&160188), None);
}

#[test]
fn title_override_new() {
    let title_override = TitleOverrides::new();
    assert!(title_override.inner.is_empty());
}

#[test]
fn title_override_remove_value() {
    let mut title_override = TitleOverrides {
        inner: vec![
            (String::from("Horimiya -piece-"), 163132),
            (String::from("Mushoku Tensei II"), 146065),
        ],
    };
    title_override.remove_value(&146065);
    assert_eq!(
        sorted_title_contents(&title_override),
        [(String::from("Horimiya -piece-"), 163132)]
    );
}

#[test]
fn title_override_set() {
    let mut title_override = TitleOverrides {
        inner: vec![(String::from("Horimiya -piece-"), 163132)],
    };
    let title = String::from("Mushoku Tensei II");
    title_override.set(title.clone(), 146065);
    assert_eq!(
        sorted_title_contents(&title_override),
        [
            (String::from("Horimiya -piece-"), 163132),
            (title, 146065)
        ]
    );
}

#[test]
fn title_override_set_existing_id() {
    let mut title_override = TitleOverrides {
        inner: vec![
            (String::from("Horimiya -piece-"), 163132),
            (String::from("Mushoku Tensei II"), 146065),
        ],
    };
    let title = String::from("Mushoku Tensei S2");
    title_override.set(title.clone(), 146065);
    assert_eq!(
        sorted_title_contents(&title_override),
        [
            (String::from("Horimiya -piece-"), 163132),
            (title, 146065),
        ]
    );
}

#[test]
fn title_override_set_existing_title() {
    let title = String::from("Mushoku Tensei II");
    let mut title_override = TitleOverrides {
        inner: vec![
            (String::from("Horimiya -piece-"), 163132),
            (title.clone(), 127720),
        ],
    };
    title_override.set(title.clone(), 146065);
    assert_eq!(
        sorted_title_contents(&title_override),
        [
            (String::from("Horimiya -piece-"), 163132),
            (title, 146065)
        ]
    );
}

#[test]
fn form_episode_offset() {
    let cases: Vec<(Option<i32>, Option<i32>)> = vec![
        (Some(0), None),
        (Some(1), Some(1)),
        (Some(-12), Some(-12)),
        (None, None),
    ];
    for (value, expected) in cases {
        let anime_override = AnimeOverride {
            episode_offset: value,
            title: None,
        };
        assert_eq!(anime_override.get_episode_offset(), expected);
    }
}

#[test]
fn form_title() {
    let cases: Vec<(Option<&str>, Option<&str>)> =
        vec![(Some(""), None), (Some("title"), Some("title")), (None, None)];
    for (value, expected) in cases {
        let anime_override = AnimeOverride {
            episode_offset: None,
            title: value,
        };
        assert_eq!(anime_override.get_title(), expected);
    }
}

#[test]
fn stored_override_episode_offset() {
    let cases: Vec<(Option<i32>, i32)> = vec![(None, 0), (Some(0), 0), (Some(1), 1), (Some(-12), -12)];
    for (episode_offset, expected) in cases {
        let anime_override = anifunnel::db::AnimeOverride {
            id: 1234,
            episode_offset,
        };
        assert_eq!(anime_override.get_episode_offset(), expected);
    }
}
